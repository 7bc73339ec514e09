use tweet_query::app::{command_for, query_label, triangle_title, App, Command, Key, QueryData, PAGE_STEP, QUERY_COUNT};
use tweet_query::records::{CountryTweets, HashtagCount, Reply, UserTweets};
use tweet_query::triangle::{Triple, User};

fn triple() -> Triple {
    Triple {
        a: User::unknown("a".to_string()),
        b: User::unknown("b".to_string()),
        c: User::unknown("c".to_string()),
    }
}

fn data(triangles: usize, hashtags: usize) -> QueryData<()> {
    QueryData {
        country: Ok(CountryTweets { country: "US".to_string(), count: 7 }),
        top_user: Err("no connection".to_string()),
        hashtags: (0..hashtags)
            .map(|i| HashtagCount { hashtag: format!("h{i}"), count: i as i64 })
            .collect(),
        replies: vec![Reply {
            text: "hi".to_string(),
            time: "now".to_string(),
            id: 1,
            in_reply_to: 2,
            screen_name: "blcklcfr".to_string(),
            user_name: "B".to_string(),
        }],
        user_dist: vec![(), ()],
        triangles: (0..triangles).map(|_| triple()).collect(),
    }
}

#[test]
fn starts_on_the_first_query() {
    let app = App::new(data(3, 5));
    assert_eq!(app.selected_query(), 0);
    assert_eq!(app.offset(), 0);
    assert_eq!(app.triangle_index(), 0);
    assert_eq!(app.item_count(), 3);
}

#[test]
fn queries_wrap_both_ways() {
    let mut app = App::new(data(0, 0));
    app.previous_query();
    assert_eq!(app.selected_query(), QUERY_COUNT - 1);
    app.next_query();
    assert_eq!(app.selected_query(), 0);
    for _ in 0..QUERY_COUNT {
        app.next_query();
    }
    assert_eq!(app.selected_query(), 0);
}

#[test]
fn item_counts_per_query() {
    let mut app = App::new(data(3, 25));
    let mut counts = Vec::new();
    for _ in 0..QUERY_COUNT {
        counts.push(app.item_count());
        app.next_query();
    }
    assert_eq!(counts, vec![3, 25, 2, 1, 1, 0]);
}

#[test]
fn triangles_step_and_stop_at_the_ends() {
    let mut app = App::new(data(2, 0));
    app.previous_page();
    assert_eq!(app.triangle_index(), 0);
    app.next_page();
    assert_eq!(app.triangle_index(), 1);
    app.next_page();
    assert_eq!(app.triangle_index(), 1);
    app.previous_page();
    assert_eq!(app.triangle_index(), 0);
}

#[test]
fn pages_move_by_a_step_and_stop_at_the_last_row() {
    let mut app = App::new(data(0, 25));
    app.next_query();
    app.next_page();
    assert_eq!(app.offset(), PAGE_STEP);
    app.next_page();
    assert_eq!(app.offset(), 20);
    app.next_page();
    assert_eq!(app.offset(), 24);
    app.previous_page();
    assert_eq!(app.offset(), 14);
    app.previous_page();
    app.previous_page();
    assert_eq!(app.offset(), 0);
}

#[test]
fn changing_query_resets_the_page() {
    let mut app = App::new(data(0, 25));
    app.next_query();
    app.next_page();
    app.next_query();
    assert_eq!(app.offset(), 0);
    app.previous_query();
    assert_eq!(app.offset(), 0);
}

#[test]
fn page_up_undoes_page_down_with_room() {
    let mut app = App::new(data(0, 40));
    app.next_query();
    app.next_page();
    let before = app.offset();
    app.next_page();
    app.previous_page();
    assert_eq!(app.offset(), before);
}

#[test]
fn keys_map_to_commands() {
    assert!(matches!(command_for(Key::Char('q'), true), Command::Quit));
    assert!(matches!(command_for(Key::Esc, true), Command::Quit));
    assert!(matches!(command_for(Key::Char('j'), true), Command::NextQuery));
    assert!(matches!(command_for(Key::Down, true), Command::NextQuery));
    assert!(matches!(command_for(Key::Char('k'), true), Command::PreviousQuery));
    assert!(matches!(command_for(Key::Up, true), Command::PreviousQuery));
    assert!(matches!(command_for(Key::Char('l'), true), Command::NextPage));
    assert!(matches!(command_for(Key::Right, true), Command::NextPage));
    assert!(matches!(command_for(Key::Char('h'), true), Command::PreviousPage));
    assert!(matches!(command_for(Key::Left, true), Command::PreviousPage));
    assert!(matches!(command_for(Key::Char('x'), true), Command::Nothing));
    assert!(matches!(command_for(Key::Other, true), Command::Nothing));
    assert!(matches!(command_for(Key::Char('q'), false), Command::Nothing));
}

#[test]
fn applying_commands() {
    let mut app = App::new(data(2, 0));
    assert!(app.apply(Command::NextQuery));
    assert_eq!(app.selected_query(), 1);
    assert!(app.apply(Command::PreviousQuery));
    assert!(app.apply(Command::NextPage));
    assert_eq!(app.triangle_index(), 1);
    assert!(app.apply(Command::Nothing));
    assert!(!app.apply(Command::Quit));
}

#[test]
fn triangle_titles() {
    assert_eq!(triangle_title(0, 0), "3D Triangles");
    assert_eq!(triangle_title(1, 12), "3D Triangles 2/12");
}

#[test]
fn header_names_the_query_and_its_rows() {
    let mut app = App::new(data(3, 25));
    assert_eq!(app.header_title(), "Tweet Query Visualizer - Triangles - 3 rows");
    app.next_query();
    assert_eq!(app.header_title(), "Tweet Query Visualizer - Tweets / Hashtag - 25 rows");
    assert_eq!(query_label(5), "Top User");
}
