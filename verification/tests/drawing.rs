use tweet_query::canvas::{label_position, line_cells, line_symbol, text_span, visible_rows, Area};
use tweet_query::records::{CountryTweets, UserTweets};
use mongodb::bson::{Bson, Document};

#[test]
fn area_contains_its_cells_only() {
    let a = Area { x: 2, y: 3, width: 4, height: 2 };
    assert!(a.contains(2, 3));
    assert!(a.contains(5, 4));
    assert!(!a.contains(6, 4));
    assert!(!a.contains(5, 5));
    assert!(!a.contains(1, 3));
    let edge = Area { x: 65530, y: 0, width: 100, height: 1 };
    assert!(edge.contains(65534, 0));
    assert!(!edge.contains(65535, 0));
}

#[test]
fn rows_that_fit() {
    assert_eq!(visible_rows(0), 1);
    assert_eq!(visible_rows(5), 1);
    assert_eq!(visible_rows(6), 2);
    assert_eq!(visible_rows(30), 26);
}

#[test]
fn text_stops_at_the_last_column() {
    assert_eq!(text_span(10, 5), 5);
    assert_eq!(text_span(65534, 5), 2);
    assert_eq!(text_span(0, 0), 0);
}

#[test]
fn line_symbols() {
    assert_eq!(line_symbol((1, 1), (1, 9)), '│');
    assert_eq!(line_symbol((1, 1), (9, 1)), '─');
    assert_eq!(line_symbol((1, 1), (4, 4)), '╲');
    assert_eq!(line_symbol((4, 1), (1, 4)), '╱');
}

#[test]
fn bresenham_cells() {
    assert_eq!(line_cells((0, 0), (3, 1)), vec![(0, 0), (1, 0), (2, 1), (3, 1)]);
    assert_eq!(line_cells((5, 5), (5, 5)), vec![(5, 5)]);
    assert_eq!(line_cells((3, 0), (0, 3)), vec![(3, 0), (2, 1), (1, 2), (0, 3)]);
    assert_eq!(line_cells((0, 4), (0, 0)), vec![(0, 4), (0, 3), (0, 2), (0, 1), (0, 0)]);
    let long = line_cells((0, 0), (65535, 65535));
    assert_eq!(long.len(), 65536);
}

#[test]
fn labels_go_right_or_left() {
    let clip = Area { x: 0, y: 0, width: 40, height: 20 };
    assert_eq!(label_position((10, 10), &clip, 6), (12, 9));
    assert_eq!(label_position((35, 1), &clip, 6), (27, 2));
}

#[test]
fn country_and_user_rows() {
    let mut d = Document::new();
    d.insert("country", Bson::String("Japan".to_string()));
    d.insert("count", Bson::Int64(42));
    let c: CountryTweets = CountryTweets::from_document(&d).unwrap();
    assert_eq!(c.country, "Japan");
    assert_eq!(c.count, 42);
    assert!(UserTweets::from_document(&d).is_none());
    let mut u = Document::new();
    u.insert("screen_name", Bson::String("ann".to_string()));
    u.insert("count", Bson::Int32(3));
    assert!(UserTweets::from_document(&u).is_none());
    u.insert("count", Bson::Int64(3));
    let t = UserTweets::from_document(&u).unwrap();
    assert_eq!((t.screen_name.as_str(), t.count), ("ann", 3));
}

fn reference_walk(from: (u16, u16), to: (u16, u16)) -> Vec<(u16, u16)> {
    let mut out = Vec::new();
    let mut x = i32::from(from.0);
    let mut y = i32::from(from.1);
    let end_x = i32::from(to.0);
    let end_y = i32::from(to.1);
    let dx = (end_x - x).abs();
    let dy = -(end_y - y).abs();
    let step_x = if x < end_x { 1 } else { -1 };
    let step_y = if y < end_y { 1 } else { -1 };
    let mut err = dx + dy;
    loop {
        out.push((x as u16, y as u16));
        if x == end_x && y == end_y {
            break;
        }
        let doubled_err = 2 * err;
        if doubled_err >= dy {
            err += dy;
            x += step_x;
        }
        if doubled_err <= dx {
            err += dx;
            y += step_y;
        }
    }
    out
}

#[test]
fn cells_match_the_integer_walk_on_a_grid() {
    for x0 in 0..9u16 {
        for y0 in 0..9u16 {
            for x1 in 0..9u16 {
                for y1 in 0..9u16 {
                    let a = (x0 * 7, y0 * 5);
                    let b = (x1 * 3, y1 * 11);
                    assert_eq!(line_cells(a, b), reference_walk(a, b));
                }
            }
        }
    }
}
