use tweet_query::text::{
    clean_text, count_label, count_scale, decimal_text, display_name, format_user, option_text,
    legend_text, page_title, signed_text, user_details, verified_text, vertex_label, CountLabel,
};
use tweet_query::triangle::User;

#[test]
fn verified_words() {
    assert_eq!(verified_text(Some(true)), "yes");
    assert_eq!(verified_text(Some(false)), "no");
    assert_eq!(verified_text(None), "unknown");
}

#[test]
fn clean_joins_words_with_single_spaces() {
    assert_eq!(clean_text("  hello \t  wide\n world  "), "hello wide world");
    assert_eq!(clean_text(""), "");
    assert_eq!(clean_text(" \u{3000}\u{a0} "), "");
    assert_eq!(clean_text("a\u{2003}b"), "a b");
    assert_eq!(clean_text("one"), "one");
}

#[test]
fn clean_twice_is_clean_once() {
    let once = clean_text("  x  y z ");
    assert_eq!(clean_text(&once), once);
}

#[test]
fn option_text_cases() {
    assert_eq!(option_text(&None), "unknown");
    assert_eq!(option_text(&Some("   ".to_string())), "unknown");
    assert_eq!(option_text(&Some(" New   York ".to_string())), "New York");
}

#[test]
fn decimals() {
    assert_eq!(decimal_text(0), "0");
    assert_eq!(decimal_text(7), "7");
    assert_eq!(decimal_text(1200), "1200");
    assert_eq!(decimal_text(u64::MAX), "18446744073709551615");
    assert_eq!(signed_text(-45), "-45");
    assert_eq!(signed_text(i64::MIN + 1), "-9223372036854775807");
    assert_eq!(signed_text(999), "999");
}

#[test]
fn page_titles() {
    assert_eq!(page_title("Tweets Per Hashtag", 0, 0), "Tweets Per Hashtag - empty");
    assert_eq!(page_title("Tweets Per Hashtag", 0, 100), "Tweets Per Hashtag - rows 1-10 of 100");
    assert_eq!(page_title("Replies", 20, 25), "Replies - rows 21-25 of 25");
}

#[test]
fn user_labels() {
    let mut u = User::unknown("ann".to_string());
    u.name = "Ann  Lee".to_string();
    assert_eq!(format_user("A", &u), "A: @ann (Ann  Lee)");
    assert_eq!(vertex_label("B", &u), "B @ann");
    assert_eq!(display_name(&u), "Ann Lee");
    assert_eq!(display_name(&User::unknown("x".to_string())), "unknown");
}

#[test]
fn count_scales() {
    assert_eq!(count_scale(999), None);
    assert_eq!(count_scale(1000), Some((1000, 'K')));
    assert_eq!(count_scale(-2500), Some((1000, 'K')));
    assert_eq!(count_scale(999_999), Some((1000, 'K')));
    assert_eq!(count_scale(1_000_000), Some((1_000_000, 'M')));
}

#[test]
fn count_labels() {
    assert!(matches!(count_label(None), CountLabel::Unknown));
    match count_label(Some(-12)) {
        CountLabel::Plain(s) => assert_eq!(s, "-12"),
        _ => panic!("expected a plain count"),
    }
    match count_label(Some(1_500_000)) {
        CountLabel::Scaled { value, scale, unit } => {
            assert_eq!((value, scale, unit), (1_500_000, 1_000_000, 'M'))
        }
        _ => panic!("expected a scaled count"),
    }
}

#[test]
fn details_of_a_user() {
    let mut u = User::unknown("ann".to_string());
    u.description = Some("  likes   tea ".to_string());
    u.verified = Some(false);
    u.lang = Some("en".to_string());
    let d = user_details(&u, "1.5K", "12", "3");
    let labels: Vec<&str> = d.iter().map(|(l, _)| *l).collect();
    assert_eq!(labels, vec!["bio", "verified", "id", "social", "tweets", "location", "locale", "joined"]);
    assert_eq!(d[0].1, "likes tea");
    assert_eq!(d[1].1, "no");
    assert_eq!(d[2].1, "unknown");
    assert_eq!(d[3].1, "1.5K followers / 12 friends");
    assert_eq!(d[4].1, "3");
    assert_eq!(d[5].1, "unknown");
    assert_eq!(d[6].1, "en / unknown");
    assert_eq!(d[7].1, "unknown");
}

#[test]
fn legend_of_a_user() {
    let mut u = User::unknown("ann".to_string());
    u.verified = Some(true);
    assert_eq!(legend_text(&u, "2.0M"), " | unknown | 2.0M followers | verified: yes");
}

#[test]
fn clean_matches_split_whitespace_join() {
    let pieces = ["a", " ", "\t", "bc", "\u{a0}", "\u{2009}", "\n", "dé", "\u{3000}", "\u{85}", "x"];
    let mut seed: u32 = 7;
    for _ in 0..500 {
        let mut s = String::new();
        for _ in 0..8 {
            seed = seed.wrapping_mul(1103515245).wrapping_add(12345);
            s.push_str(pieces[(seed >> 16) as usize % pieces.len()]);
        }
        let expected = s.split_whitespace().collect::<Vec<_>>().join(" ");
        assert_eq!(clean_text(&s), expected);
    }
}

#[test]
fn clean_keeps_words() {
    let samples = ["  hello \t  wide\n world  ", "", "one", " a\u{2003}b \u{3000}c ", "x  y\r\nz"];
    for s in samples {
        let c = clean_text(s);
        assert_eq!(c.split_whitespace().collect::<Vec<_>>(), s.split_whitespace().collect::<Vec<_>>());
    }
    assert_eq!(clean_text(" a\u{2003}b \u{3000}c "), "a b c");
}
