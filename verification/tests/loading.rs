use tweet_query::loader::{
    document_from_parsed, line_to_doc, trim_text, FileLoad, LoadError, ParsedLine, BATCH_SIZE,
};

#[test]
fn trims_unicode_white_space() {
    assert_eq!(trim_text("  {\"a\":1}\t\n"), "{\"a\":1}");
    assert_eq!(trim_text("\u{a0}x y\u{3000}"), "x y");
    assert_eq!(trim_text("   "), "");
    assert_eq!(trim_text(""), "");
}

#[test]
fn parses_objects_only() {
    let doc = line_to_doc("{\"user\": {\"screen_name\": \"ann\"}, \"n\": 3}").unwrap();
    assert_eq!(doc.get_i64("n").unwrap(), 3);
    assert!(doc.get_document("user").is_ok());
    assert!(matches!(line_to_doc("[1, 2]"), Err(LoadError::InvalidDocument)));
    assert!(matches!(line_to_doc("42"), Err(LoadError::InvalidDocument)));
    assert!(matches!(line_to_doc("{not json"), Err(LoadError::Json(_))));
}

#[test]
fn numbers_bson_cannot_hold_are_refused() {
    assert!(matches!(line_to_doc("{\"n\": 18446744073709551615}"), Err(LoadError::Mongo(_))));
}

#[test]
fn blank_lines_are_skipped() {
    let mut load = FileLoad::new();
    assert!(matches!(load.on_line("   "), Ok(None)));
    assert!(matches!(load.on_line(""), Ok(None)));
    let (rest, total) = load.finish();
    assert!(rest.is_none());
    assert_eq!(total, 0);
}

#[test]
fn a_full_batch_is_handed_out() {
    let mut load = FileLoad::new();
    let mut handed = Vec::new();
    for i in 0..(BATCH_SIZE + 5) {
        if let Some(docs) = load.on_line(&format!("{{\"i\": {i}}}")).unwrap() {
            handed.push(docs);
        }
        if i % 7 == 0 {
            assert!(matches!(load.on_line("  "), Ok(None)));
        }
    }
    assert_eq!(handed.len(), 1);
    assert_eq!(handed[0].len(), BATCH_SIZE);
    assert_eq!(handed[0][0].get_i64("i").unwrap(), 0);
    assert_eq!(handed[0][BATCH_SIZE - 1].get_i64("i").unwrap(), (BATCH_SIZE - 1) as i64);
    assert_eq!(load.handed_out_count(), BATCH_SIZE);
    let (rest, total) = load.finish();
    let rest = rest.unwrap();
    assert_eq!(rest.len(), 5);
    assert_eq!(rest[4].get_i64("i").unwrap(), (BATCH_SIZE + 4) as i64);
    assert_eq!(total, BATCH_SIZE + 5);
}

#[test]
fn a_bad_line_is_an_error() {
    let mut load = FileLoad::new();
    assert!(matches!(load.on_line("\"text\""), Err(LoadError::InvalidDocument)));
    assert!(matches!(load.on_line("{"), Err(LoadError::Json(_))));
}

#[test]
fn messages_name_the_failure() {
    assert_eq!(LoadError::InvalidDocument.message(), "Parsed JSON is not a BSON document");
    let io = LoadError::from(std::io::Error::new(std::io::ErrorKind::Other, "disk gone"));
    assert_eq!(io.message(), "IO error: disk gone");
    let json = line_to_doc("{").unwrap_err();
    let text = match &json {
        LoadError::Json(e) => e.to_string(),
        _ => unreachable!(),
    };
    assert_eq!(json.message(), format!("JSON parse error: {text}"));
    let mongo = line_to_doc("{\"n\": 18446744073709551615}").unwrap_err();
    let text = match &mongo {
        LoadError::Mongo(e) => e.to_string(),
        _ => unreachable!(),
    };
    assert_eq!(mongo.message(), format!("MongoDB error: {text}"));
}

#[test]
fn extended_json_objects_are_not_documents() {
    assert!(matches!(
        line_to_doc("{\"$oid\": \"507f1f77bcf86cd799439011\"}"),
        Err(LoadError::InvalidDocument)
    ));
}

#[test]
fn parsed_lines_become_documents_or_errors() {
    assert!(matches!(document_from_parsed(ParsedLine::NotObject), Err(LoadError::InvalidDocument)));
    assert!(matches!(document_from_parsed(ParsedLine::NotDocument), Err(LoadError::InvalidDocument)));
    let mut doc = mongodb::bson::Document::new();
    doc.insert("k", "v");
    let back = document_from_parsed(ParsedLine::Document(doc.clone())).unwrap();
    assert_eq!(back, doc);
    let e = serde_json::from_str::<serde_json::Value>("{").unwrap_err();
    assert!(matches!(document_from_parsed(ParsedLine::Malformed(e)), Err(LoadError::Json(_))));
}

#[test]
fn a_line_gives_its_own_document() {
    let doc = line_to_doc("{\"a\":\"x\",\"b\":true}").unwrap();
    let mut expected = mongodb::bson::Document::new();
    expected.insert("a", "x");
    expected.insert("b", true);
    assert_eq!(doc, expected);
}

#[test]
fn batches_are_the_lines_documents_in_order() {
    let mut load = FileLoad::new();
    let mut seen: Vec<i64> = Vec::new();
    let n = 2 * BATCH_SIZE + 3;
    for i in 0..n {
        if i % 5 == 0 {
            assert!(matches!(load.on_line("\t"), Ok(None)));
        }
        if let Some(docs) = load.on_line(&format!("  {{\"i\": {i}}}  ")).unwrap() {
            assert_eq!(docs.len(), BATCH_SIZE);
            seen.extend(docs.iter().map(|d| d.get_i64("i").unwrap()));
        }
    }
    let (rest, total) = load.finish();
    seen.extend(rest.unwrap().iter().map(|d| d.get_i64("i").unwrap()));
    assert_eq!(total, n);
    assert_eq!(seen, (0..n as i64).collect::<Vec<_>>());
}

#[test]
fn a_refused_line_leaves_the_load_as_it_was() {
    let mut load = FileLoad::new();
    assert!(matches!(load.on_line("{\"a\": 1}"), Ok(None)));
    assert!(matches!(load.on_line("[]"), Err(LoadError::InvalidDocument)));
    assert_eq!(load.waiting_count(), 1);
    assert_eq!(load.handed_out_count(), 0);
}

#[test]
fn trim_matches_str_trim() {
    let pieces = ["a", " ", "\t", "b c", "\u{a0}", "\u{2028}", "\r\n", "é", "\u{3000}", "\u{1680}"];
    let mut seed: u32 = 3;
    for _ in 0..500 {
        let mut s = String::new();
        for _ in 0..6 {
            seed = seed.wrapping_mul(1103515245).wrapping_add(12345);
            s.push_str(pieces[(seed >> 16) as usize % pieces.len()]);
        }
        assert_eq!(trim_text(&s), s.trim());
    }
}
