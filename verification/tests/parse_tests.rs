use stats_refresh::source::{parse_snapshot, ParseError};

fn bits(x: f64) -> u64 {
    x.to_bits()
}

#[test]
fn parses_a_full_response() {
    let body = r#"{"username":"Ash","userid":"ash","ratings":{"gen9ou":{"elo":1500.0,"gxe":55.1},"gen9uu":{"elo":1620.5}}}"#;
    let s = parse_snapshot(body).unwrap();
    assert_eq!(s.display_name, "Ash");
    let mut entries: Vec<(String, u64)> =
        s.entries.iter().map(|e| (e.name.clone(), e.value)).collect();
    entries.sort();
    assert_eq!(
        entries,
        vec![("gen9ou".to_string(), bits(1500.0)), ("gen9uu".to_string(), bits(1620.5))]
    );
}

#[test]
fn integer_elo_reads_as_its_numeric_value() {
    let body = r#"{"username":"Ash","ratings":{"ou":{"elo":1500}}}"#;
    let s = parse_snapshot(body).unwrap();
    assert_eq!(s.entries.len(), 1);
    assert_eq!(s.entries[0].value, bits(1500.0));
}

#[test]
fn category_without_numeric_elo_is_skipped() {
    let body = r#"{"username":"Ash","ratings":{"ou":{"elo":"high"},"uu":{"gxe":40.0},"ru":{"elo":1700.0}}}"#;
    let s = parse_snapshot(body).unwrap();
    assert_eq!(s.entries.len(), 1);
    assert_eq!(s.entries[0].name, "ru");
    assert_eq!(s.entries[0].value, bits(1700.0));
}

#[test]
fn empty_ratings_gives_empty_snapshot() {
    let body = r#"{"username":"Ash","ratings":{}}"#;
    let s = parse_snapshot(body).unwrap();
    assert!(s.entries.is_empty());
}

#[test]
fn non_json_body_is_not_json() {
    assert!(matches!(parse_snapshot("<html>busy</html>"), Err(ParseError::NotJson)));
}

#[test]
fn missing_username_is_reported() {
    let body = r#"{"userid":"ash","ratings":{}}"#;
    assert!(matches!(parse_snapshot(body), Err(ParseError::NoUsername)));
}

#[test]
fn non_string_username_is_reported() {
    let body = r#"{"username":7,"ratings":{}}"#;
    assert!(matches!(parse_snapshot(body), Err(ParseError::NoUsername)));
}

#[test]
fn missing_ratings_is_reported() {
    let body = r#"{"username":"Ash"}"#;
    assert!(matches!(parse_snapshot(body), Err(ParseError::NoRatings)));
}

#[test]
fn non_object_ratings_is_reported() {
    let body = r#"{"username":"Ash","ratings":[1,2,3]}"#;
    assert!(matches!(parse_snapshot(body), Err(ParseError::NoRatings)));
}

#[test]
fn non_object_document_is_reported() {
    let body = r#"[1,2,3]"#;
    assert!(matches!(parse_snapshot(body), Err(ParseError::NoUsername)));
}
