use stats_refresh::normalize::{to_id, username_key};

#[test]
fn to_id_lowercases_and_strips() {
    assert_eq!(to_id("Ash Ketchum!"), "ashketchum");
    assert_eq!(to_id("PIKACHU25"), "pikachu25");
    assert_eq!(to_id("misty"), "misty");
}

#[test]
fn to_id_drops_non_ascii() {
    assert_eq!(to_id("Àbc-déf"), "bcdf");
    assert_eq!(to_id("日本語"), "");
}

#[test]
fn to_id_of_empty_is_empty() {
    assert_eq!(to_id(""), "");
}

#[test]
fn username_key_accepts_normalizable_names() {
    assert_eq!(username_key("Ash Ketchum!"), Some("ashketchum".to_string()));
}

#[test]
fn username_key_rejects_empty_normalizations() {
    assert_eq!(username_key(""), None);
    assert_eq!(username_key("!!! ***"), None);
}
