use chat_server::name_rules::valid_name;

#[test]
fn missing_name_is_invalid() {
    assert!(!valid_name(None));
}

#[test]
fn short_and_long_names_are_invalid() {
    assert!(!valid_name(Some("")));
    assert!(!valid_name(Some("a")));
    assert!(valid_name(Some("ab")));
    assert!(valid_name(Some("abcdefghijklmnopqrst")));
    assert!(!valid_name(Some("abcdefghijklmnopqrstu")));
}

#[test]
fn allowed_characters() {
    assert!(valid_name(Some("Brave-Otter_42")));
    assert!(valid_name(Some("A9")));
    assert!(valid_name(Some("__")));
    assert!(valid_name(Some("--")));
}

#[test]
fn rejected_characters() {
    assert!(!valid_name(Some("a!")));
    assert!(!valid_name(Some("a b")));
    assert!(!valid_name(Some("name.")));
    assert!(!valid_name(Some("caf\u{e9}s")));
    assert!(!valid_name(Some("/name")));
}
