use conclave::replay::split_replay_key;

#[test]
fn replay_key_splits_at_first_separator() {
    assert_eq!(
        split_replay_key("fetch(Url)->Html::G.page.fetch.0"),
        Some(("fetch(Url)->Html".to_string(), "G.page.fetch.0".to_string()))
    );
    assert_eq!(split_replay_key("a::b::c"), Some(("a".to_string(), "b::c".to_string())));
    assert_eq!(split_replay_key("::x"), Some((String::new(), "x".to_string())));
}

#[test]
fn replay_key_without_separator_is_invalid() {
    assert_eq!(split_replay_key("no-separator"), None);
    assert_eq!(split_replay_key("a:b"), None);
    assert_eq!(split_replay_key(""), None);
}
