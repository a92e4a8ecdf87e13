use conclave::json::{
    canonicalize, remove_field, remove_field_at_path, remove_field_recursive, to_canonical_json, JsonValue,
};

fn obj(members: Vec<(&str, JsonValue)>) -> JsonValue {
    JsonValue::Object(members.into_iter().map(|(k, v)| (k.to_string(), v)).collect())
}

fn num(i: i128) -> JsonValue {
    JsonValue::Int(i)
}

fn s(t: &str) -> JsonValue {
    JsonValue::Str(t.to_string())
}

#[test]
fn sorted_keys() {
    let input = obj(vec![("z", num(1)), ("a", num(2)), ("m", num(3))]);
    assert_eq!(to_canonical_json(&input), r#"{"a":2,"m":3,"z":1}"#);
}

#[test]
fn sorted_keys_nested() {
    let input = obj(vec![("b", obj(vec![("z", num(1)), ("a", num(2))])), ("a", num(3))]);
    assert_eq!(to_canonical_json(&input), r#"{"a":3,"b":{"a":2,"z":1}}"#);
}

#[test]
fn numeric_normalization_integer_unchanged() {
    let input = obj(vec![("n", num(42))]);
    assert_eq!(to_canonical_json(&input), r#"{"n":42}"#);
}

#[test]
fn negative_integer_in_plain_decimal() {
    let input = obj(vec![("n", num(-5))]);
    assert_eq!(to_canonical_json(&input), r#"{"n":-5}"#);
}

#[test]
fn decimal_text_is_kept() {
    let input = obj(vec![("n", JsonValue::Decimal("1.5".to_string()))]);
    assert_eq!(to_canonical_json(&input), r#"{"n":1.5}"#);
}

#[test]
fn arrays_preserve_order() {
    let input = JsonValue::Array(vec![num(3), num(1), num(2)]);
    assert_eq!(to_canonical_json(&input), "[3,1,2]");
}

#[test]
fn arrays_with_objects_sorted_internally() {
    let input = JsonValue::Array(vec![obj(vec![("b", num(1)), ("a", num(2))])]);
    assert_eq!(to_canonical_json(&input), r#"[{"a":2,"b":1}]"#);
}

#[test]
fn null_string_bool_unchanged() {
    let input = obj(vec![
        ("a", JsonValue::Null),
        ("b", JsonValue::Bool(true)),
        ("c", JsonValue::Bool(false)),
        ("d", s("hello")),
    ]);
    assert_eq!(
        to_canonical_json(&input),
        r#"{"a":null,"b":true,"c":false,"d":"hello"}"#
    );
}

#[test]
fn empty_object() {
    assert_eq!(to_canonical_json(&obj(vec![])), "{}");
}

#[test]
fn empty_array() {
    assert_eq!(to_canonical_json(&JsonValue::Array(vec![])), "[]");
}

#[test]
fn strings_are_escaped() {
    let input = s("a\"b\\c\nd\u{1}");
    assert_eq!(to_canonical_json(&input), r#""a\"b\\c\nd\u0001""#);
}

#[test]
fn later_duplicate_key_wins() {
    let input = obj(vec![("a", num(1)), ("a", num(2))]);
    assert_eq!(to_canonical_json(&input), r#"{"a":2}"#);
}

#[test]
fn canonicalize_is_idempotent_on_example() {
    let input = obj(vec![("b", JsonValue::Array(vec![obj(vec![("y", num(1)), ("x", num(2))])])), ("a", num(3))]);
    let once = canonicalize(&input);
    let twice = canonicalize(&once);
    assert_eq!(to_canonical_json(&once), to_canonical_json(&twice));
    assert_eq!(to_canonical_json(&once), to_canonical_json(&input));
}

#[test]
fn remove_field_top_level() {
    let mut value = obj(vec![("a", num(1)), ("b", num(2))]);
    remove_field(&mut value, "a");
    assert_eq!(to_canonical_json(&value), r#"{"b":2}"#);
}

#[test]
fn remove_field_missing_is_noop() {
    let mut value = obj(vec![("a", num(1))]);
    remove_field(&mut value, "x");
    assert_eq!(to_canonical_json(&value), r#"{"a":1}"#);
}

#[test]
fn remove_field_recursive_deep() {
    let mut value = obj(vec![
        ("a", num(1)),
        ("meta", s("x")),
        ("nested", obj(vec![("meta", s("y")), ("b", num(2))])),
    ]);
    remove_field_recursive(&mut value, "meta");
    assert_eq!(to_canonical_json(&value), r#"{"a":1,"nested":{"b":2}}"#);
}

#[test]
fn remove_field_recursive_in_array() {
    let mut value = JsonValue::Array(vec![obj(vec![("meta", num(1)), ("a", num(2))]), obj(vec![("b", num(3))])]);
    remove_field_recursive(&mut value, "meta");
    assert_eq!(to_canonical_json(&value), r#"[{"a":2},{"b":3}]"#);
}

#[test]
fn remove_field_at_path_nested() {
    let mut value = obj(vec![(
        "supply_chain",
        obj(vec![("manifest_signature", obj(vec![("signature", s("abc")), ("algo", s("ed25519"))]))]),
    )]);
    remove_field_at_path(&mut value, &["supply_chain", "manifest_signature", "signature"]);
    assert_eq!(
        to_canonical_json(&value),
        r#"{"supply_chain":{"manifest_signature":{"algo":"ed25519"}}}"#
    );
}

#[test]
fn remove_field_at_path_missing_parent_is_noop() {
    let mut value = obj(vec![("a", num(1))]);
    remove_field_at_path(&mut value, &["x", "y"]);
    assert_eq!(to_canonical_json(&value), r#"{"a":1}"#);
}

#[test]
fn no_insignificant_whitespace() {
    let input = obj(vec![("a", num(1)), ("b", JsonValue::Array(vec![num(2), num(3)]))]);
    let out = to_canonical_json(&input);
    assert!(!out.contains(' '), "found whitespace in: {}", out);
    assert!(!out.contains('\n'), "found newline in: {}", out);
}

#[test]
fn member_insertion_order_does_not_matter() {
    let a = obj(vec![("x", num(1)), ("y", obj(vec![("p", s("u")), ("q", num(2))])), ("w", num(3))]);
    let b = obj(vec![("w", num(3)), ("x", num(1)), ("y", obj(vec![("q", num(2)), ("p", s("u"))]))]);
    assert_eq!(to_canonical_json(&a), to_canonical_json(&b));
    assert_eq!(to_canonical_json(&a), r#"{"w":3,"x":1,"y":{"p":"u","q":2}}"#);
}
