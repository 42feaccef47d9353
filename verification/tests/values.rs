use flowscript::compare::{clone_value, values_equal};
use flowscript::object::{get_field, into_entries, set_field};
use flowscript::table::{find_key, same_text, table_set};
use flowscript::transform::safe_parse_to_value;
use flowscript::value::{JsonNumber, JsonValue};

fn value(text: &str) -> JsonValue {
    safe_parse_to_value(text)
}

fn number(n: u64) -> JsonValue {
    JsonValue::Number(JsonNumber::PosInt(n))
}

#[test]
fn texts_are_compared() {
    assert!(same_text("", ""));
    assert!(same_text("abc", "abc"));
    assert!(!same_text("abc", "abd"));
    assert!(!same_text("abc", "ab"));
}

#[test]
fn last_entry_of_a_key_is_found() {
    let entries = vec![("a".to_string(), 1), ("b".to_string(), 2), ("a".to_string(), 3)];
    assert_eq!(find_key(&entries, "a"), Some(2));
    assert_eq!(find_key(&entries, "b"), Some(1));
    assert_eq!(find_key(&entries, "c"), None);
    assert_eq!(find_key(&Vec::<(String, u8)>::new(), "a"), None);
}

#[test]
fn setting_a_key_replaces_or_adds() {
    let mut entries = vec![("a".to_string(), 1), ("b".to_string(), 2), ("a".to_string(), 3)];
    table_set(&mut entries, "a".to_string(), 9);
    assert_eq!(entries, vec![("a".to_string(), 1), ("b".to_string(), 2), ("a".to_string(), 9)]);
    table_set(&mut entries, "c".to_string(), 4);
    assert_eq!(entries.len(), 4);
    assert_eq!(entries[3], ("c".to_string(), 4));
}

#[test]
fn field_of_object_is_read() {
    let object = value("{\"a\": 1, \"b\": {\"c\": true}}");
    assert!(matches!(get_field(&object, "a"), Some(JsonValue::Number(JsonNumber::PosInt(1)))));
    assert!(matches!(get_field(&object, "b"), Some(JsonValue::Object(_))));
    assert!(get_field(&object, "c").is_none());
    assert!(get_field(&value("[1]"), "a").is_none());
    assert!(get_field(&JsonValue::Null, "a").is_none());
    let doubled = JsonValue::Object(vec![("a".to_string(), number(1)), ("a".to_string(), number(2))]);
    assert!(matches!(get_field(&doubled, "a"), Some(JsonValue::Number(JsonNumber::PosInt(2)))));
}

#[test]
fn field_is_set_later_wins() {
    let mut entries = into_entries(value("{\"a\": 1, \"b\": 2}"));
    set_field(&mut entries, "a".to_string(), number(7));
    set_field(&mut entries, "c".to_string(), JsonValue::Null);
    assert!(values_equal(&JsonValue::Object(entries), &value("{\"a\": 7, \"b\": 2, \"c\": null}")));
    assert!(into_entries(value("[1, 2]")).is_empty());
    assert!(into_entries(JsonValue::Null).is_empty());
}

#[test]
fn equality_ignores_entry_order_and_overridden_entries() {
    let a = JsonValue::Object(vec![
        ("x".to_string(), number(0)),
        ("y".to_string(), number(2)),
        ("x".to_string(), number(1)),
    ]);
    let b = JsonValue::Object(vec![("y".to_string(), number(2)), ("x".to_string(), number(1))]);
    let c = JsonValue::Object(vec![("y".to_string(), number(2)), ("x".to_string(), number(0))]);
    let d = JsonValue::Object(vec![("y".to_string(), number(2))]);
    assert!(values_equal(&a, &b));
    assert!(values_equal(&b, &a));
    assert!(!values_equal(&a, &c));
    assert!(!values_equal(&a, &d));
    assert!(!values_equal(&d, &a));
    assert!(values_equal(&JsonValue::Object(Vec::new()), &value("{}")));
}

#[test]
fn equality_is_by_kind_and_content() {
    let samples = [
        "null", "true", "false", "0", "1", "-1", "1.0", "1.5", "\"\"", "\"a\"", "\"1\"", "[]", "[1]",
        "[1, 2]", "[2, 1]", "[[1]]", "{}", "{\"a\": 1}", "{\"a\": 2}", "{\"b\": 1}",
        "{\"a\": 1, \"b\": 1}", "{\"a\": {\"b\": [1, null]}}", "{\"a\": {\"b\": [1, false]}}",
    ];
    for (i, a) in samples.iter().enumerate() {
        for (j, b) in samples.iter().enumerate() {
            assert_eq!(values_equal(&value(a), &value(b)), i == j, "{} against {}", a, b);
        }
    }
}

#[test]
fn copy_equals_its_source() {
    for text in ["null", "true", "12", "-3", "2.5", "\"text\"", "[1, [2, {\"a\": null}]]", "{\"a\": {\"b\": [1, 2]}, \"c\": \"d\"}"] {
        let first = value(text);
        let copy = clone_value(&first);
        assert!(values_equal(&copy, &first), "for {}", text);
        assert_eq!(format!("{:?}", copy), format!("{:?}", first));
    }
}
