use keenio::json::{json_to_string, JsonValue, Member};

fn member(key: &str, value: JsonValue) -> Member {
    Member { key: key.to_string(), value }
}

#[test]
fn renders_null_and_bools() {
    assert_eq!(json_to_string(&JsonValue::Null), "null");
    assert_eq!(json_to_string(&JsonValue::Bool(true)), "true");
    assert_eq!(json_to_string(&JsonValue::Bool(false)), "false");
}

#[test]
fn renders_integers() {
    assert_eq!(json_to_string(&JsonValue::Int(0)), "0");
    assert_eq!(json_to_string(&JsonValue::Int(7)), "7");
    assert_eq!(json_to_string(&JsonValue::Int(5000)), "5000");
    assert_eq!(json_to_string(&JsonValue::Int(-42)), "-42");
    assert_eq!(
        json_to_string(&JsonValue::Int(i64::MAX)),
        "9223372036854775807"
    );
    assert_eq!(
        json_to_string(&JsonValue::Int(i64::MIN)),
        "-9223372036854775808"
    );
}

#[test]
fn renders_strings_with_escapes() {
    assert_eq!(json_to_string(&JsonValue::Str(String::new())), "\"\"");
    assert_eq!(
        json_to_string(&JsonValue::Str("hello".to_string())),
        "\"hello\""
    );
    assert_eq!(
        json_to_string(&JsonValue::Str("a\"b\\c".to_string())),
        "\"a\\\"b\\\\c\""
    );
    assert_eq!(
        json_to_string(&JsonValue::Str("\n\r\t\u{8}\u{c}".to_string())),
        "\"\\n\\r\\t\\b\\f\""
    );
    assert_eq!(
        json_to_string(&JsonValue::Str("\u{1}\u{1f}".to_string())),
        "\"\\u0001\\u001f\""
    );
    assert_eq!(
        json_to_string(&JsonValue::Str("caf\u{e9}".to_string())),
        "\"caf\u{e9}\""
    );
}

#[test]
fn renders_arrays() {
    assert_eq!(json_to_string(&JsonValue::Array(Vec::new())), "[]");
    let a = JsonValue::Array(vec![JsonValue::Int(1), JsonValue::Int(2), JsonValue::Int(3)]);
    assert_eq!(json_to_string(&a), "[1,2,3]");
    let nested = JsonValue::Array(vec![
        JsonValue::Array(vec![JsonValue::Null]),
        JsonValue::Bool(false),
    ]);
    assert_eq!(json_to_string(&nested), "[[null],false]");
}

#[test]
fn renders_objects_in_member_order() {
    assert_eq!(json_to_string(&JsonValue::Object(Vec::new())), "{}");
    let v = JsonValue::Object(vec![
        member("x", JsonValue::Int(1)),
        member("y", JsonValue::Str("z".to_string())),
    ]);
    assert_eq!(json_to_string(&v), "{\"x\":1,\"y\":\"z\"}");
    let deep = JsonValue::Object(vec![member(
        "outer",
        JsonValue::Object(vec![member("inner", JsonValue::Array(vec![JsonValue::Int(-1)]))]),
    )]);
    assert_eq!(json_to_string(&deep), "{\"outer\":{\"inner\":[-1]}}");
}
