use librojo::json::{
    is_valid_identifier, parse_value, parse_value_from_slice_with_context, parse_value_with_context, write_escaped_string,
    Json5Object, Json5Value,
};

#[test]
fn test_write_to_escapes_special_chars() {
    let value = Json5Value::String("hello\nworld\t\"test\"".to_string());
    let mut output = String::new();
    value.write_to(&mut output, 0);
    assert_eq!(output, r#""hello\nworld\t\"test\"""#);
}

#[test]
fn test_valid_identifier_unquoted() {
    assert!(is_valid_identifier("foo"));
    assert!(is_valid_identifier("_bar"));
    assert!(is_valid_identifier("$baz"));
    assert!(is_valid_identifier("foo123"));
    assert!(is_valid_identifier("_"));
    assert!(is_valid_identifier("$"));
    assert!(is_valid_identifier("camelCase"));
    assert!(is_valid_identifier("snake_case"));
}

#[test]
fn test_invalid_identifier_quoted() {
    assert!(!is_valid_identifier("")); // empty
    assert!(!is_valid_identifier("123")); // starts with digit
    assert!(!is_valid_identifier("foo-bar")); // contains dash
    assert!(!is_valid_identifier("foo bar")); // contains space
    assert!(!is_valid_identifier("foo.bar")); // contains dot
    assert!(!is_valid_identifier("1foo")); // starts with digit
    assert!(!is_valid_identifier("foo@bar")); // contains @
}

#[test]
fn test_write_escaped_string_function() {
    // Direct test of the escaping function
    let mut output = String::new();
    write_escaped_string(&mut output, r#"hello"world"#);
    assert_eq!(output, r#""hello\"world""#);

    let mut output = String::new();
    write_escaped_string(&mut output, "line1\nline2");
    assert_eq!(output, r#""line1\nline2""#);

    let mut output = String::new();
    write_escaped_string(&mut output, r"path\to\file");
    assert_eq!(output, r#""path\\to\\file""#);
}

#[test]
fn test_escape_quotation_mark() {
    // \" - Quotation mark (U+0022)
    let mut output = String::new();
    write_escaped_string(&mut output, "say \"hello\"");
    assert_eq!(output, r#""say \"hello\"""#);
}

#[test]
fn test_escape_reverse_solidus() {
    // \\ - Reverse solidus (U+005C)
    let mut output = String::new();
    write_escaped_string(&mut output, r"path\to\file");
    assert_eq!(output, r#""path\\to\\file""#);
}

#[test]
fn test_escape_backspace() {
    // \b - Backspace (U+0008)
    let mut output = String::new();
    write_escaped_string(&mut output, "hello\u{0008}world");
    assert_eq!(output, r#""hello\bworld""#);
}

#[test]
fn test_escape_form_feed() {
    // \f - Form feed (U+000C)
    let mut output = String::new();
    write_escaped_string(&mut output, "page\u{000C}break");
    assert_eq!(output, r#""page\fbreak""#);
}

#[test]
fn test_escape_line_feed() {
    // \n - Line feed (U+000A)
    let mut output = String::new();
    write_escaped_string(&mut output, "line1\nline2");
    assert_eq!(output, r#""line1\nline2""#);
}

#[test]
fn test_escape_carriage_return() {
    // \r - Carriage return (U+000D)
    let mut output = String::new();
    write_escaped_string(&mut output, "line1\rline2");
    assert_eq!(output, r#""line1\rline2""#);
}

#[test]
fn test_escape_horizontal_tab() {
    // \t - Horizontal tab (U+0009)
    let mut output = String::new();
    write_escaped_string(&mut output, "col1\tcol2");
    assert_eq!(output, r#""col1\tcol2""#);
}

#[test]
fn test_escape_vertical_tab() {
    // \v - Vertical tab (U+000B)
    let mut output = String::new();
    write_escaped_string(&mut output, "hello\u{000B}world");
    assert_eq!(output, r#""hello\vworld""#);
}

#[test]
fn test_escape_null_character() {
    // \0 - Null (U+0000) - we use \u0000 for safety
    let mut output = String::new();
    write_escaped_string(&mut output, "null\u{0000}char");
    assert!(
        output.contains("\\u0000") || output.contains("\\0"),
        "Null should be escaped: {}",
        output
    );
}

#[test]
fn test_all_standard_escapes_combined() {
    // Test all standard escapes in one string
    let input = "\"\\\u{0008}\u{000C}\n\r\t\u{000B}";
    let mut output = String::new();
    write_escaped_string(&mut output, input);

    assert!(output.contains("\\\""), "Quote not escaped");
    assert!(output.contains("\\\\"), "Backslash not escaped");
    assert!(output.contains("\\b"), "Backspace not escaped");
    assert!(output.contains("\\f"), "Form feed not escaped");
    assert!(output.contains("\\n"), "Line feed not escaped");
    assert!(output.contains("\\r"), "Carriage return not escaped");
    assert!(output.contains("\\t"), "Tab not escaped");
    assert!(output.contains("\\v"), "Vertical tab not escaped");
}

#[test]
fn test_escape_line_separator_u2028() {
    // U+2028 - Line separator (generators SHOULD escape)
    let mut output = String::new();
    write_escaped_string(&mut output, "line\u{2028}separator");
    assert!(
        output.contains("\\u2028"),
        "Line separator U+2028 should be escaped: {}",
        output
    );
}

#[test]
fn test_escape_paragraph_separator_u2029() {
    // U+2029 - Paragraph separator (generators SHOULD escape)
    let mut output = String::new();
    write_escaped_string(&mut output, "paragraph\u{2029}separator");
    assert!(
        output.contains("\\u2029"),
        "Paragraph separator U+2029 should be escaped: {}",
        output
    );
}

#[test]
fn write_to_scalars() {
    let mut out = String::new();
    Json5Value::Null.write_to(&mut out, 0);
    out.push(' ');
    Json5Value::Bool(true).write_to(&mut out, 3);
    out.push(' ');
    Json5Value::Bool(false).write_to(&mut out, 0);
    out.push(' ');
    Json5Value::Number("1e400".to_string()).write_to(&mut out, 0);
    assert_eq!(out, "null true false 1e400");
}

#[test]
fn write_to_short_array_of_scalars_is_inline() {
    let value = Json5Value::Array(vec![
        Json5Value::Number("1".to_string()),
        Json5Value::String("a".to_string()),
        Json5Value::Null,
    ]);
    let mut out = String::new();
    value.write_to(&mut out, 2);
    assert_eq!(out, "[ 1, \"a\", null ]");
}

#[test]
fn write_to_empty_containers() {
    let mut out = String::new();
    Json5Value::Array(vec![]).write_to(&mut out, 1);
    Json5Value::Object(vec![]).write_to(&mut out, 1);
    assert_eq!(out, "[]{}");
}

#[test]
fn write_to_long_array_is_one_item_per_line() {
    let items: Vec<Json5Value> = (0..21).map(|i| Json5Value::Number(i.to_string())).collect();
    let mut out = String::new();
    Json5Value::Array(items).write_to(&mut out, 0);
    let mut expected = String::from("[\n");
    for i in 0..21 {
        expected.push_str(&format!("  {}{}\n", i, if i < 20 { "," } else { "" }));
    }
    expected.push(']');
    assert_eq!(out, expected);
}

#[test]
fn write_to_nested_object_quotes_non_identifier_keys() {
    let value = Json5Value::Object(vec![
        ("a-b".to_string(), Json5Value::Number("1".to_string())),
        (
            "inner".to_string(),
            Json5Value::Array(vec![Json5Value::Object(vec![(
                "x".to_string(),
                Json5Value::Bool(true),
            )])]),
        ),
    ]);
    let mut out = String::new();
    value.write_to(&mut out, 0);
    assert_eq!(
        out,
        "{\n  \"a-b\": 1,\n  inner: [\n    {\n      x: true\n    }\n  ]\n}"
    );
}

#[test]
fn escape_other_control_characters_as_hex() {
    let mut out = String::new();
    write_escaped_string(&mut out, "a\u{1f}b\u{7f}c\u{85}d\u{a0}");
    assert_eq!(out, "\"a\\u001fb\\u007fc\\u0085d\u{a0}\"");
}

#[test]
fn escape_appends_to_existing_output() {
    let mut out = String::from("key: ");
    write_escaped_string(&mut out, "");
    assert_eq!(out, "key: \"\"");
}

#[test]
fn object_keys_are_sorted_and_unique() {
    let mut obj = Json5Object::new();
    obj.insert("zeta".to_string(), Json5Value::Bool(true));
    obj.insert("alpha".to_string(), Json5Value::Number("1".to_string()));
    obj.insert("Beta".to_string(), Json5Value::Null);
    obj.insert("alpha".to_string(), Json5Value::Number("2".to_string()));
    obj.insert("al".to_string(), Json5Value::String("x".to_string()));
    let value = obj.into_value();
    let keys: Vec<String> = match &value {
        Json5Value::Object(es) => es.iter().map(|(k, _)| k.clone()).collect(),
        _ => panic!("expected an object"),
    };
    assert_eq!(keys, vec!["Beta", "al", "alpha", "zeta"]);
    let mut out = String::new();
    value.write_to(&mut out, 0);
    assert_eq!(out, "{\n  Beta: null,\n  al: \"x\",\n  alpha: 2,\n  zeta: true\n}");
}

#[test]
fn well_formed_only_with_increasing_keys() {
    let sorted = Json5Value::Object(vec![
        ("a".to_string(), Json5Value::Null),
        ("b".to_string(), Json5Value::Array(vec![Json5Value::Object(vec![])])),
    ]);
    assert!(sorted.is_well_formed());
    let unsorted = Json5Value::Object(vec![
        ("b".to_string(), Json5Value::Null),
        ("a".to_string(), Json5Value::Null),
    ]);
    assert!(!unsorted.is_well_formed());
    let repeated = Json5Value::Object(vec![
        ("a".to_string(), Json5Value::Null),
        ("a".to_string(), Json5Value::Null),
    ]);
    assert!(!repeated.is_well_formed());
    let nested = Json5Value::Array(vec![unsorted]);
    assert!(!nested.is_well_formed());
}

#[test]
fn test_parse_value() {
    let value = parse_value(r#"{"foo": "bar"}"#).unwrap();
    assert!(matches!(field(&value, "foo"), Some(Json5Value::String(s)) if s == "bar"));
}

#[test]
fn test_parse_value_with_comments() {
    let value = parse_value(
        r#"{
            // This is a comment
            "foo": "bar" // Inline comment
        }"#,
    )
    .unwrap();
    assert!(matches!(field(&value, "foo"), Some(Json5Value::String(s)) if s == "bar"));
}

#[test]
fn test_parse_value_with_trailing_comma() {
    let value = parse_value(
        r#"{
            "foo": "bar",
            "baz": 123,
        }"#,
    )
    .unwrap();
    assert!(matches!(field(&value, "foo"), Some(Json5Value::String(s)) if s == "bar"));
    assert!(matches!(field(&value, "baz"), Some(Json5Value::Number(s)) if s == "123"));
}

#[test]
fn test_parse_value_empty() {
    assert!(parse_value("").is_err());
}

#[test]
fn test_parse_value_invalid() {
    assert!(parse_value("{invalid}").is_err());
}

#[test]
fn test_parse_value_with_context() {
    let err = parse_value_with_context("{invalid}", "test.json").unwrap_err();
    assert!(err.contains("test.json"));
    assert!(err.contains("parse"));
}

#[test]
fn test_parse_value_from_slice_with_context() {
    let err = parse_value_from_slice_with_context(b"{invalid}", "test.json").unwrap_err();
    assert!(err.contains("test.json"));
    assert!(err.contains("parse"));
}

#[test]
fn test_parse_value_from_slice_with_context_invalid_utf8() {
    let err = parse_value_from_slice_with_context(&[0xFF, 0xFF], "test.json").unwrap_err();
    assert!(err.contains("test.json"));
    assert!(err.contains("UTF-8"));
}

#[test]
fn parse_errors_have_exact_messages() {
    assert_eq!(parse_value("{").unwrap_err(), "Failed to parse JSON5");
    assert_eq!(parse_value_with_context("{", "a.json5").unwrap_err(), "a.json5: JSON5 parse error");
    assert_eq!(
        parse_value_from_slice_with_context(&[0xC0], "a.json5").unwrap_err(),
        "a.json5: File is not valid UTF-8"
    );
}

#[test]
fn parsed_objects_are_well_formed_and_nest() {
    let value = parse_value("{ b: [1, { y: null, x: true }], a: 'q' }").unwrap();
    assert!(value.is_well_formed());
    assert!(value.depth_below(4));
    assert!(!value.depth_below(3));
    let mut out = String::new();
    value.write_to(&mut out, 0);
    assert_eq!(out, "{\n  a: \"q\",\n  b: [\n    1,\n    {\n      x: true,\n      y: null\n    }\n  ]\n}");
}

fn field<'a>(v: &'a Json5Value, key: &str) -> Option<&'a Json5Value> {
    match v {
        Json5Value::Object(entries) => entries.iter().find(|(k, _)| k == key).map(|(_, v)| v),
        _ => None,
    }
}

#[test]
fn written_escapes_read_back_through_json5() {
    let original = "\"\\\u{0008}\u{000C}\n\r\t\u{000B}\u{2028}\u{2029}\u{1}é";
    let mut obj = Json5Object::new();
    obj.insert("value".to_string(), Json5Value::String(original.to_string()));
    let mut out = String::new();
    obj.into_value().write_to(&mut out, 0);
    let back = parse_value(&out).unwrap();
    assert!(matches!(field(&back, "value"), Some(Json5Value::String(s)) if s == original));
}
