use librojo::path_encoding::{decode_path_name, encode_path_name};

#[test]
fn test_encode_all_chars() {
    let input = r#".<>:"/\|?*"#;
    let expected = "%DOT%%LT%%GT%%COLON%%QUOTE%%SLASH%%BACKSLASH%%PIPE%%QUESTION%%STAR%";
    assert_eq!(encode_path_name(input), expected);
}

#[test]
fn test_decode_all_chars() {
    let input = "%DOT%%LT%%GT%%COLON%%QUOTE%%SLASH%%BACKSLASH%%PIPE%%QUESTION%%STAR%";
    let expected = r#".<>:"/\|?*"#;
    assert_eq!(decode_path_name(input), expected);
}

#[test]
fn test_roundtrip() {
    let original = "Test<File>With:Special\"Chars/And\\More|Stuff?Here*End";
    let encoded = encode_path_name(original);
    let decoded = decode_path_name(&encoded);
    assert_eq!(decoded, original);
}

#[test]
fn test_no_special_chars() {
    let input = "NormalFileName";
    assert_eq!(encode_path_name(input), input);
    assert_eq!(decode_path_name(input), input);
}

#[test]
fn test_leading_spaces() {
    let input = "  LeadingSpaces";
    let encoded = encode_path_name(input);
    assert_eq!(encoded, "%SPACE%%SPACE%LeadingSpaces");
    assert_eq!(decode_path_name(&encoded), input);
}

#[test]
fn test_trailing_spaces() {
    let input = "TrailingSpaces  ";
    let encoded = encode_path_name(input);
    assert_eq!(encoded, "TrailingSpaces%SPACE%%SPACE%");
    assert_eq!(decode_path_name(&encoded), input);
}

#[test]
fn test_both_spaces() {
    let input = " Both Spaces ";
    let encoded = encode_path_name(input);
    assert_eq!(encoded, "%SPACE%Both Spaces%SPACE%");
    assert_eq!(decode_path_name(&encoded), input);
}

#[test]
fn test_middle_spaces_unchanged() {
    let input = "Middle Spaces Here";
    let encoded = encode_path_name(input);
    assert_eq!(encoded, "Middle Spaces Here");
    assert_eq!(decode_path_name(&encoded), input);
}

#[test]
fn test_roundtrip_with_spaces() {
    let original = "  <Test>  ";
    let encoded = encode_path_name(original);
    let decoded = decode_path_name(&encoded);
    assert_eq!(decoded, original);
}

#[test]
fn test_encode_period() {
    let input = "My.Script";
    let expected = "My%DOT%Script";
    assert_eq!(encode_path_name(input), expected);
}

#[test]
fn test_decode_period() {
    let input = "My%DOT%Script";
    let expected = "My.Script";
    assert_eq!(decode_path_name(input), expected);
}

#[test]
fn test_roundtrip_with_period() {
    let original = "My.Module.Name";
    let encoded = encode_path_name(original);
    let decoded = decode_path_name(&encoded);
    assert_eq!(decoded, original);
}

#[test]
fn test_encode_percent() {
    let input = "My%Thing";
    let expected = "My%%Thing";
    assert_eq!(encode_path_name(input), expected);
}

#[test]
fn test_decode_percent() {
    let input = "My%%Thing";
    let expected = "My%Thing";
    assert_eq!(decode_path_name(input), expected);
}

#[test]
fn test_roundtrip_with_percent() {
    let original = "My%Thing";
    let encoded = encode_path_name(original);
    let decoded = decode_path_name(&encoded);
    assert_eq!(decoded, original);
}

#[test]
fn test_percent_encoding_pattern_roundtrip() {
    // This tests that a name containing what looks like an encoding pattern
    // round-trips correctly and doesn't get incorrectly decoded
    let original = "My%DOT%Thing";
    let encoded = encode_path_name(original);
    assert_eq!(encoded, "My%%DOT%%Thing");
    let decoded = decode_path_name(&encoded);
    assert_eq!(decoded, original);
}

#[test]
fn test_combined_period_and_percent() {
    let original = "My.%Thing.Other";
    let encoded = encode_path_name(original);
    let decoded = decode_path_name(&encoded);
    assert_eq!(decoded, original);
}

#[test]
fn encode_empty_name() {
    assert_eq!(encode_path_name(""), "");
    assert_eq!(decode_path_name(""), "");
}

#[test]
fn decode_unknown_pattern_kept() {
    assert_eq!(decode_path_name("a%FOO%b"), "a%FOO%b");
    assert_eq!(decode_path_name("a%dot%b"), "a%dot%b");
    assert_eq!(decode_path_name("%DOT"), "%DOT");
}

#[test]
fn roundtrip_law_on_concrete_names() {
    for name in ["a.b", " %SPACE% ", "x%%y", "\\|/", " .", "%", "SPACE%"] {
        assert_eq!(decode_path_name(&encode_path_name(name)), name);
    }
}

#[test]
fn name_of_only_spaces_encodes_each_space() {
    let encoded = encode_path_name("  ");
    assert_eq!(encoded, "%SPACE%%SPACE%");
    assert_eq!(decode_path_name(&encoded), "  ");
}
