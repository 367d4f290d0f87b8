use rpi::json::Json;
use rpi::json_stream::{
    closing_candidates, escape_control_character, inferred_closing_suffix, is_control_character,
    is_valid_json_escape, parse_json_with_repair, parse_partial_object, parse_streaming_json,
    repair_json, text_to_retry, top_level_commas,
};

fn json(text: &str) -> Json {
    parse_json_with_repair(text).unwrap()
}


#[test]
fn valid_json_passes_through_unchanged() {
    let input = r#"{"name":"test","age":30}"#;
    assert_eq!(repair_json(input), input);
}

#[test]
fn repair_escapes_raw_newline_in_string() {
    let input = "{\"msg\":\"hello\nworld\"}";
    let repaired = repair_json(input);
    let parsed: serde_json::Value = serde_json::from_str(&repaired).unwrap();
    assert_eq!(parsed["msg"], "hello\nworld");
}

#[test]
fn repair_escapes_tab_in_string() {
    let input = "{\"msg\":\"hello\tworld\"}";
    let repaired = repair_json(input);
    let parsed: serde_json::Value = serde_json::from_str(&repaired).unwrap();
    assert_eq!(parsed["msg"], "hello\tworld");
}

#[test]
fn repair_doubles_bare_backslash_before_invalid_escape_char() {
    let input = "{\"path\":\"C:\\temp\\q\"}";
    let repaired = repair_json(input);
    assert!(serde_json::from_str::<serde_json::Value>(&repaired).is_ok());
}

#[test]
fn repair_preserves_valid_unicode_escape() {
    let input = r#"{"emoji":"\u2764"}"#;
    assert_eq!(repair_json(input), input);
}

#[test]
fn repair_escapes_control_character_u0001() {
    let mut input = String::from("{\"msg\":\"");
    input.push('\u{0001}');
    input.push_str("\"}");
    let repaired = repair_json(&input);
    assert!(repaired.contains("\\u0001"));
}

#[test]
fn repair_doubles_trailing_backslash_at_end_of_input() {
    let input = "{\"msg\":\"hello\\";
    let repaired = repair_json(input);
    assert!(repaired.ends_with("hello\\\\"));
}

#[test]
fn parse_json_with_repair_succeeds_on_valid_json() {
    let input = r#"{"key":"value"}"#;
    let result = parse_json_with_repair(input).unwrap();
    assert_eq!(result, json(r#"{"key": "value"}"#));
}

#[test]
fn parse_json_with_repair_repairs_and_parses() {
    let input = "{\"msg\":\"hello\nworld\"}";
    let result = parse_json_with_repair(input).unwrap();
    assert_eq!(result.get("msg").unwrap().as_str(), Some("hello\nworld"));
}

#[test]
fn parse_json_with_repair_fails_on_unrecoverable() {
    let result = parse_json_with_repair("not json at all");
    assert!(result.is_err());
}

#[test]
fn parse_json_with_repair_returns_original_error_if_repair_unchanged() {
    let input = "{\"a\":1,,}";
    let err = parse_json_with_repair(input).unwrap_err();
    assert!(!err.is_empty());
}

#[test]
fn streaming_none_returns_empty_object() {
    assert_eq!(parse_streaming_json(None), json(r#"{}"#));
}

#[test]
fn streaming_empty_string_returns_empty_object() {
    assert_eq!(parse_streaming_json(Some("")), json(r#"{}"#));
}

#[test]
fn streaming_whitespace_only_returns_empty_object() {
    assert_eq!(parse_streaming_json(Some("   \n  ")), json(r#"{}"#));
}

#[test]
fn streaming_valid_json_passthrough() {
    let input = r#"{"name":"test","count":42}"#;
    let result = parse_streaming_json(Some(input));
    assert_eq!(result, json(r#"{"name": "test", "count": 42}"#));
}

#[test]
fn streaming_partial_object_recovers_complete_fields() {
    let input = "{\"name\":\"test\",\"age\":30";
    let result = parse_streaming_json(Some(input));
    assert_eq!(result.get("name").unwrap().as_str(), Some("test"));
}

#[test]
fn streaming_partial_nested_object() {
    let input = "{\"a\":{\"b\":1,\"c\":2}";
    let result = parse_streaming_json(Some(input));
    assert!(result.as_object().is_some());
}

#[test]
fn streaming_unrecoverable_returns_empty() {
    let input = "{\"path\":\"REA}";
    let result = parse_streaming_json(Some(input));
    assert_eq!(result, json(r#"{}"#));
}

#[test]
fn inferred_closing_handles_nested_brackets() {
    let prefix = "{\"a\":{\"b\":{\"c\":1}";
    let suffix = inferred_closing_suffix(prefix).unwrap();
    assert_eq!(suffix, "}}");
}

#[test]
fn inferred_closing_handles_arrays_inside_objects() {
    let prefix = "{\"items\":[1,2,";
    let suffix = inferred_closing_suffix(prefix).unwrap();
    assert_eq!(suffix, "]}");
}

#[test]
fn inferred_closing_returns_none_for_mismatched_brackets() {
    let prefix = "{\"a\":1}}";
    assert!(inferred_closing_suffix(prefix).is_none());
}

#[test]
fn inferred_closing_returns_none_when_in_open_string() {
    let prefix = "{\"msg\":\"hello";
    assert!(inferred_closing_suffix(prefix).is_none());
}

#[test]
fn inferred_closing_returns_empty_when_already_balanced() {
    let prefix = "{\"a\":1}";
    let suffix = inferred_closing_suffix(prefix).unwrap();
    assert!(suffix.is_empty());
}

#[test]
fn top_level_commas_finds_commas_at_depth_one() {
    let json_str = "{\"a\":1,\"b\":2,\"c\":3}";
    let commas = top_level_commas(json_str);
    assert_eq!(commas.len(), 2);
    assert_eq!(json_str.as_bytes()[commas[0]], b',');
    assert_eq!(json_str.as_bytes()[commas[1]], b',');
}

#[test]
fn top_level_commas_ignores_commas_in_nested_objects() {
    let json_str = "{\"a\":{\"x\":1,\"y\":2},\"b\":3}";
    let commas = top_level_commas(json_str);
    assert_eq!(commas.len(), 1);
}

#[test]
fn top_level_commas_ignores_commas_in_strings() {
    let json_str = "{\"a\":\"hello,world\",\"b\":1}";
    let commas = top_level_commas(json_str);
    assert_eq!(commas.len(), 1);
}

#[test]
fn top_level_commas_ignores_commas_in_arrays() {
    let json_str = "{\"a\":[1,2,3],\"b\":1}";
    let commas = top_level_commas(json_str);
    assert_eq!(commas.len(), 1);
}

#[test]
fn unicode_escape_preserved_through_repair() {
    let input = r#"{"emoji":"\u2764","text":"cafe\u00e9"}"#;
    let repaired = repair_json(input);
    assert_eq!(repaired, input);
    let parsed: serde_json::Value = serde_json::from_str(&repaired).unwrap();
    assert_eq!(parsed["emoji"], "\u{2764}");
}

#[test]
fn multibyte_utf8_preserved_in_repair() {
    let mut input = String::from("{\"msg\":\"");
    input.push('\u{1f600}');
    input.push_str(" hello ");
    input.push('\u{00e9}');
    input.push_str("\"}");
    let repaired = repair_json(&input);
    let parsed: serde_json::Value = serde_json::from_str(&repaired).unwrap();
    let msg = parsed["msg"].as_str().unwrap();
    assert!(msg.contains('\u{1f600}'));
    assert!(msg.contains('\u{00e9}'));
}

#[test]
fn invalid_unicode_escape_passes_through() {
    let mut input = String::from("{\"msg\":\"");
    input.push('\\');
    input.push_str("uzzzz\"}");
    let repaired = repair_json(&input);
    assert_eq!(repaired, input);
    assert!(serde_json::from_str::<serde_json::Value>(&repaired).is_err());
}

#[test]
fn partial_object_returns_none_for_non_object_input() {
    assert!(parse_partial_object("[1,2,3]").is_none());
    assert!(parse_partial_object("\"hello\"").is_none());
    assert!(parse_partial_object("123").is_none());
}

#[test]
fn partial_object_returns_none_for_empty() {
    assert!(parse_partial_object("").is_none());
}

#[test]
fn partial_object_recovers_single_complete_field() {
    let input = "{\"name\":\"test\",";
    let result = parse_partial_object(input).unwrap();
    assert_eq!(result.get("name").unwrap().as_str(), Some("test"));
}

#[test]
fn partial_object_recovers_multiple_complete_fields() {
    let input = "{\"a\":1,\"b\":2,\"c\":3,";
    let result = parse_partial_object(input).unwrap();
    assert_eq!(result.get("a").unwrap().as_u64(), Some(1));
    assert_eq!(result.get("b").unwrap().as_u64(), Some(2));
    assert_eq!(result.get("c").unwrap().as_u64(), Some(3));
}

#[test]
fn escape_known_control_chars() {
    assert_eq!(escape_control_character('\u{08}'), "\\b");
    assert_eq!(escape_control_character('\u{0c}'), "\\f");
    assert_eq!(escape_control_character('\n'), "\\n");
    assert_eq!(escape_control_character('\r'), "\\r");
    assert_eq!(escape_control_character('\t'), "\\t");
}

#[test]
fn escape_unknown_control_char_uses_unicode_format() {
    assert_eq!(escape_control_character('\u{01}'), "\\u0001");
    assert_eq!(escape_control_character('\u{1f}'), "\\u001f");
}

#[test]
fn valid_json_escape_chars() {
    for c in ['"', '\\', '/', 'b', 'f', 'n', 'r', 't', 'u'] {
        assert!(is_valid_json_escape(c), "expected '{c}' to be valid");
    }
}

#[test]
fn invalid_json_escape_chars() {
    for c in ['a', 'x', '0', ' ', 'Z'] {
        assert!(!is_valid_json_escape(c), "expected '{c}' to be invalid");
    }
}

#[test]
fn control_character_boundary() {
    assert!(is_control_character('\u{00}'));
    assert!(is_control_character('\u{1f}'));
    assert!(!is_control_character('\u{20}'));
    assert!(!is_control_character('a'));
}

#[test]
fn repairing_twice_changes_nothing() {
    for input in [
        "{\"a\":\"b\\q\u{1}\\u12G4\\u00e9\nx\\\"}",
        "\"\\",
        "\"\\u12\n34",
        "plain",
    ] {
        let once = repair_json(input);
        assert_eq!(repair_json(&once), once);
    }
    assert_eq!(repair_json("\"\\u12\n34"), "\"\\u12\\n34");
    assert_eq!(repair_json("\"\u{1b}\""), "\"\\u001b\"");
    assert_eq!(repair_json("\n\"\n\"\n"), "\n\"\\n\"\n");
}

#[test]
fn wide_characters_have_more_digits() {
    assert_eq!(escape_control_character('a'), "\\u0061");
    assert_eq!(escape_control_character('\u{1f600}'), "\\u1f600");
}

#[test]
fn only_changed_texts_are_retried() {
    assert_eq!(text_to_retry("{\"a\":1,,}"), None);
    assert_eq!(text_to_retry("\"\t\""), Some("\"\\t\"".to_string()));
}

#[test]
fn candidates_are_the_whole_and_then_each_prefix() {
    assert_eq!(
        closing_candidates(" {\"a\":1,\"b\":[2,\"é,\",3"),
        vec!["{\"a\":1,\"b\":[2,\"é,\",3]}", "{\"a\":1}"]
    );
    assert_eq!(closing_candidates("{\"a\":1,\"b"), vec!["{\"a\":1}"]);
    assert!(closing_candidates("[1").is_empty());
    for text in closing_candidates("{\"a\":{\"b\":1},\"c\":[") {
        assert_eq!(inferred_closing_suffix(&text), Some(String::new()));
    }
}

#[test]
fn commas_are_given_by_their_byte_offsets() {
    assert_eq!(top_level_commas("{\"é\":1,\"b\":2}"), vec![7]);
    assert_eq!(top_level_commas("{\"é\":[1,2],\"b\":\"x,y\"}"), vec![11]);
    assert_eq!(
        closing_candidates("{\"é\":1,\"b"),
        vec!["{\"é\":1}".to_string()]
    );
}

#[test]
fn streamed_text_that_is_complete_is_read_as_it_is() {
    assert_eq!(parse_streaming_json(Some(" [1, 2]")), json("[1,2]"));
    assert_eq!(
        parse_streaming_json(Some("{\"a\":\"x\",\"b\":\"y")),
        json(r#"{"a":"x"}"#)
    );
    assert_eq!(
        parse_json_with_repair("nope").unwrap_err(),
        "expected ident at line 1 column 2"
    );
}
