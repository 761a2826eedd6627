use json_parser::parser::{parse, JsonValue, ParseError};
use json_parser::tokenizer::tokenize;

fn entry(key: &str, value: JsonValue) -> (String, JsonValue) {
    (key.to_string(), value)
}

#[test]
fn test_valid_simple_object() {
    let json = r#"{"key": "value"}"#;
    let tokens = tokenize(json).expect("Tokenization failed");
    let parsed_value = parse(&tokens).expect("Parsing failed");

    let expected_object = vec![entry("key", JsonValue::String("value".to_string()))];
    assert_eq!(parsed_value, JsonValue::Object(expected_object));
}

#[test]
fn test_valid_complex_object() {
    let json = r#"{"key1": "value1", "key2": 42, "key3": true, "key4": null, "key5": [1, "two", false]}"#;
    let tokens = tokenize(json).expect("Tokenization failed");
    let parsed_value = parse(&tokens).expect("Parsing failed");

    let expected_object = vec![
        entry("key1", JsonValue::String("value1".to_string())),
        entry("key2", JsonValue::Number("42".to_string())),
        entry("key3", JsonValue::Bool(true)),
        entry("key4", JsonValue::Null),
        entry(
            "key5",
            JsonValue::Array(vec![
                JsonValue::Number("1".to_string()),
                JsonValue::String("two".to_string()),
                JsonValue::Bool(false),
            ]),
        ),
    ];
    assert_eq!(parsed_value, JsonValue::Object(expected_object));
}

#[test]
fn test_valid_array() {
    let json = r#"["item1", 2, false, null, {"nested_key": "nested_value"}]"#;
    let tokens = tokenize(json).expect("Tokenization failed");
    let parsed_value = parse(&tokens).expect("Parsing failed");

    let expected_object = vec![entry(
        "nested_key",
        JsonValue::String("nested_value".to_string()),
    )];

    let expected_array = JsonValue::Array(vec![
        JsonValue::String("item1".to_string()),
        JsonValue::Number("2".to_string()),
        JsonValue::Bool(false),
        JsonValue::Null,
        JsonValue::Object(expected_object),
    ]);
    assert_eq!(parsed_value, expected_array);
}

#[test]
fn test_unterminated_string() {
    let json = r#"{"key": "unterminated}"#;
    let result = tokenize(json);
    let error_position = 22;
    assert!(result.is_err());
    if let Err(err) = result {
        assert_eq!(
            err.message,
            format!("Unterminated string starting at position {}", error_position)
        );
        assert_eq!(err.position, error_position);
    }
}

#[test]
fn test_missing_comma_in_object() {
    let json = r#"{"key1": "value1" "key2": "value2"}"#;
    let tokens = tokenize(json).expect("Tokenization failed");
    let result = parse(&tokens);
    assert!(result.is_err());
    if let Err(err) = result {
        assert_eq!(err.message, "Expected ',' or '}'");
        assert_eq!(err.position, 5); //5th token should've been ","
    }
}

#[test]
fn test_invalid_number_format() {
    let json = r#"{"key": 12.34.56}"#;
    let result = tokenize(json);
    assert!(result.is_err());
    if let Err(err) = result {
        assert_eq!(err.message, "Invalid number format");
        assert_eq!(err.position, 13);
    }
}

#[test]
fn test_unexpected_character() {
    let json = r#"{"key": @}"#;
    let result = tokenize(json);
    assert!(result.is_err());
    if let Err(err) = result {
        assert_eq!(err.message, "Unexpected character");
        assert_eq!(err.position, 8);
    }
}

#[test]
fn test_empty_object() {
    let json = r#"{}"#;
    let tokens = tokenize(json).expect("Tokenization failed");
    let parsed_value = parse(&tokens).expect("Parsing failed");
    assert_eq!(parsed_value, JsonValue::Object(Vec::new()));
}

#[test]
fn test_empty_array() {
    let json = r#"[]"#;
    let tokens = tokenize(json).expect("Tokenization failed");
    let parsed_value = parse(&tokens).expect("Parsing failed");
    assert_eq!(parsed_value, JsonValue::Array(Vec::new()));
}

#[test]
fn test_parse_object() {
    let json = r#"{"key": "value", "num": 123}"#;
    let tokens = tokenize(json).unwrap();
    let parsed = parse(&tokens).unwrap();

    let expected_object = vec![
        entry("key", JsonValue::String("value".to_string())),
        entry("num", JsonValue::Number("123".to_string())),
    ];

    assert_eq!(parsed, JsonValue::Object(expected_object));
}

#[test]
fn test_parse_array() {
    let json = r#"[1, 2, 3, null, true]"#;
    let tokens = tokenize(json).unwrap();
    let parsed = parse(&tokens).unwrap();

    assert_eq!(
        parsed,
        JsonValue::Array(vec![
            JsonValue::Number("1".to_string()),
            JsonValue::Number("2".to_string()),
            JsonValue::Number("3".to_string()),
            JsonValue::Null,
            JsonValue::Bool(true)
        ])
    );
}

#[test]
fn test_duplicate_key() {
    let json = r#"{"a": 1, "a": 2}"#;
    let tokens = tokenize(json).expect("Tokenization failed");
    let result = parse(&tokens);
    assert!(result.is_err());
    if let Err(err) = result {
        assert!(err.message.contains("'a'"));
        assert_eq!(err.message, "Duplicate key 'a' found in object at position 8");
        assert_eq!(err.position, 8);
    }
}

#[test]
fn test_missing_colon_in_object() {
    let json = r#"{"a" 1}"#;
    let tokens = tokenize(json).expect("Tokenization failed");
    let result = parse(&tokens);
    assert!(result.is_err());
    if let Err(err) = result {
        assert_eq!(err.message, "Unexpected token in object; expected key or '}'");
        assert_eq!(err.position, 2);
        assert_eq!(err.expected(), "a key or '}'");
    }
}

#[test]
fn test_array_cut_off_after_comma() {
    let json = r#"[1,"#;
    let tokens = tokenize(json).expect("Tokenization failed");
    let result = parse(&tokens);
    assert!(result.is_err());
    if let Err(err) = result {
        assert_eq!(err.message, "Unexpected end of input while parsing array");
        assert_eq!(err.position, 3);
    }
}

#[test]
fn test_array_cut_off_after_value() {
    let json = r#"[1, 2"#;
    let tokens = tokenize(json).expect("Tokenization failed");
    let result = parse(&tokens);
    assert!(result.is_err());
    if let Err(err) = result {
        assert_eq!(err.message, "Unexpected end of input while parsing array");
        assert_eq!(err.position, 4);
    }
}

#[test]
fn test_array_missing_comma() {
    let json = r#"[1 2]"#;
    let tokens = tokenize(json).expect("Tokenization failed");
    let result = parse(&tokens);
    assert!(result.is_err());
    if let Err(err) = result {
        assert_eq!(err.message, "Expected ',' or ']' after value in array");
        assert_eq!(err.position, 2);
    }
}

#[test]
fn test_object_cut_off_after_value() {
    let json = r#"{"a": 1"#;
    let tokens = tokenize(json).expect("Tokenization failed");
    let result = parse(&tokens);
    assert!(result.is_err());
    if let Err(err) = result {
        assert_eq!(err.message, "Expected ',' or '}'");
        assert_eq!(err.position, 4);
    }
}

#[test]
fn test_parse_error_accessors() {
    let plain = ParseError::new("something went wrong", 3);
    assert_eq!(plain.message, "something went wrong");
    assert_eq!(plain.position, 3);
    assert_eq!(plain.expected, None);
    assert_eq!(plain.expected(), "unknown");

    let informed = ParseError::with_expected("something went wrong", 9, "a value");
    assert_eq!(informed.message, "something went wrong");
    assert_eq!(informed.position, 9);
    assert_eq!(informed.expected, Some("a value".to_string()));
    assert_eq!(informed.expected(), "a value");
}

#[test]
fn test_unexpected_token_at_top_level() {
    let json = r#":"#;
    let tokens = tokenize(json).expect("Tokenization failed");
    let result = parse(&tokens);
    assert!(result.is_err());
    if let Err(err) = result {
        assert_eq!(err.message, "Unexpected token; expected a value");
        assert_eq!(err.position, 0);
        assert_eq!(err.expected(), "a value");
    }
}

#[test]
fn test_object_member_missing_value() {
    let json = r#"{"a": }"#;
    let tokens = tokenize(json).expect("Tokenization failed");
    let result = parse(&tokens);
    assert!(result.is_err());
    if let Err(err) = result {
        assert_eq!(err.message, "Unexpected token; expected a value");
        assert_eq!(err.position, 3);
        assert_eq!(err.expected(), "a value");
    }
}

#[test]
fn test_display_string_convention() {
    let err = tokenize(r#"{"key": @}"#).unwrap_err();
    assert_eq!(err.display_string(), "Error at position 8: Unexpected character");

    let made = ParseError::new("Invalid number format", 13);
    assert_eq!(made.display_string(), "Error at position 13: Invalid number format");
}

#[test]
fn test_expected_defaults_to_unknown() {
    let json = r#"[1, 2"#;
    let tokens = tokenize(json).expect("Tokenization failed");
    let err = parse(&tokens).unwrap_err();
    assert_eq!(err.expected(), "unknown");
}

#[test]
fn test_pretty_print_scalars() {
    assert_eq!(JsonValue::Null.pretty_print(0), "null");
    assert_eq!(JsonValue::Bool(true).pretty_print(0), "true");
    assert_eq!(JsonValue::Bool(false).pretty_print(0), "false");
    assert_eq!(JsonValue::Number("12.5".to_string()).pretty_print(0), "12.5");
    assert_eq!(
        JsonValue::String("hi".to_string()).pretty_print(0),
        "\"hi\""
    );
}

#[test]
fn test_pretty_print_empty_containers() {
    assert_eq!(JsonValue::Object(Vec::new()).pretty_print(0), "{}");
    assert_eq!(JsonValue::Array(Vec::new()).pretty_print(0), "[]");
}

#[test]
fn test_pretty_print_object() {
    let value = JsonValue::Object(vec![
        entry("a", JsonValue::Number("1".to_string())),
        entry("b", JsonValue::Array(vec![JsonValue::Bool(true), JsonValue::Null])),
    ]);
    let expected = "{\n  \"a\": 1,\n  \"b\": [\n    true,\n    null\n  ]\n}";
    assert_eq!(value.pretty_print(0), expected);
}

#[test]
fn test_round_trip_document() {
    let value = JsonValue::Object(vec![
        entry("name", JsonValue::String("widget".to_string())),
        entry("count", JsonValue::Number("3".to_string())),
        entry("price", JsonValue::Number("-12.75".to_string())),
        entry("ok", JsonValue::Bool(true)),
        entry("extra", JsonValue::Null),
        entry(
            "parts",
            JsonValue::Array(vec![
                JsonValue::String("bolt".to_string()),
                JsonValue::Object(vec![entry("id", JsonValue::Number("7".to_string()))]),
                JsonValue::Array(Vec::new()),
            ]),
        ),
    ]);
    let text = value.pretty_print(0);
    let tokens = tokenize(&text).expect("Tokenization failed");
    let reparsed = parse(&tokens).expect("Parsing failed");
    assert_eq!(reparsed, value);
}

#[test]
fn test_deeply_nested_document() {
    let mut text = String::new();
    for _ in 0..200 {
        text.push('[');
    }
    text.push_str("true");
    for _ in 0..200 {
        text.push(']');
    }
    let tokens = tokenize(&text).expect("Tokenization failed");
    let parsed = parse(&tokens).expect("Parsing failed");

    let mut expected = JsonValue::Bool(true);
    for _ in 0..200 {
        expected = JsonValue::Array(vec![expected]);
    }
    assert_eq!(parsed, expected);
}

#[test]
fn test_round_trip_keeps_indent_irrelevant() {
    let value = JsonValue::Array(vec![
        JsonValue::Number("0.5".to_string()),
        JsonValue::String("x y".to_string()),
    ]);
    let text = value.pretty_print(6);
    let tokens = tokenize(&text).expect("Tokenization failed");
    let reparsed = parse(&tokens).expect("Parsing failed");
    assert_eq!(reparsed, value);
}
