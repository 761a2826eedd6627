use json_parser::tokenizer::{tokenize, Token};

#[test]
fn test_simple_json() {
    let json = r#"{"key": "value", "num": 123, "bool": true, "nullVal": null}"#;
    let tokens_result = tokenize(json);
    assert!(tokens_result.is_ok());
    let tokens = tokens_result.unwrap();
    assert_eq!(
        tokens,
        vec![
            Token::LeftBrace,
            Token::String("key".to_string()),
            Token::Colon,
            Token::String("value".to_string()),
            Token::Comma,
            Token::String("num".to_string()),
            Token::Colon,
            Token::Number("123".to_string()),
            Token::Comma,
            Token::String("bool".to_string()),
            Token::Colon,
            Token::True,
            Token::Comma,
            Token::String("nullVal".to_string()),
            Token::Colon,
            Token::Null,
            Token::RightBrace,
        ]
    );
}

#[test]
fn tokenizer_tests_test_simple_json() {
    let json = r#"{"key": "value", "num": 123, "bool": true, "nullVal": null}"#;
    let tokens = tokenize(json).unwrap();
    assert_eq!(
        tokens,
        vec![
            Token::LeftBrace,
            Token::String("key".to_string()),
            Token::Colon,
            Token::String("value".to_string()),
            Token::Comma,
            Token::String("num".to_string()),
            Token::Colon,
            Token::Number("123".to_string()),
            Token::Comma,
            Token::String("bool".to_string()),
            Token::Colon,
            Token::True,
            Token::Comma,
            Token::String("nullVal".to_string()),
            Token::Colon,
            Token::Null,
            Token::RightBrace,
        ]
    );
}

#[test]
fn test_empty_object_tokens() {
    assert_eq!(
        tokenize("{}").unwrap(),
        vec![Token::LeftBrace, Token::RightBrace]
    );
}

#[test]
fn test_empty_array_tokens() {
    assert_eq!(
        tokenize("[]").unwrap(),
        vec![Token::LeftBracket, Token::RightBracket]
    );
}

#[test]
fn test_escape_sequences() {
    let json = r#""a\"b\\c\nd\te\rf""#;
    let tokens = tokenize(json).unwrap();
    assert_eq!(
        tokens,
        vec![Token::String("a\"b\\c\nd\te\rf".to_string())]
    );
}

#[test]
fn test_invalid_escape_sequence() {
    let json = r#""ab\x""#;
    let err = tokenize(json).unwrap_err();
    assert_eq!(err.message, "Invalid escape sequence '\\x' at position 4");
    assert_eq!(err.position, 4);
}

#[test]
fn test_unfinished_escape_sequence() {
    let json = "\"ab\\";
    let err = tokenize(json).unwrap_err();
    assert_eq!(err.message, "Unfinished escape sequence at end of string");
    assert_eq!(err.position, 4);
}

#[test]
fn test_truncated_true_literal() {
    let err = tokenize("tru").unwrap_err();
    assert_eq!(err.message, "Invalid character sequence");
    assert_eq!(err.position, 0);
}

#[test]
fn test_truncated_null_literal() {
    let err = tokenize("[nul]").unwrap_err();
    assert_eq!(err.message, "Invalid character sequence");
    assert_eq!(err.position, 1);
}

#[test]
fn test_truncated_false_literal() {
    let err = tokenize("{\"a\": fals}").unwrap_err();
    assert_eq!(
        err.message,
        "Invalid character sequence starting with 'f' at position 6"
    );
    assert_eq!(err.position, 6);
}

#[test]
fn test_number_with_inner_minus() {
    let err = tokenize("[1-2]").unwrap_err();
    assert_eq!(err.message, "Invalid number format");
    assert_eq!(err.position, 1);
}

#[test]
fn test_negative_and_fractional_numbers() {
    let tokens = tokenize("[-12, 0.25, 7.]").unwrap();
    assert_eq!(
        tokens,
        vec![
            Token::LeftBracket,
            Token::Number("-12".to_string()),
            Token::Comma,
            Token::Number("0.25".to_string()),
            Token::Comma,
            Token::Number("7.".to_string()),
            Token::RightBracket,
        ]
    );
}

#[test]
fn test_lone_minus_is_rejected() {
    let err = tokenize("[-]").unwrap_err();
    assert_eq!(err.message, "Invalid number format");
    assert_eq!(err.position, 1);
}

#[test]
fn test_positions_count_characters_not_bytes() {
    // The accented character is one character, however many bytes it takes.
    let json = r#"{"é": @}"#;
    let err = tokenize(json).unwrap_err();
    assert_eq!(err.message, "Unexpected character");
    assert_eq!(err.position, 6);
}

#[test]
fn test_whitespace_is_skipped() {
    let tokens = tokenize(" \t\n{\n}\t ").unwrap();
    assert_eq!(tokens, vec![Token::LeftBrace, Token::RightBrace]);
}

#[test]
fn test_carriage_return_is_not_whitespace() {
    let err = tokenize("{\r}").unwrap_err();
    assert_eq!(err.message, "Unexpected character");
    assert_eq!(err.position, 1);
}
