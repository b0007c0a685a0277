use php_lexer::tokenizer::token::Token;
use php_lexer::tokenizer::{Tokenizer, TokenizerError};

fn fields(token: &Token) -> (String, String, usize, usize) {
    (
        token.get_token_type().to_string(),
        token.get_value().to_string(),
        token.get_line(),
        token.get_col(),
    )
}

fn owned(token_type: &str, value: &str, line: usize, col: usize) -> (String, String, usize, usize) {
    (token_type.to_string(), value.to_string(), line, col)
}

#[test]
fn token_keeps_what_it_is_given() {
    let token = Token::new("T_CLASS", "class", 3, 7);
    assert_eq!(token.get_token_type(), "T_CLASS");
    assert_eq!(token.get_value(), "class");
    assert_eq!(token.get_line(), 3);
    assert_eq!(token.get_col(), 7);
}

#[test]
fn rules_are_tried_in_order() {
    let mut tokenizer = Tokenizer::new("<?php class Foo { public $bar = \"a\"; }");
    let mut seen = Vec::new();
    while tokenizer.has_more_tokens() {
        seen.push(fields(&tokenizer.get_next_token()));
    }
    assert_eq!(
        seen,
        vec![
            owned("T_PHP_OPEN_TAG", "<?php ", 1, 1),
            owned("T_CLASS", "class", 1, 7),
            owned("T_WHITESPACE", " ", 1, 12),
            owned("T_STRING", "Foo", 1, 13),
            owned("T_WHITESPACE", " ", 1, 16),
            owned("T_OPEN_CURLY", "{", 1, 17),
            owned("T_WHITESPACE", " ", 1, 18),
            owned("T_PUBLIC", "public", 1, 19),
            owned("T_WHITESPACE", " ", 1, 25),
            owned("T_VARIABLE", "$bar", 1, 26),
            owned("T_WHITESPACE", " ", 1, 30),
            owned("T_EQUALS", "=", 1, 31),
            owned("T_WHITESPACE", " ", 1, 32),
            owned("T_LSTRING", "\"a\"", 1, 33),
            owned("T_SEMICOLON", ";", 1, 36),
            owned("T_WHITESPACE", " ", 1, 37),
            owned("T_CLOSE_CURLY", "}", 1, 38),
        ]
    );
}

#[test]
fn newlines_move_the_line_and_reset_the_column() {
    let mut tokenizer = Tokenizer::new("if\n\n  echo");
    assert_eq!(fields(&tokenizer.get_next_token()), owned("T_IF", "if", 1, 1));
    assert_eq!(fields(&tokenizer.get_next_token()), owned("T_WHITESPACE", "\n\n  ", 1, 3));
    assert_eq!(fields(&tokenizer.get_next_token()), owned("T_ECHO", "echo", 3, 3));
    assert!(!tokenizer.has_more_tokens());
}

#[test]
fn columns_count_bytes() {
    let mut tokenizer = Tokenizer::new("\"é\";");
    assert_eq!(fields(&tokenizer.get_next_token()), owned("T_LSTRING", "\"é\"", 1, 1));
    assert_eq!(fields(&tokenizer.get_next_token()), owned("T_SEMICOLON", ";", 1, 5));
}

#[test]
fn text_that_no_rule_matches_is_reported() {
    let mut tokenizer = Tokenizer::new("class #");
    assert!(tokenizer.try_next_token().is_ok());
    assert!(tokenizer.try_next_token().is_ok());
    assert_eq!(tokenizer.try_next_token().err(), Some(TokenizerError::UnrecognisedToken));
    assert!(tokenizer.has_more_tokens());
    assert_eq!(tokenizer.try_next_token().err(), Some(TokenizerError::UnrecognisedToken));
}

#[test]
fn empty_text_has_no_tokens() {
    let mut tokenizer = Tokenizer::new("");
    assert!(!tokenizer.has_more_tokens());
    assert_eq!(tokenizer.try_next_token().err(), Some(TokenizerError::UnrecognisedToken));
}

#[test]
fn try_new_makes_the_tokenizer_that_new_makes() {
    let mut made = Tokenizer::try_new("if echo").expect("a short text");
    let mut plain = Tokenizer::new("if echo");
    while plain.has_more_tokens() {
        assert!(made.has_more_tokens());
        assert_eq!(fields(&made.get_next_token()), fields(&plain.get_next_token()));
    }
    assert!(!made.has_more_tokens());
}
