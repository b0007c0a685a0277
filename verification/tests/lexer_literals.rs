use php_lexer::lexer::token::{NumericHint, PunctuationKind, TokenType};
use php_lexer::lexer::{Lexer, LexerError};

fn first(input: &str) -> Result<TokenType, LexerError> {
    Lexer::new(input).next_token()
}

fn numeric(raw: &str, hint: NumericHint) -> Result<TokenType, LexerError> {
    Ok(TokenType::Numeric { raw: raw.to_string(), hint })
}

fn invalid(symbol: &str, col: usize) -> Result<TokenType, LexerError> {
    Err(LexerError::NonNumericLiteralInvalidChar { symbol: symbol.to_string(), line: 1, col })
}

fn missing_number(col: usize) -> Result<TokenType, LexerError> {
    Err(LexerError::MissingExpectedSymbol {
        expected: "<number>".to_string(),
        found: TokenType::EOF,
        line: 1,
        col,
    })
}

#[test]
fn integer_at_the_end_of_the_input() {
    assert_eq!(first("7"), numeric("7", NumericHint::Integer));
    assert_eq!(first("2024"), numeric("2024", NumericHint::Integer));
}

#[test]
fn integer_stops_before_what_cannot_follow() {
    let mut lexer = Lexer::new("42;");
    assert_eq!(lexer.next_token(), numeric("42", NumericHint::Integer));
    assert_eq!(lexer.offset(), 2);
    assert_eq!(
        lexer.next_token(),
        Ok(TokenType::Punctuation { raw: ';', kind: PunctuationKind::Separator })
    );
}

#[test]
fn underscores_separate_digits() {
    assert_eq!(first("1_000"), numeric("1_000", NumericHint::Integer));
    assert_eq!(first("10__0_"), numeric("10__0_", NumericHint::Integer));
    assert_eq!(first("1.5_0"), numeric("1.5_0", NumericHint::Float));
}

#[test]
fn underscore_may_not_begin_a_run() {
    assert_eq!(first("1._5"), invalid("", 3));
    assert_eq!(first("1e_5"), invalid("", 3));
}

#[test]
fn fraction_makes_a_float() {
    assert_eq!(first("0.2"), numeric("0.2", NumericHint::Float));
    assert_eq!(first("3.14159 "), numeric("3.14159", NumericHint::Float));
}

#[test]
fn fraction_needs_digits_before_the_input_ends() {
    assert_eq!(first("1."), missing_number(3));
    assert_eq!(first("1.;"), numeric("1.", NumericHint::Float));
}

#[test]
fn exponent_extends_the_literal() {
    assert_eq!(first("1e5"), numeric("1e5", NumericHint::Integer));
    assert_eq!(first("1E5"), numeric("1E5", NumericHint::Integer));
    assert_eq!(first("1e+5"), numeric("1e+5", NumericHint::Integer));
    assert_eq!(first("2.5e-10;"), numeric("2.5e-10", NumericHint::Float));
    assert_eq!(first("1.e5"), numeric("1.e5", NumericHint::Float));
}

#[test]
fn exponent_needs_digits_before_the_input_ends() {
    assert_eq!(first("1e+"), missing_number(4));
    assert_eq!(first("1.5E"), missing_number(5));
    assert_eq!(first("1e;"), numeric("1e", NumericHint::Integer));
}

#[test]
fn letter_after_digits_is_invalid() {
    assert_eq!(first("1x"), invalid("", 2));
    assert_eq!(first("12x"), invalid("2", 3));
    assert_eq!(first("1.5x"), invalid("5", 4));
    assert_eq!(first("1e5e"), invalid("5", 4));
    assert_eq!(first("1e5E3"), invalid("5", 4));
    assert_eq!(first("1e5x"), invalid("5", 4));
}

#[test]
fn invalid_literal_leaves_the_cursor_at_the_letter() {
    let mut lexer = Lexer::new("12x");
    assert!(lexer.next_token().is_err());
    assert_eq!((lexer.line(), lexer.col(), lexer.offset()), (1, 3, 2));
    assert_eq!(lexer.next_token(), Ok(TokenType::Identifier("x".to_string())));
}

#[test]
fn string_literal_is_held_without_its_quotes() {
    let mut lexer = Lexer::new("\"abc\";");
    assert_eq!(lexer.next_token(), Ok(TokenType::LString("abc".to_string())));
    assert_eq!(lexer.offset(), 5);
    assert_eq!(first("\"\""), Ok(TokenType::LString(String::new())));
}

#[test]
fn backslash_escapes_one_character() {
    let mut lexer = Lexer::new("\"a\\\"b\" x");
    assert_eq!(lexer.next_token(), Ok(TokenType::LString("a\\\"b".to_string())));
    assert_eq!(lexer.offset(), 6);

    let mut lexer = Lexer::new("\"a\\\\\" x");
    assert_eq!(lexer.next_token(), Ok(TokenType::LString("a\\\\".to_string())));
    assert_eq!(lexer.offset(), 5);

    let mut lexer = Lexer::new("\"\\n\" x");
    assert_eq!(lexer.next_token(), Ok(TokenType::LString("\\n".to_string())));
    assert_eq!(lexer.offset(), 4);
}

#[test]
fn unterminated_string_literal_runs_to_the_end() {
    let mut lexer = Lexer::new("\"abc");
    assert_eq!(lexer.next_token(), Ok(TokenType::LString("abc".to_string())));
    assert_eq!(lexer.offset(), 4);
    assert_eq!(lexer.next_token(), Ok(TokenType::EOF));

    let mut lexer = Lexer::new("\"abc\\\"");
    assert_eq!(lexer.next_token(), Ok(TokenType::LString("abc\\\"".to_string())));
    assert_eq!(lexer.next_token(), Ok(TokenType::EOF));

    assert_eq!(first("\""), Ok(TokenType::LString(String::new())));
}

#[test]
fn string_literal_may_span_lines() {
    let mut lexer = Lexer::new("\"a\nb\" ");
    assert_eq!(lexer.next_token(), Ok(TokenType::LString("a\nb".to_string())));
    assert_eq!((lexer.line(), lexer.col(), lexer.offset()), (2, 3, 5));
}

#[test]
fn identifier_runs_over_letters_and_underscores() {
    assert_eq!(first("_a_B"), Ok(TokenType::Identifier("_a_B".to_string())));
    let mut lexer = Lexer::new("abc1");
    assert_eq!(lexer.next_token(), Ok(TokenType::Identifier("abc".to_string())));
    assert_eq!(lexer.next_token(), numeric("1", NumericHint::Integer));
    assert_eq!(first("é"), Err(LexerError::UnknownSymbol { symbol: "é".to_string(), line: 1, col: 1 }));
}

#[test]
fn variable_name_may_be_empty_before_other_text() {
    let mut lexer = Lexer::new("$1");
    assert_eq!(lexer.next_token(), Ok(TokenType::Variable(String::new())));
    assert_eq!(lexer.offset(), 1);
    assert_eq!(lexer.next_token(), numeric("1", NumericHint::Integer));

    let mut lexer = Lexer::new("$foo_bar = 1");
    assert_eq!(lexer.next_token(), Ok(TokenType::Variable("foo_bar".to_string())));
    assert_eq!(lexer.offset(), 8);
}
