use php_lexer::lexer::keywords::KeywordKind;
use php_lexer::lexer::token::{NumericHint, OperatorKind, PunctuationKind, TagKind, TokenType};
use php_lexer::lexer::{Lexer, LexerError};

fn scan_all(input: &str) -> Vec<Result<TokenType, LexerError>> {
    let mut lexer = Lexer::new(input);
    let mut out = Vec::new();
    loop {
        let res = lexer.next_token();
        let stop = matches!(res, Ok(TokenType::EOF) | Err(_));
        out.push(res);
        if stop {
            return out;
        }
    }
}

#[test]
fn it_works() {
    let mut lex: Lexer = Lexer::new("()");
    let res: Result<TokenType, LexerError> = lex.next_token();
    assert_eq!(res.is_ok(), true);
    assert!(matches!(
        res.unwrap(),
        TokenType::Punctuation { raw: '(', kind: PunctuationKind::Open(0) }
    ));
}

#[test]
fn parenthesised_float() {
    let tokens = scan_all("(0.2)");
    assert_eq!(
        tokens,
        vec![
            Ok(TokenType::Punctuation { raw: '(', kind: PunctuationKind::Open(0) }),
            Ok(TokenType::Numeric { raw: "0.2".to_string(), hint: NumericHint::Float }),
            Ok(TokenType::Punctuation { raw: ')', kind: PunctuationKind::Close(0) }),
            Ok(TokenType::EOF),
        ]
    );
}

#[test]
fn eof_is_idempotent() {
    let mut lexer = Lexer::new("");
    assert_eq!(lexer.next_token(), Ok(TokenType::EOF));
    assert_eq!(lexer.next_token(), Ok(TokenType::EOF));
    assert_eq!(lexer.offset(), 0);
}

#[test]
fn close_without_open_is_unbalanced() {
    let mut lexer = Lexer::new(")");
    assert_eq!(
        lexer.next_token(),
        Err(LexerError::TokenDepthUnbalanced { symbol: ')', line: 1, col: 1 })
    );
}

#[test]
fn variable_and_bare_sigil() {
    assert_eq!(
        scan_all("$foo"),
        vec![Ok(TokenType::Variable("foo".to_string())), Ok(TokenType::EOF)]
    );
    assert_eq!(
        scan_all("$"),
        vec![Err(LexerError::MissingExpectedSymbol {
            expected: "<variable name>".to_string(),
            found: TokenType::EOF,
            line: 1,
            col: 2,
        })]
    );
}

#[test]
fn keyword_is_matched_exactly() {
    assert_eq!(
        scan_all("class"),
        vec![Ok(TokenType::Keyword { kind: KeywordKind::Class }), Ok(TokenType::EOF)]
    );
    assert_eq!(
        scan_all("classy"),
        vec![Ok(TokenType::Identifier("classy".to_string())), Ok(TokenType::EOF)]
    );
    assert_eq!(
        scan_all("Class"),
        vec![Ok(TokenType::Identifier("Class".to_string())), Ok(TokenType::EOF)]
    );
}

#[test]
fn exponent_needs_digits() {
    assert_eq!(
        scan_all("1e"),
        vec![Err(LexerError::MissingExpectedSymbol {
            expected: "<number>".to_string(),
            found: TokenType::EOF,
            line: 1,
            col: 3,
        })]
    );
}

#[test]
fn newline_resets_the_column() {
    let mut lexer = Lexer::new("a\nb");
    assert_eq!(lexer.next_token(), Ok(TokenType::Identifier("a".to_string())));
    assert_eq!(lexer.next_token(), Ok(TokenType::Whitespace("\n".to_string())));
    assert_eq!((lexer.line(), lexer.col(), lexer.offset()), (2, 1, 2));
    assert_eq!(lexer.next_token(), Ok(TokenType::Identifier("b".to_string())));
    assert_eq!((lexer.line(), lexer.col(), lexer.offset()), (2, 2, 3));
}

#[test]
fn operators_take_the_longest_match() {
    assert_eq!(
        scan_all("= == === => - -> + . <"),
        vec![
            Ok(TokenType::Operator { raw: "=".to_string(), kind: OperatorKind::AssignmentOp }),
            Ok(TokenType::Whitespace(" ".to_string())),
            Ok(TokenType::Operator { raw: "==".to_string(), kind: OperatorKind::EqualityOp }),
            Ok(TokenType::Whitespace(" ".to_string())),
            Ok(TokenType::Operator { raw: "===".to_string(), kind: OperatorKind::StrictEqualityOp }),
            Ok(TokenType::Whitespace(" ".to_string())),
            Ok(TokenType::Operator { raw: "=>".to_string(), kind: OperatorKind::DoubleArrowOp }),
            Ok(TokenType::Whitespace(" ".to_string())),
            Ok(TokenType::Operator { raw: "-".to_string(), kind: OperatorKind::MinusOp }),
            Ok(TokenType::Whitespace(" ".to_string())),
            Ok(TokenType::Operator { raw: "->".to_string(), kind: OperatorKind::ObjectOp }),
            Ok(TokenType::Whitespace(" ".to_string())),
            Ok(TokenType::Operator { raw: "+".to_string(), kind: OperatorKind::PlusOp }),
            Ok(TokenType::Whitespace(" ".to_string())),
            Ok(TokenType::Operator { raw: ".".to_string(), kind: OperatorKind::ConcatOp }),
            Ok(TokenType::Whitespace(" ".to_string())),
            Ok(TokenType::Operator { raw: "<".to_string(), kind: OperatorKind::LessThanOp }),
            Ok(TokenType::EOF),
        ]
    );
}

#[test]
fn opening_tag_needs_whitespace_after_it() {
    assert_eq!(
        scan_all("<?php echo"),
        vec![
            Ok(TokenType::Tag { raw: "<?php".to_string(), kind: TagKind::PhpOpen }),
            Ok(TokenType::Whitespace(" ".to_string())),
            Ok(TokenType::Keyword { kind: KeywordKind::Echo }),
            Ok(TokenType::EOF),
        ]
    );
    assert_eq!(
        scan_all("<?php"),
        vec![Err(LexerError::UnknownSymbol { symbol: String::new(), line: 1, col: 6 })]
    );
    assert_eq!(
        scan_all("<?px"),
        vec![Err(LexerError::UnknownSymbol { symbol: String::new(), line: 1, col: 4 })]
    );
}
