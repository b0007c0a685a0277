use php_lexer::lexer::keywords::{parse_keyword, KeywordKind};
use php_lexer::lexer::token::{PunctuationKind, TokenType};
use php_lexer::lexer::{Lexer, LexerError};

fn scan(input: &str) -> (Vec<TokenType>, Option<LexerError>) {
    let mut lexer = Lexer::new(input);
    let mut tokens = Vec::new();
    loop {
        match lexer.next_token() {
            Ok(TokenType::EOF) => return (tokens, None),
            Ok(token) => tokens.push(token),
            Err(error) => return (tokens, Some(error)),
        }
    }
}

fn keyword_text(kind: KeywordKind) -> &'static str {
    match kind {
        KeywordKind::Public => "public",
        KeywordKind::Private => "private",
        KeywordKind::Protected => "protected",
        KeywordKind::Class => "class",
        KeywordKind::Function => "function",
        KeywordKind::Static => "static",
        KeywordKind::Namespace => "namespace",
        KeywordKind::Echo => "echo",
    }
}

fn raw_text(token: &TokenType) -> String {
    match token {
        TokenType::EOF => String::new(),
        TokenType::Whitespace(text) => text.clone(),
        TokenType::Punctuation { raw, .. } => raw.to_string(),
        TokenType::Operator { raw, .. } => raw.clone(),
        TokenType::Tag { raw, .. } => raw.clone(),
        TokenType::Variable(name) => format!("${}", name),
        TokenType::Identifier(name) => name.clone(),
        TokenType::Keyword { kind } => keyword_text(*kind).to_string(),
        TokenType::Numeric { raw, .. } => raw.clone(),
        TokenType::LString(text) => format!("\"{}\"", text),
    }
}

fn open(raw: char, depth: usize) -> TokenType {
    TokenType::Punctuation { raw, kind: PunctuationKind::Open(depth) }
}

fn close(raw: char, depth: usize) -> TokenType {
    TokenType::Punctuation { raw, kind: PunctuationKind::Close(depth) }
}

#[test]
fn token_texts_spell_the_input() {
    let inputs = [
        "",
        "<?php echo \"hi\"; ",
        "class Foo { public static function bar($x) { $y = $x->z . \"a\\\"b\"; } }",
        "namespace a;\n\tprivate $v = 1_000.5e-3 + 2 - 3;\r\n[1, 2] => === == = < ",
        "protected\u{a0}function\u{2003}f()\n{\n}\n",
        "$",
        "$ $a",
    ];
    for input in inputs {
        let (tokens, error) = scan(input);
        let text: String = tokens.iter().map(raw_text).collect();
        if error.is_none() {
            assert_eq!(text, input);
        } else {
            assert!(input.starts_with(&text));
        }
    }
}

#[test]
fn unclosed_literal_lacks_only_its_quote() {
    let (tokens, error) = scan("echo \"abc");
    assert!(error.is_none());
    let text: String = tokens.iter().map(raw_text).collect();
    assert_eq!(text, "echo \"abc\"");
}

#[test]
fn depths_follow_the_brackets() {
    let (tokens, error) = scan("([{}])(){[]}");
    assert!(error.is_none());
    assert_eq!(
        tokens,
        vec![
            open('(', 0),
            open('[', 0),
            open('{', 0),
            close('}', 0),
            close(']', 0),
            close(')', 0),
            open('(', 0),
            close(')', 0),
            open('{', 0),
            open('[', 0),
            close(']', 0),
            close('}', 0),
        ]
    );
}

#[test]
fn depth_is_counted_for_each_kind() {
    let (tokens, error) = scan("(([(]))[)]");
    assert!(error.is_none());
    assert_eq!(
        tokens,
        vec![
            open('(', 0),
            open('(', 1),
            open('[', 0),
            open('(', 2),
            close(']', 0),
            close(')', 2),
            close(')', 1),
            open('[', 0),
            close(')', 0),
            close(']', 0),
        ]
    );
}

#[test]
fn well_formed_brackets_return_to_depth_zero() {
    let mut lexer = Lexer::new("{([])}{");
    for _ in 0..6 {
        assert!(lexer.next_token().is_ok());
    }
    assert_eq!(lexer.next_token(), Ok(open('{', 0)));
}

#[test]
fn closing_what_is_not_open_fails_and_changes_no_depth() {
    let mut lexer = Lexer::new("(]\n}))");
    assert_eq!(lexer.next_token(), Ok(open('(', 0)));
    assert_eq!(
        lexer.next_token(),
        Err(LexerError::TokenDepthUnbalanced { symbol: ']', line: 1, col: 2 })
    );
    assert_eq!(lexer.next_token(), Ok(TokenType::Whitespace("\n".to_string())));
    assert_eq!(
        lexer.next_token(),
        Err(LexerError::TokenDepthUnbalanced { symbol: '}', line: 2, col: 1 })
    );
    assert_eq!(lexer.next_token(), Ok(close(')', 0)));
    assert_eq!(
        lexer.next_token(),
        Err(LexerError::TokenDepthUnbalanced { symbol: ')', line: 2, col: 3 })
    );
    assert_eq!(lexer.next_token(), Ok(TokenType::EOF));
}

#[test]
fn brackets_in_a_string_literal_are_not_counted() {
    let (tokens, error) = scan("(\")\")");
    assert!(error.is_none());
    assert_eq!(tokens, vec![open('(', 0), TokenType::LString(")".to_string()), close(')', 0)]);
}

#[test]
fn unknown_symbol_is_reported_where_it_stands() {
    let mut lexer = Lexer::new("a #");
    assert!(lexer.next_token().is_ok());
    assert!(lexer.next_token().is_ok());
    assert_eq!(
        lexer.next_token(),
        Err(LexerError::UnknownSymbol { symbol: "#".to_string(), line: 1, col: 3 })
    );
    assert_eq!((lexer.line(), lexer.col(), lexer.offset()), (1, 4, 3));
    assert_eq!(lexer.next_token(), Ok(TokenType::EOF));
    assert_eq!(
        Lexer::new(">").next_token(),
        Err(LexerError::UnknownSymbol { symbol: ">".to_string(), line: 1, col: 1 })
    );
}

#[test]
fn position_counts_lines_and_columns_from_one() {
    let mut lexer = Lexer::new("ab\n\ncd \n e");
    assert_eq!((lexer.line(), lexer.col(), lexer.offset()), (1, 1, 0));
    lexer.next_token().unwrap();
    assert_eq!((lexer.line(), lexer.col(), lexer.offset()), (1, 3, 2));
    lexer.next_token().unwrap();
    assert_eq!((lexer.line(), lexer.col(), lexer.offset()), (3, 1, 4));
    lexer.next_token().unwrap();
    assert_eq!((lexer.line(), lexer.col(), lexer.offset()), (3, 3, 6));
    lexer.next_token().unwrap();
    assert_eq!((lexer.line(), lexer.col(), lexer.offset()), (4, 2, 9));
    lexer.next_token().unwrap();
    assert_eq!((lexer.line(), lexer.col(), lexer.offset()), (4, 3, 10));
    assert_eq!(lexer.next_token(), Ok(TokenType::EOF));
    assert_eq!((lexer.line(), lexer.col(), lexer.offset()), (4, 3, 10));
}

#[test]
fn offset_counts_characters_not_bytes() {
    let mut lexer = Lexer::new("\"é\";");
    assert_eq!(lexer.next_token(), Ok(TokenType::LString("é".to_string())));
    assert_eq!((lexer.line(), lexer.col(), lexer.offset()), (1, 4, 3));
}

#[test]
fn whitespace_run_is_one_token() {
    let mut lexer = Lexer::new(" \t\r\n\u{a0}\u{3000}x");
    assert_eq!(
        lexer.next_token(),
        Ok(TokenType::Whitespace(" \t\r\n\u{a0}\u{3000}".to_string()))
    );
    assert_eq!(lexer.next_token(), Ok(TokenType::Identifier("x".to_string())));
}

#[test]
fn consume_whitespace_continues_the_given_start() {
    let mut lexer = Lexer::new("  x");
    assert_eq!(lexer.consume_whitespace('\t'), TokenType::Whitespace("\t  ".to_string()));
    assert_eq!(lexer.offset(), 2);
    assert_eq!(lexer.consume_whitespace('\n'), TokenType::Whitespace("\n".to_string()));
    assert_eq!(lexer.offset(), 2);
}

#[test]
fn whitespace_is_what_the_standard_library_calls_whitespace() {
    for code in 0..=0x10FFFFu32 {
        let c = match char::from_u32(code) {
            Some(c) => c,
            None => continue,
        };
        if code >= 0x4000 && !c.is_whitespace() {
            continue;
        }
        let token = Lexer::new(&c.to_string()).next_token();
        assert_eq!(matches!(token, Ok(TokenType::Whitespace(_))), c.is_whitespace(), "{:?}", c);
    }
}

#[test]
fn every_keyword_is_recognised() {
    let words = [
        ("public", KeywordKind::Public),
        ("private", KeywordKind::Private),
        ("protected", KeywordKind::Protected),
        ("class", KeywordKind::Class),
        ("function", KeywordKind::Function),
        ("static", KeywordKind::Static),
        ("namespace", KeywordKind::Namespace),
        ("echo", KeywordKind::Echo),
    ];
    for (word, kind) in words {
        assert_eq!(parse_keyword(word.to_string()), TokenType::Keyword { kind });
        assert_eq!(Lexer::new(word).next_token(), Ok(TokenType::Keyword { kind }));
    }
    assert_eq!(parse_keyword("publi".to_string()), TokenType::Identifier("publi".to_string()));
    assert_eq!(parse_keyword("ECHO".to_string()), TokenType::Identifier("ECHO".to_string()));
    assert_eq!(parse_keyword(String::new()), TokenType::Identifier(String::new()));
}

#[test]
fn try_new_makes_the_scanner_that_new_makes() {
    let mut made = Lexer::try_new("(a)").expect("a short text");
    let mut plain = Lexer::new("(a)");
    for _ in 0..4 {
        assert_eq!(made.next_token(), plain.next_token());
        assert_eq!((made.line(), made.col(), made.offset()), (plain.line(), plain.col(), plain.offset()));
    }
    assert_eq!(made.next_token(), Ok(TokenType::EOF));
}
