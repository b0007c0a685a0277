//! The reserved words.
use super::token::{TokenType, TokenView};
use crate::text::str_eq;
use vstd::prelude::*;

verus! {

/// The reserved words of the language.
#[derive(Debug, Clone, Copy, PartialEq, Eq)]
pub enum KeywordKind {
    Public,
    Private,
    Protected,
    Class,
    Function,
    Static,
    Namespace,
    Echo,
}

impl KeywordKind {
    /// The spelling of a reserved word.
    pub open spec fn text(self) -> Seq<char> {
        match self {
            KeywordKind::Public => "public"@,
            KeywordKind::Private => "private"@,
            KeywordKind::Protected => "protected"@,
            KeywordKind::Class => "class"@,
            KeywordKind::Function => "function"@,
            KeywordKind::Static => "static"@,
            KeywordKind::Namespace => "namespace"@,
            KeywordKind::Echo => "echo"@,
        }
    }
}

/// The reserved word that `text` spells, if it spells one: the match is exact
/// and case-sensitive.
pub open spec fn keyword_of(text: Seq<char>) -> Option<KeywordKind> {
    if text == KeywordKind::Public.text() {
        Some(KeywordKind::Public)
    } else if text == KeywordKind::Private.text() {
        Some(KeywordKind::Private)
    } else if text == KeywordKind::Protected.text() {
        Some(KeywordKind::Protected)
    } else if text == KeywordKind::Class.text() {
        Some(KeywordKind::Class)
    } else if text == KeywordKind::Function.text() {
        Some(KeywordKind::Function)
    } else if text == KeywordKind::Static.text() {
        Some(KeywordKind::Static)
    } else if text == KeywordKind::Namespace.text() {
        Some(KeywordKind::Namespace)
    } else if text == KeywordKind::Echo.text() {
        Some(KeywordKind::Echo)
    } else {
        None
    }
}

/// The token that a complete identifier run stands for.
pub open spec fn classify_identifier(text: Seq<char>) -> TokenView {
    match keyword_of(text) {
        Some(kind) => TokenView::Keyword { kind },
        None => TokenView::Identifier(text),
    }
}

/// Turns an identifier into the keyword it spells, or leaves it an identifier.
pub fn parse_keyword(identifier: String) -> (token: TokenType)
    ensures
        token@ == classify_identifier(identifier@),
{
    let word = identifier.as_str();
    if str_eq(word, "public") {
        TokenType::Keyword { kind: KeywordKind::Public }
    } else if str_eq(word, "private") {
        TokenType::Keyword { kind: KeywordKind::Private }
    } else if str_eq(word, "protected") {
        TokenType::Keyword { kind: KeywordKind::Protected }
    } else if str_eq(word, "class") {
        TokenType::Keyword { kind: KeywordKind::Class }
    } else if str_eq(word, "function") {
        TokenType::Keyword { kind: KeywordKind::Function }
    } else if str_eq(word, "static") {
        TokenType::Keyword { kind: KeywordKind::Static }
    } else if str_eq(word, "namespace") {
        TokenType::Keyword { kind: KeywordKind::Namespace }
    } else if str_eq(word, "echo") {
        TokenType::Keyword { kind: KeywordKind::Echo }
    } else {
        TokenType::Identifier(identifier)
    }
}

} // verus!
