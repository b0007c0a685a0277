//! The tokens that the scanner produces, and their mathematical views.
use super::keywords::KeywordKind;
use vstd::prelude::*;

verus! {

/// The nesting count of one kind of bracket.
pub type DepthStateType = usize;

/// What a punctuation character does to the nesting depth.
#[derive(Debug, Clone, Copy, PartialEq, Eq)]
pub enum PunctuationKind {
    /// An opening bracket, with the depth of its kind before it was opened.
    Open(DepthStateType),
    /// A closing bracket, with the depth of its kind once it is closed.
    Close(DepthStateType),
    /// A statement separator.
    Separator,
}

/// The two template-boundary tags.
#[derive(Debug, Clone, Copy, PartialEq, Eq)]
pub enum TagKind {
    PhpOpen,
    PhpClose,
}

/// The operators of the language.
#[derive(Debug, Clone, Copy, PartialEq, Eq)]
pub enum OperatorKind {
    /// `=`
    AssignmentOp,
    /// `==`
    EqualityOp,
    /// `===`
    StrictEqualityOp,
    /// `.`
    ConcatOp,
    /// `+`
    PlusOp,
    /// `-`
    MinusOp,
    /// `->`
    ObjectOp,
    /// `=>`
    DoubleArrowOp,
    /// `<`
    LessThanOp,
    /// `<=`
    LessThanEqualOp,
    /// `>`
    GreaterThanOp,
    /// `>=`
    GreaterThanEqualOp,
    /// `&&`
    BinaryAndOp,
    /// `||`
    BinaryOrOp,
}

/// Whether a numeric literal has a fractional part.
#[derive(Debug, Clone, Copy, PartialEq, Eq)]
pub enum NumericHint {
    Integer,
    Float,
}

/// One classified lexical unit.
#[allow(inconsistent_fields)]
#[derive(Debug, PartialEq, Eq)]
pub enum TokenType {
    /// The end of the input.
    EOF,
    /// A run of whitespace.
    Whitespace(String),
    /// A bracket or a separator.
    Punctuation { raw: char, kind: PunctuationKind },
    Operator { raw: String, kind: OperatorKind },
    Tag { raw: String, kind: TagKind },
    /// A `$` name, held without the `$`.
    Variable(String),
    Identifier(String),
    Keyword { kind: KeywordKind },
    Numeric { raw: String, hint: NumericHint },
    /// A string literal, held without its quotes.
    LString(String),
}

/// The view of a [`PunctuationKind`]: depths are natural numbers.
pub enum PunctuationKindView {
    Open(nat),
    Close(nat),
    Separator,
}

/// The view of a [`TokenType`]: text is a sequence of characters.
#[allow(inconsistent_fields)]
pub enum TokenView {
    EOF,
    Whitespace(Seq<char>),
    Punctuation { raw: char, kind: PunctuationKindView },
    Operator { raw: Seq<char>, kind: OperatorKind },
    Tag { raw: Seq<char>, kind: TagKind },
    Variable(Seq<char>),
    Identifier(Seq<char>),
    Keyword { kind: KeywordKind },
    Numeric { raw: Seq<char>, hint: NumericHint },
    LString(Seq<char>),
}

impl View for PunctuationKind {
    type V = PunctuationKindView;

    open spec fn view(&self) -> PunctuationKindView {
        match self {
            PunctuationKind::Open(d) => PunctuationKindView::Open(*d as nat),
            PunctuationKind::Close(d) => PunctuationKindView::Close(*d as nat),
            PunctuationKind::Separator => PunctuationKindView::Separator,
        }
    }
}

impl View for TokenType {
    type V = TokenView;

    open spec fn view(&self) -> TokenView {
        match self {
            TokenType::EOF => TokenView::EOF,
            TokenType::Whitespace(text) => TokenView::Whitespace(text@),
            TokenType::Punctuation { raw, kind } => TokenView::Punctuation {
                raw: *raw,
                kind: kind@,
            },
            TokenType::Operator { raw, kind } => TokenView::Operator { raw: raw@, kind: *kind },
            TokenType::Tag { raw, kind } => TokenView::Tag { raw: raw@, kind: *kind },
            TokenType::Variable(name) => TokenView::Variable(name@),
            TokenType::Identifier(name) => TokenView::Identifier(name@),
            TokenType::Keyword { kind } => TokenView::Keyword { kind: *kind },
            TokenType::Numeric { raw, hint } => TokenView::Numeric { raw: raw@, hint: *hint },
            TokenType::LString(text) => TokenView::LString(text@),
        }
    }
}

impl TokenView {
    /// The text that a token stands for: what it holds, with the `$` of a
    /// variable, the quotes of a string literal and the spelling of a keyword.
    pub open spec fn raw_text(self) -> Seq<char> {
        match self {
            TokenView::EOF => Seq::empty(),
            TokenView::Whitespace(text) => text,
            TokenView::Punctuation { raw, .. } => seq![raw],
            TokenView::Operator { raw, .. } => raw,
            TokenView::Tag { raw, .. } => raw,
            TokenView::Variable(name) => seq!['$'] + name,
            TokenView::Identifier(name) => name,
            TokenView::Keyword { kind } => kind.text(),
            TokenView::Numeric { raw, .. } => raw,
            TokenView::LString(text) => seq!['"'] + text + seq!['"'],
        }
    }
}

} // verus!
