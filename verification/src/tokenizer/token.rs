//! The tokens of the rule-driven tokenizer.
use vstd::prelude::*;

verus! {

/// A token: the name of the rule that matched, the text it matched, and the
/// line and column at which the match began.
pub struct Token {
    token_type: String,
    value: String,
    line: usize,
    col: usize,
}

/// The view of a [`Token`].
pub struct TokenData {
    pub token_type: Seq<char>,
    pub value: Seq<char>,
    pub line: nat,
    pub col: nat,
}

impl View for Token {
    type V = TokenData;

    closed spec fn view(&self) -> TokenData {
        TokenData {
            token_type: self.token_type@,
            value: self.value@,
            line: self.line as nat,
            col: self.col as nat,
        }
    }
}

impl Token {
    /// A token of the type `token_type` with the text `value`, met at `line`
    /// and `col`.
    pub fn new(token_type: &str, value: &str, line: usize, col: usize) -> (token: Token)
        ensures
            token@ == (TokenData {
                token_type: token_type@,
                value: value@,
                line: line as nat,
                col: col as nat,
            }),
    {
        Token { token_type: token_type.to_owned(), value: value.to_owned(), line, col }
    }

    /// The name of the rule that matched.
    pub fn get_token_type(&self) -> (token_type: &str)
        ensures
            token_type@ == self@.token_type,
    {
        self.token_type.as_str()
    }

    /// The text that the rule matched.
    pub fn get_value(&self) -> (value: &str)
        ensures
            value@ == self@.value,
    {
        self.value.as_str()
    }

    /// The line at which the match began.
    pub fn get_line(&self) -> (line: usize)
        ensures
            line == self@.line,
    {
        self.line
    }

    /// The column at which the match began.
    pub fn get_col(&self) -> (col: usize)
        ensures
            col == self@.col,
    {
        self.col
    }
}

} // verus!
