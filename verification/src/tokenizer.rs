//! A tokenizer that is driven by an ordered table of rules: each rule is a
//! regular expression, and the first rule that matches at the cursor gives
//! the next token.
pub mod rules;
pub mod token;

use self::token::{Token, TokenData};
use regex::Regex;
use vstd::prelude::*;
use vstd::string::StringSliceAdditionalSpecFns;
use vstd::utf8::{
    decode_utf8, encode_utf8, is_char_boundary, is_char_boundary_iff_not_is_continuation_byte,
    is_char_boundary_start_end_of_seq, valid_utf8, valid_utf8_split,
};

verus! {

broadcast use {vstd::utf8::encode_utf8_valid_utf8, vstd::utf8::encode_utf8_decode_utf8};

pub const T_WHITESPACE: &'static str = "T_WHITESPACE";

pub const T_PHP_OPEN_TAG: &'static str = "T_PHP_OPEN_TAG";

pub const T_PHP_CLOSE_TAG: &'static str = "T_PHP_CLOSE_TAG";

pub const T_SEMICOLON: &'static str = "T_SEMICOLON";

pub const T_COLON: &'static str = "T_COLON";

pub const T_FULL_STOP: &'static str = "T_FULL_STOP";

pub const T_OPEN_CURLY: &'static str = "T_OPEN_CURLY";

pub const T_CLOSE_CURLY: &'static str = "T_CLOSE_CURLY";

pub const T_OPEN_PARANTHESES: &'static str = "T_OPEN_PARANTHESES";

pub const T_CLOSE_PARANTHESES: &'static str = "T_CLOSE_PARANTHESES";

pub const T_EQUALS: &'static str = "T_EQUALS";

pub const T_IS_IDENTICAL: &'static str = "T_IS_IDENTICAL";

pub const T_CLASS: &'static str = "T_CLASS";

pub const T_STATIC: &'static str = "T_STATIC";

pub const T_PUBLIC: &'static str = "T_PUBLIC";

pub const T_PRIVATE: &'static str = "T_PRIVATE";

pub const T_PROTECTED: &'static str = "T_PROTECTED";

pub const T_FUNCTION: &'static str = "T_FUNCTION";

pub const T_IF: &'static str = "T_IF";

pub const T_ECHO: &'static str = "T_ECHO";

pub const T_VARIABLE: &'static str = "T_VARIABLE";

pub const T_STRING: &'static str = "T_STRING";

pub const T_LSTRING: &'static str = "T_LSTRING";

pub const T_LNUMBER: &'static str = "T_LNUMBER";

/// The rules, in the order in which they are tried: the name of a token and
/// the pattern that its text matches.
pub const TOKEN_RULES: [(&'static str, &'static str); 25] = [
    (T_WHITESPACE, r"^\s+"),
    (T_PHP_OPEN_TAG, r"^<\?php\s"),
    (T_PHP_CLOSE_TAG, r"^\?>"),
    (T_OPEN_CURLY, r"^\{"),
    (T_CLOSE_CURLY, r"^\}"),
    (T_OPEN_PARANTHESES, r"^\("),
    (T_CLOSE_PARANTHESES, r"^\)"),
    (T_SEMICOLON, r"^;"),
    (T_COLON, r"^:"),
    (T_FULL_STOP, r"^\."),
    (T_IS_IDENTICAL, r"^==="),
    (T_EQUALS, r"^="),
    (T_CLASS, r"^class"),
    (T_STATIC, r"^static"),
    (T_PUBLIC, r"^public"),
    (T_PRIVATE, r"^private"),
    (T_PROTECTED, r"^protected"),
    (T_FUNCTION, r"^function"),
    (T_IF, r"^if"),
    (T_ECHO, r"^echo"),
    (T_VARIABLE, r"^\$[[:alpha:]_]+"),
    (T_STRING, r"^[[:alpha:]]+"),
    (T_LSTRING, r#"^"[^"]*""#),
    (T_LSTRING, r#"^'[^']*'"#),
    (T_LNUMBER, r"^\d+"),
];

/// The pattern of the last line of a text that holds a newline: the last
/// newline and all that follows it.
pub const LAST_LINE: &'static str = r"\n.*$";

/// Declares `regex::Error`, the error of a pattern that does not compile.
/// Nothing is said of what it holds.
#[verifier::external_type_specification]
#[verifier::external_body]
pub struct ExRegexError(regex::Error);

/// Whether `pattern` is a regular expression: whether `Regex::new` compiles it.
pub uninterp spec fn regex_compiles(pattern: Seq<char>) -> bool;

/// What `Regex::find` returns for the regular expression `pattern` in
/// `haystack`: the byte offsets at which the leftmost match begins and ends
/// in the UTF-8 encoding of `haystack`, or `None` where nothing matches.
pub uninterp spec fn regex_first_match(pattern: Seq<char>, haystack: Seq<char>) -> Option<
    (usize, usize),
>;

/// Compiles `pattern` with `Regex::new` and searches `haystack` with
/// `Regex::find`. Trusted: the error comes exactly where the pattern does not
/// compile; the offsets of the match are those that the regex crate reports,
/// which depend on the two texts alone; and, as the crate documents of a
/// match, the start is no greater than the end and both lie on character
/// boundaries of the haystack.
#[verifier::external_body]
fn regex_find(pattern: &str, haystack: &str) -> (found: Result<Option<(usize, usize)>, regex::Error>)
    ensures
        (found is Ok) == regex_compiles(pattern@),
        found matches Ok(m) ==> m == regex_first_match(pattern@, haystack@),
        found matches Ok(Some((start, end))) ==> start <= end && is_char_boundary(
            haystack.spec_bytes(),
            start as int,
        ) && is_char_boundary(haystack.spec_bytes(), end as int),
{
    match Regex::new(pattern) {
        Ok(re) => Ok(re.find(haystack).map(|m| (m.start(), m.end()))),
        Err(error) => Err(error),
    }
}

/// Whether `pattern` is a regular expression.
pub(crate) fn pattern_compiles(pattern: &str) -> (compiles: bool)
    ensures
        compiles == regex_compiles(pattern@),
{
    regex_find(pattern, "").is_ok()
}

/// Why no token could be made.
#[derive(Debug, Clone, Copy, PartialEq, Eq)]
pub enum TokenizerError {
    /// A pattern is no regular expression.
    InvalidPattern,
    /// No rule matches at the cursor.
    UnrecognisedToken,
}

/// All that a call of `get_next_token` depends on.
pub struct TokenizerState {
    /// The UTF-8 encoding of the text that is not consumed yet.
    pub rest: Seq<u8>,
    pub line: nat,
    pub col: nat,
}

/// How often the byte `b` occurs in `bytes`.
pub open spec fn count_byte(bytes: Seq<u8>, b: u8) -> nat
    decreases bytes.len(),
{
    if bytes.len() == 0 {
        0
    } else if bytes.last() == b {
        count_byte(bytes.drop_last(), b) + 1
    } else {
        count_byte(bytes.drop_last(), b)
    }
}

/// Where the match of `pattern` ends in `rest`, if `pattern` matches at the
/// start of `rest`.
pub open spec fn rule_applies(pattern: Seq<char>, rest: Seq<u8>) -> Option<nat> {
    match regex_first_match(pattern, decode_utf8(rest)) {
        Some((start, end)) => if start == 0 {
            Some(end as nat)
        } else {
            None
        },
        None => None,
    }
}

/// The first rule, from the one at `from` on, that applies to `rest`, with
/// the end of its match. A pattern that does not compile ends the search.
pub open spec fn find_rule(rest: Seq<u8>, from: nat) -> Result<(nat, nat), TokenizerError>
    decreases 25 - from,
{
    if from >= 25 {
        Err(TokenizerError::UnrecognisedToken)
    } else if !regex_compiles(TOKEN_RULES[from as int].1@) {
        Err(TokenizerError::InvalidPattern)
    } else {
        match rule_applies(TOKEN_RULES[from as int].1@, rest) {
            Some(end) => Ok((from, end)),
            None => find_rule(rest, from + 1),
        }
    }
}

/// The column after a token with the bytes `value` that began at `col`: the
/// length of what `LAST_LINE` matches in `value`, its last newline and what
/// follows; and `col` moved on by the length of `value` where nothing
/// matches.
pub open spec fn col_after(col: nat, value: Seq<u8>) -> nat {
    match regex_first_match(LAST_LINE@, decode_utf8(value)) {
        Some((start, end)) => (end - start) as nat,
        None => col + value.len(),
    }
}

/// One call of `get_next_token` in the state `st`: the token of the first
/// rule that applies, which begins where the cursor stood, and the state
/// after the text of the token.
pub open spec fn tokenizer_step(st: TokenizerState) -> Result<(TokenData, TokenizerState), TokenizerError> {
    match find_rule(st.rest, 0) {
        Ok((rule, end)) => if regex_compiles(LAST_LINE@) {
            let value = st.rest.subrange(0, end as int);
            Ok(
                (
                    TokenData {
                        token_type: TOKEN_RULES[rule as int].0@,
                        value: decode_utf8(value),
                        line: st.line,
                        col: st.col,
                    },
                    TokenizerState {
                        rest: st.rest.subrange(end as int, st.rest.len() as int),
                        line: st.line + count_byte(value, 10),
                        col: col_after(st.col, value),
                    },
                ),
            )
        } else {
            Err(TokenizerError::InvalidPattern)
        },
        Err(error) => Err(error),
    }
}

/// A position that is a character boundary of a suffix is one of the whole
/// text.
proof fn lemma_boundary_of_suffix(bytes: Seq<u8>, cursor: int, end: int)
    requires
        valid_utf8(bytes),
        0 <= cursor <= bytes.len(),
        is_char_boundary(bytes, cursor),
        is_char_boundary(bytes.subrange(cursor, bytes.len() as int), end),
        0 <= end,
    ensures
        cursor + end <= bytes.len(),
        is_char_boundary(bytes, cursor + end),
{
    let suffix = bytes.subrange(cursor, bytes.len() as int);
    valid_utf8_split(bytes, cursor);
    if end == 0 {
    } else if end >= suffix.len() {
        is_char_boundary_start_end_of_seq(bytes);
        assert(end == suffix.len()) by {
            reveal_with_fuel(is_char_boundary, 1);
        }
    } else {
        is_char_boundary_iff_not_is_continuation_byte(suffix, end);
        is_char_boundary_iff_not_is_continuation_byte(bytes, cursor + end);
    }
}

/// Counts the newlines among `bytes`.
fn count_newlines(bytes: &[u8]) -> (count: usize)
    ensures
        count == count_byte(bytes@, 10),
        count <= bytes@.len(),
{
    let mut count: usize = 0;
    let mut i: usize = 0;
    while i < bytes.len()
        invariant
            i <= bytes.len(),
            count <= i,
            count == count_byte(bytes@.take(i as int), 10),
        decreases bytes.len() - i,
    {
        assert(bytes@.take(i + 1 as int).drop_last() =~= bytes@.take(i as int));
        if bytes[i] == 10u8 {
            count += 1;
        }
        i += 1;
    }
    assert(bytes@.take(i as int) =~= bytes@);
    count
}

/// A tokenizer over one text.
pub struct Tokenizer {
    code: String,
    cursor: usize,
    line: usize,
    col: usize,
}

impl View for Tokenizer {
    type V = TokenizerState;

    closed spec fn view(&self) -> TokenizerState {
        TokenizerState {
            rest: encode_utf8(self.code@).subrange(
                self.cursor as int,
                encode_utf8(self.code@).len() as int,
            ),
            line: self.line as nat,
            col: self.col as nat,
        }
    }
}

impl Tokenizer {
    /// The invariant of a tokenizer: the cursor lies on a character boundary
    /// of the text, and line and column have grown by no more than the cursor
    /// has.
    pub closed spec fn wf(&self) -> bool {
        &&& self.cursor <= encode_utf8(self.code@).len() < usize::MAX
        &&& is_char_boundary(encode_utf8(self.code@), self.cursor as int)
        &&& 1 <= self.line <= self.cursor + 1
        &&& self.col <= self.cursor + 1
    }

    /// A tokenizer at the start of `code`. The text must be short enough for
    /// the column after its last byte to be counted.
    pub fn new(code: &str) -> (tokenizer: Tokenizer)
        requires
            code.spec_bytes().len() < usize::MAX,
        ensures
            tokenizer.wf(),
            tokenizer@ == (TokenizerState { rest: code.spec_bytes(), line: 1, col: 1 }),
    {
        proof {
            is_char_boundary_start_end_of_seq(code.spec_bytes());
            assert(code.spec_bytes().subrange(0, code.spec_bytes().len() as int)
                =~= code.spec_bytes());
        }
        Tokenizer { code: code.to_owned(), cursor: 0, line: 1, col: 1 }
    }

    /// A tokenizer at the start of `code`, as `new` makes it, for any text:
    /// `None` where the text is too long for `new`.
    pub fn try_new(code: &str) -> (made: Option<Tokenizer>)
        ensures
            (match made {
                Some(tokenizer) => code.spec_bytes().len() < usize::MAX && tokenizer.wf()
                    && tokenizer@ == (TokenizerState { rest: code.spec_bytes(), line: 1, col: 1 }),
                None => code.spec_bytes().len() >= usize::MAX,
            }),
    {
        if code.as_bytes().len() < usize::MAX {
            Some(Tokenizer::new(code))
        } else {
            None
        }
    }

    /// Whether any text is left.
    pub fn has_more_tokens(&self) -> (more: bool)
        requires
            self.wf(),
        ensures
            more == (self@.rest.len() > 0),
    {
        self.cursor < self.code.as_str().len()
    }

    /// Tries one rule on `target`: the end of its match, if it matches at
    /// the start.
    fn match_token(target: &str, definition: (&'static str, &'static str)) -> (matched: Result<
        Option<usize>,
        TokenizerError,
    >)
        ensures
            (matched is Ok) == regex_compiles(definition.1@),
            matched is Err ==> matched == Err::<Option<usize>, _>(TokenizerError::InvalidPattern),
            matched matches Ok(found) ==> (match found {
                Some(end) => Some(end as nat),
                None => None,
            }) == rule_applies(definition.1@, target.spec_bytes()),
            matched matches Ok(Some(end)) ==> is_char_boundary(target.spec_bytes(), end as int),
    {
        match regex_find(definition.1, target) {
            Ok(Some((start, end))) => {
                if start == 0 {
                    Ok(Some(end))
                } else {
                    Ok(None)
                }
            },
            Ok(None) => Ok(None),
            Err(_) => Err(TokenizerError::InvalidPattern),
        }
    }

    /// Looks for the first rule that applies at the cursor.
    fn find_rule(&self) -> (found: Result<(usize, usize), TokenizerError>)
        requires
            self.wf(),
        ensures
            (match found {
                Ok((rule, end)) => Ok((rule as nat, end as nat)),
                Err(error) => Err(error),
            }) == find_rule(self@.rest, 0),
            found matches Ok((rule, end)) ==> rule < 25 && is_char_boundary(self@.rest, end as int),
    {
        let (_, target) = self.code.as_str().split_at(self.cursor);
        let mut rule: usize = 0;
        while rule < 25
            invariant
                rule <= 25,
                target.spec_bytes() == self@.rest,
                find_rule(self@.rest, 0) == find_rule(self@.rest, rule as nat),
            decreases 25 - rule,
        {
            match Tokenizer::match_token(target, TOKEN_RULES[rule]) {
                Ok(Some(end)) => {
                    return Ok((rule, end));
                },
                Ok(None) => {},
                Err(error) => {
                    return Err(error);
                },
            }
            rule += 1;
        }
        Err(TokenizerError::UnrecognisedToken)
    }

    /// Makes the next token and moves the cursor past its text. It needs a
    /// state in which a rule applies: `try_next_token` tests that first.
    pub fn get_next_token(&mut self) -> (token: Token)
        requires
            old(self).wf(),
            tokenizer_step(old(self)@) is Ok,
        ensures
            final(self).wf(),
            Ok::<(TokenData, TokenizerState), TokenizerError>((token@, final(self)@))
                == tokenizer_step(old(self)@),
    {
        let ghost bytes = encode_utf8(self.code@);
        let ghost rest = self@.rest;
        let (rule, end) = match self.find_rule() {
            Ok(found) => found,
            Err(_) => vstd::pervasive::unreached(),
        };
        let (_, target) = self.code.as_str().split_at(self.cursor);
        let (value, _) = target.split_at(end);
        let token = Token::new(TOKEN_RULES[rule].0, value, self.line, self.col);
        let new_lines: usize = count_newlines(value.as_bytes());
        let last_line = regex_find(LAST_LINE, value);
        proof {
            lemma_boundary_of_suffix(bytes, self.cursor as int, end as int);
            assert(value.spec_bytes() == rest.subrange(0, end as int));
            assert(bytes.subrange(self.cursor + end, bytes.len() as int) =~= rest.subrange(
                end as int,
                rest.len() as int,
            ));
        }
        self.cursor += end;
        self.line += new_lines;
        match last_line {
            Ok(Some((from, to))) => {
                self.col = to - from;
            },
            Ok(None) => {
                self.col += end;
            },
            Err(_) => {
                assert(false);
            },
        }
        token
    }

    /// Makes the next token where a rule applies at the cursor, and says why
    /// where none does; the state then stays as it is.
    pub fn try_next_token(&mut self) -> (res: Result<Token, TokenizerError>)
        requires
            old(self).wf(),
        ensures
            final(self).wf(),
            (match res {
                Ok(token) => Ok((token@, final(self)@)),
                Err(error) => Err(error),
            }) == tokenizer_step(old(self)@),
            res is Err ==> final(self)@ == old(self)@,
    {
        match self.find_rule() {
            Ok(_) => {
                if pattern_compiles(LAST_LINE) {
                    Ok(self.get_next_token())
                } else {
                    Err(TokenizerError::InvalidPattern)
                }
            },
            Err(error) => Err(error),
        }
    }
}

} // verus!
