//! The mathematical model of the scanner: what one call of `next_token` does
//! to the remaining input, the cursor position and the bracket depths.
use super::chars::{
    is_ascii_alphabetic, is_close_bracket, is_digit, is_ident_char, is_open_bracket,
    is_whitespace, opening_of,
};
use super::keywords::classify_identifier;
use super::token::{NumericHint, OperatorKind, PunctuationKindView, TagKind, TokenView};
use vstd::prelude::*;

verus! {

/// Where the cursor stands: line and column count from 1, the offset from 0.
pub struct Position {
    pub line: nat,
    pub col: nat,
    pub offset: nat,
}

impl Position {
    /// The position before anything is consumed.
    pub open spec fn start() -> Position {
        Position { line: 1, col: 1, offset: 0 }
    }

    /// The position after `c` is consumed: a newline begins the next line,
    /// any other character moves one column on.
    pub open spec fn step(self, c: char) -> Position {
        if c == '\n' {
            Position { line: self.line + 1, col: 1, offset: self.offset + 1 }
        } else {
            Position { line: self.line, col: self.col + 1, offset: self.offset + 1 }
        }
    }

    /// The position after all of `text` is consumed.
    pub open spec fn advance(self, text: Seq<char>) -> Position
        decreases text.len(),
    {
        if text.len() == 0 {
            self
        } else {
            self.advance(text.drop_last()).step(text.last())
        }
    }
}

/// The nesting count of each kind of bracket.
pub struct Depths {
    pub paren: nat,
    pub bracket: nat,
    pub brace: nat,
}

impl Depths {
    /// No bracket is open.
    pub open spec fn zero() -> Depths {
        Depths { paren: 0, bracket: 0, brace: 0 }
    }

    /// The count kept for the opening bracket `open`.
    pub open spec fn of(self, open: char) -> nat {
        if open == '(' {
            self.paren
        } else if open == '[' {
            self.bracket
        } else if open == '{' {
            self.brace
        } else {
            0
        }
    }

    /// These depths with the count of `open` replaced by `count`.
    pub open spec fn with(self, open: char, count: nat) -> Depths {
        if open == '(' {
            Depths { paren: count, ..self }
        } else if open == '[' {
            Depths { bracket: count, ..self }
        } else if open == '{' {
            Depths { brace: count, ..self }
        } else {
            self
        }
    }
}

/// All that a call of `next_token` depends on.
pub struct LexerState {
    /// The input that is not consumed yet.
    pub rest: Seq<char>,
    /// The position of the first character of `rest`.
    pub pos: Position,
    pub depths: Depths,
}

impl LexerState {
    /// The state in which scanning of `input` begins.
    pub open spec fn initial(input: Seq<char>) -> LexerState {
        LexerState { rest: input, pos: Position::start(), depths: Depths::zero() }
    }

    /// The next character, if any is left.
    pub open spec fn peek(self) -> Option<char> {
        if self.rest.len() > 0 {
            Some(self.rest[0])
        } else {
            None
        }
    }

    /// The state after the first `n` characters of `rest` are consumed.
    pub open spec fn consume(self, n: nat) -> LexerState
        recommends
            n <= self.rest.len(),
    {
        LexerState {
            rest: self.rest.skip(n as int),
            pos: self.pos.advance(self.rest.take(n as int)),
            depths: self.depths,
        }
    }
}

/// Consuming `text` and then `c` is consuming `text` with `c` appended.
pub proof fn lemma_advance_push(pos: Position, text: Seq<char>, c: char)
    ensures
        pos.advance(text.push(c)) == pos.advance(text).step(c),
{
    assert(text.push(c).drop_last() =~= text);
}

/// Consuming `a` and then `b` is consuming their concatenation.
pub proof fn lemma_advance_concat(pos: Position, a: Seq<char>, b: Seq<char>)
    ensures
        pos.advance(a + b) == pos.advance(a).advance(b),
    decreases b.len(),
{
    if b.len() == 0 {
        assert(a + b =~= a);
    } else {
        lemma_advance_concat(pos, a, b.drop_last());
        assert((a + b).drop_last() =~= a + b.drop_last());
    }
}

/// A position counts every character it passes: the offset grows by the
/// length of the text, and line and column together by no more than that.
pub proof fn lemma_advance_bounds(pos: Position, text: Seq<char>)
    requires
        pos.col >= 1,
    ensures
        pos.advance(text).offset == pos.offset + text.len(),
        pos.advance(text).line >= pos.line,
        pos.advance(text).col >= 1,
        pos.advance(text).line + pos.advance(text).col <= pos.line + pos.col + text.len(),
    decreases text.len(),
{
    if text.len() > 0 {
        lemma_advance_bounds(pos, text.drop_last());
    }
}

impl LexerState {
    /// Consuming nothing changes nothing.
    pub proof fn lemma_consume_zero(self)
        ensures
            self.consume(0) == self,
    {
        assert(self.rest.skip(0) =~= self.rest);
        assert(self.rest.take(0) =~= Seq::<char>::empty());
    }

    /// Consuming one character drops it and steps the position over it.
    pub proof fn lemma_consume_one(self)
        requires
            self.rest.len() > 0,
        ensures
            self.consume(1) == (LexerState {
                rest: self.rest.drop_first(),
                pos: self.pos.step(self.rest[0]),
                depths: self.depths,
            }),
    {
        assert(self.rest.skip(1) =~= self.rest.drop_first());
        assert(self.rest.take(1) =~= Seq::<char>::empty().push(self.rest[0]));
        lemma_advance_push(self.pos, Seq::empty(), self.rest[0]);
    }

    /// Consuming `a` characters and then `b` more is consuming `a + b`.
    pub proof fn lemma_consume_add(self, a: nat, b: nat)
        requires
            a + b <= self.rest.len(),
        ensures
            self.consume(a).consume(b) == self.consume(a + b),
    {
        let s = self.rest;
        assert(s.skip(a as int).skip(b as int) =~= s.skip((a + b) as int));
        assert(s.take(a as int) + s.skip(a as int).take(b as int) =~= s.take((a + b) as int));
        lemma_advance_concat(self.pos, s.take(a as int), s.skip(a as int).take(b as int));
    }
}

/// The view of a `LexerError`: text is a sequence of characters, positions are
/// natural numbers.
#[allow(inconsistent_fields)]
pub enum LexerErrorView {
    NonNumericLiteralInvalidChar { symbol: Seq<char>, line: nat, col: nat },
    MissingExpectedSymbol { expected: Seq<char>, found: TokenView, line: nat, col: nat },
    UnknownOperator { raw: Seq<char>, line: nat, col: nat },
    UnknownSymbol { symbol: Seq<char>, line: nat, col: nat },
    TokenDepthUnbalanced { symbol: char, line: nat, col: nat },
}

/// What a sub-scanner makes of the input that follows the first character of
/// a token: the token or the error, and how many characters it consumes.
pub struct Scan {
    pub result: Result<TokenView, LexerErrorView>,
    pub len: nat,
}

/// What one call of `next_token` does: its result, and the state it leaves.
pub struct Step {
    pub result: Result<TokenView, LexerErrorView>,
    pub next: LexerState,
}

/// The error for input that ends where `expected` had to follow, met at `at`.
pub open spec fn missing_symbol(expected: Seq<char>, at: Position) -> LexerErrorView {
    LexerErrorView::MissingExpectedSymbol {
        expected,
        found: TokenView::EOF,
        line: at.line,
        col: at.col,
    }
}

/// The error for `symbol`, met at `at`, that no rule matches.
pub open spec fn unknown_symbol(symbol: Seq<char>, at: Position) -> LexerErrorView {
    LexerErrorView::UnknownSymbol { symbol, line: at.line, col: at.col }
}

/// The error for a numeric literal that an invalid character follows at `at`;
/// `symbol` is the digit run that the character cut short.
pub open spec fn invalid_numeric(symbol: Seq<char>, at: Position) -> LexerErrorView {
    LexerErrorView::NonNumericLiteralInvalidChar { symbol, line: at.line, col: at.col }
}

/// The length of the longest prefix of `s` whose characters all satisfy `accepts`.
pub open spec fn run_len(s: Seq<char>, accepts: spec_fn(char) -> bool) -> nat
    decreases s.len(),
{
    if s.len() > 0 && accepts(s[0]) {
        1 + run_len(s.drop_first(), accepts)
    } else {
        0
    }
}

/// The length of the whitespace that `s` begins with.
pub open spec fn whitespace_run(s: Seq<char>) -> nat {
    run_len(s, |c: char| is_whitespace(c))
}

/// The length of the identifier characters that `s` begins with.
pub open spec fn ident_run(s: Seq<char>) -> nat {
    run_len(s, |c: char| is_ident_char(c))
}

/// The part of a numeric literal that a digit run belongs to.
#[derive(Debug, Clone, Copy, PartialEq, Eq)]
pub enum NumericPart {
    /// The digits that continue the first digit of the literal.
    Integer,
    /// The digits after the `.`.
    Fraction,
    /// The digits after the exponent marker and its sign.
    Exponent,
}

/// How a digit run ends.
pub enum RunEnd {
    /// At a character that may follow the run, or at the end of the input
    /// after at least one digit of the literal.
    Clean,
    /// At the end of the input, before any digit of a run that needs one.
    Missing,
    /// At a letter or an underscore that may not stand there.
    Invalid,
}

/// `e` or `E`.
pub open spec fn is_exponent_marker(c: char) -> bool {
    c == 'e' || c == 'E'
}

/// `+` or `-`.
pub open spec fn is_sign(c: char) -> bool {
    c == '+' || c == '-'
}

/// The length of the run of digits and underscores that `s` begins with.
/// An underscore belongs to the run only after a digit: `seeded` says that a
/// digit of the literal precedes `s`.
pub open spec fn digit_run(s: Seq<char>, seeded: bool) -> nat {
    if seeded || (s.len() > 0 && is_digit(s[0])) {
        run_len(s, |c: char| is_digit(c) || c == '_')
    } else {
        0
    }
}

/// The length of the digit run that `s` begins with. The integer part
/// continues the first digit of the literal; the other parts begin anew.
pub open spec fn digit_run_len(s: Seq<char>, part: NumericPart) -> nat {
    digit_run(s, part is Integer)
}

/// How the digit run that `s` begins with ends. A letter after the run is
/// invalid, but for an exponent marker after the integer part or the
/// fraction; so is an underscore where the run cannot take it.
pub open spec fn digit_run_end(s: Seq<char>, part: NumericPart) -> RunEnd {
    let n = digit_run_len(s, part);
    if n >= s.len() {
        if n == 0 && !(part is Integer) {
            RunEnd::Missing
        } else {
            RunEnd::Clean
        }
    } else if s[n as int] == '_' || (is_ascii_alphabetic(s[n as int]) && (part is Exponent
        || !is_exponent_marker(s[n as int]))) {
        RunEnd::Invalid
    } else {
        RunEnd::Clean
    }
}

/// The digit run at the cursor of `st`: its text, or the error that ends it,
/// which carries the position after the run.
#[verifier::opaque]
pub open spec fn scan_digits(st: LexerState, part: NumericPart) -> Result<Seq<char>, LexerErrorView> {
    let n = digit_run_len(st.rest, part);
    match digit_run_end(st.rest, part) {
        RunEnd::Clean => Ok(st.rest.take(n as int)),
        RunEnd::Missing => Err(missing_symbol("<number>"@, st.consume(n).pos)),
        RunEnd::Invalid => Err(invalid_numeric(st.rest.take(n as int), st.consume(n).pos)),
    }
}

/// The end of a numeric literal, from the cursor of `st`: an exponent marker,
/// an optional sign and a digit run, or nothing. `raw` is the literal so far.
#[verifier::opaque]
pub open spec fn scan_exponent(st: LexerState, raw: Seq<char>, hint: NumericHint) -> Scan {
    if st.rest.len() > 0 && is_exponent_marker(st.rest[0]) {
        let sign: nat = if st.rest.len() > 1 && is_sign(st.rest[1]) {
            1
        } else {
            0
        };
        let at = st.consume(1 + sign);
        Scan {
            result: match scan_digits(at, NumericPart::Exponent) {
                Ok(digits) => Ok(
                    TokenView::Numeric { raw: raw + st.rest.take(1 + sign as int) + digits, hint },
                ),
                Err(error) => Err(error),
            },
            len: 1 + sign + digit_run_len(at.rest, NumericPart::Exponent),
        }
    } else {
        Scan { result: Ok(TokenView::Numeric { raw, hint }), len: 0 }
    }
}

/// A numeric literal from the digits of its fraction on: `st` stands after
/// the `.`, and `raw` is the literal up to and with it.
#[verifier::opaque]
pub open spec fn scan_fraction(st: LexerState, raw: Seq<char>) -> Scan {
    let n = digit_run_len(st.rest, NumericPart::Fraction);
    match scan_digits(st, NumericPart::Fraction) {
        Ok(digits) => {
            let tail = scan_exponent(st.consume(n), raw + digits, NumericHint::Float);
            Scan { result: tail.result, len: n + tail.len }
        },
        Err(error) => Scan { result: Err(error), len: n },
    }
}

/// A numeric literal whose first character `start` is consumed already: a
/// digit, or a `.` that stands for an empty integer part.
pub open spec fn scan_numeric(start: char, st: LexerState) -> Scan {
    if start == '.' {
        scan_fraction(st, seq![start])
    } else if is_digit(start) {
        let n = digit_run_len(st.rest, NumericPart::Integer);
        match scan_digits(st, NumericPart::Integer) {
            Ok(digits) => {
                let at = st.consume(n);
                let raw = seq![start] + digits;
                if at.rest.len() > 0 && at.rest[0] == '.' {
                    let tail = scan_fraction(at.consume(1), raw.push('.'));
                    Scan { result: tail.result, len: n + 1 + tail.len }
                } else {
                    let tail = scan_exponent(at, raw, NumericHint::Integer);
                    Scan { result: tail.result, len: n + tail.len }
                }
            },
            Err(error) => Scan { result: Err(error), len: n },
        }
    } else {
        Scan { result: Err(invalid_numeric(seq![start], st.pos)), len: 0 }
    }
}

/// Where the body of a string literal ends in `s`: the index of the first
/// quote that no backslash escapes, or the length of `s` where there is
/// none. A backslash escapes the one character after it, unless it is
/// escaped itself. `escaped` says whether a backslash escapes `s[0]`.
pub open spec fn literal_end(s: Seq<char>, escaped: bool) -> nat
    decreases s.len(),
{
    if s.len() == 0 || (s[0] == '"' && !escaped) {
        0
    } else {
        1 + literal_end(s.drop_first(), s[0] == '\\' && !escaped)
    }
}

/// A string literal whose opening quote is consumed already: the token holds
/// the text up to the closing quote, which is consumed too. A literal that
/// the input ends in holds the text up to the end.
pub open spec fn scan_string(st: LexerState) -> Scan {
    let end = literal_end(st.rest, false);
    Scan {
        result: Ok(TokenView::LString(st.rest.take(end as int))),
        len: if end < st.rest.len() {
            end + 1
        } else {
            end
        },
    }
}

/// How many characters of `?php` the input `s` begins with, in their order.
pub open spec fn tag_prefix_len(s: Seq<char>) -> nat {
    if !(s.len() > 0 && s[0] == '?') {
        0
    } else if !(s.len() > 1 && s[1] == 'p') {
        1
    } else if !(s.len() > 2 && s[2] == 'h') {
        2
    } else if !(s.len() > 3 && s[3] == 'p') {
        3
    } else {
        4
    }
}

/// What follows a consumed `<`: the opening tag `<?php` before whitespace,
/// which stays in the input; an error once a `?` is consumed and the tag does
/// not follow; the operator `<` where no `?` follows.
pub open spec fn scan_tag(st: LexerState) -> Scan {
    let n = tag_prefix_len(st.rest);
    if n == 0 {
        Scan {
            result: Ok(TokenView::Operator { raw: seq!['<'], kind: OperatorKind::LessThanOp }),
            len: 0,
        }
    } else if n == 4 && st.rest.len() > 4 && is_whitespace(st.rest[4]) {
        Scan {
            result: Ok(
                TokenView::Tag { raw: seq!['<', '?', 'p', 'h', 'p'], kind: TagKind::PhpOpen },
            ),
            len: 4,
        }
    } else {
        Scan { result: Err(unknown_symbol(Seq::empty(), st.consume(n).pos)), len: n }
    }
}

/// The operator that begins with the consumed character `start`: the longest
/// that the input spells.
pub open spec fn scan_operator(start: char, st: LexerState) -> Scan {
    let s = st.rest;
    if start == '=' {
        if s.len() > 0 && s[0] == '>' {
            Scan {
                result: Ok(
                    TokenView::Operator { raw: seq!['=', '>'], kind: OperatorKind::DoubleArrowOp },
                ),
                len: 1,
            }
        } else if s.len() > 1 && s[0] == '=' && s[1] == '=' {
            Scan {
                result: Ok(
                    TokenView::Operator {
                        raw: seq!['=', '=', '='],
                        kind: OperatorKind::StrictEqualityOp,
                    },
                ),
                len: 2,
            }
        } else if s.len() > 0 && s[0] == '=' {
            Scan {
                result: Ok(
                    TokenView::Operator { raw: seq!['=', '='], kind: OperatorKind::EqualityOp },
                ),
                len: 1,
            }
        } else {
            Scan {
                result: Ok(
                    TokenView::Operator { raw: seq!['='], kind: OperatorKind::AssignmentOp },
                ),
                len: 0,
            }
        }
    } else if start == '-' {
        if s.len() > 0 && s[0] == '>' {
            Scan {
                result: Ok(
                    TokenView::Operator { raw: seq!['-', '>'], kind: OperatorKind::ObjectOp },
                ),
                len: 1,
            }
        } else {
            Scan {
                result: Ok(TokenView::Operator { raw: seq!['-'], kind: OperatorKind::MinusOp }),
                len: 0,
            }
        }
    } else if start == '+' {
        Scan {
            result: Ok(TokenView::Operator { raw: seq!['+'], kind: OperatorKind::PlusOp }),
            len: 0,
        }
    } else if start == '.' {
        Scan {
            result: Ok(TokenView::Operator { raw: seq!['.'], kind: OperatorKind::ConcatOp }),
            len: 0,
        }
    } else {
        Scan {
            result: Err(
                LexerErrorView::UnknownOperator {
                    raw: seq![start],
                    line: st.pos.line,
                    col: st.pos.col,
                },
            ),
            len: 0,
        }
    }
}

/// The identifier or keyword whose first character `start` is consumed
/// already: it runs as far as identifier characters follow.
pub open spec fn scan_identifier(start: char, st: LexerState) -> Scan {
    let n = ident_run(st.rest);
    Scan { result: Ok(classify_identifier(seq![start] + st.rest.take(n as int))), len: n }
}

/// The variable whose `$` is consumed already: its name runs as far as
/// identifier characters follow. Input that ends at the `$` is an error.
pub open spec fn scan_variable(st: LexerState) -> Scan {
    if st.rest.len() == 0 {
        Scan { result: Err(missing_symbol("<variable name>"@, st.pos)), len: 0 }
    } else {
        let n = ident_run(st.rest);
        Scan { result: Ok(TokenView::Variable(st.rest.take(n as int))), len: n }
    }
}

/// The run of whitespace whose first character `start` is consumed already.
pub open spec fn scan_whitespace(start: char, st: LexerState) -> Scan {
    let n = whitespace_run(st.rest);
    Scan { result: Ok(TokenView::Whitespace(seq![start] + st.rest.take(n as int))), len: n }
}

/// An opening bracket: the token holds the depth of its kind before, and the
/// depth grows by one.
pub open spec fn scan_open(c: char, st: LexerState) -> Step {
    let depth = st.depths.of(c);
    Step {
        result: Ok(TokenView::Punctuation { raw: c, kind: PunctuationKindView::Open(depth) }),
        next: LexerState { depths: st.depths.with(c, depth + 1), ..st },
    }
}

/// A closing bracket, met at `line` and `col`: where a bracket of its kind is
/// open, the depth shrinks by one and the token holds the new depth; where
/// none is, the bracket is unbalanced.
pub open spec fn scan_close(c: char, line: nat, col: nat, st: LexerState) -> Step {
    let open = opening_of(c);
    let depth = st.depths.of(open);
    if depth >= 1 {
        Step {
            result: Ok(
                TokenView::Punctuation {
                    raw: c,
                    kind: PunctuationKindView::Close((depth - 1) as nat),
                },
            ),
            next: LexerState { depths: st.depths.with(open, (depth - 1) as nat), ..st },
        }
    } else {
        Step { result: Err(LexerErrorView::TokenDepthUnbalanced { symbol: c, line, col }), next: st }
    }
}

/// The step that a sub-scanner's result amounts to, from the state `st` in
/// which the sub-scanner began.
pub open spec fn step_of(scan: Scan, st: LexerState) -> Step {
    Step { result: scan.result, next: st.consume(scan.len) }
}

/// The token that begins with the consumed character `c`, which stood at
/// `line` and `col`; `st` is the state after `c`. The first class that `c`
/// belongs to decides. A `.` is always the operator: no numeric literal
/// begins with it. A closing bracket that closes nothing and a character
/// that begins no token are reported at the place of that character.
#[verifier::opaque]
pub open spec fn scan_from(c: char, line: nat, col: nat, st: LexerState) -> Step {
    if is_whitespace(c) {
        step_of(scan_whitespace(c, st), st)
    } else if c == '<' {
        step_of(scan_tag(st), st)
    } else if is_open_bracket(c) {
        scan_open(c, st)
    } else if is_close_bracket(c) {
        scan_close(c, line, col, st)
    } else if is_digit(c) {
        step_of(scan_numeric(c, st), st)
    } else if c == ';' {
        Step {
            result: Ok(TokenView::Punctuation { raw: c, kind: PunctuationKindView::Separator }),
            next: st,
        }
    } else if c == '"' {
        step_of(scan_string(st), st)
    } else if c == '=' || c == '-' || c == '+' || c == '.' {
        step_of(scan_operator(c, st), st)
    } else if is_ident_char(c) {
        step_of(scan_identifier(c, st), st)
    } else if c == '$' {
        step_of(scan_variable(st), st)
    } else {
        Step { result: Err(LexerErrorView::UnknownSymbol { symbol: seq![c], line, col }), next: st }
    }
}

/// One call of `next_token` in the state `st`: the end of the input is the
/// token `EOF` and changes nothing; otherwise the first character is
/// consumed and decides what is scanned.
pub open spec fn scan_token(st: LexerState) -> Step {
    if st.rest.len() == 0 {
        Step { result: Ok(TokenView::EOF), next: st }
    } else {
        scan_from(st.rest[0], st.pos.line, st.pos.col, st.consume(1))
    }
}

/// A run is no longer than the text it is found in.
pub proof fn lemma_run_len_bound(s: Seq<char>, accepts: spec_fn(char) -> bool)
    ensures
        run_len(s, accepts) <= s.len(),
    decreases s.len(),
{
    if s.len() > 0 && accepts(s[0]) {
        lemma_run_len_bound(s.drop_first(), accepts);
    }
}

/// A digit run is no longer than the text it is found in.
pub proof fn lemma_digit_run_bound(s: Seq<char>, seeded: bool)
    ensures
        digit_run(s, seeded) <= s.len(),
{
    lemma_run_len_bound(s, |c: char| is_digit(c) || c == '_');
}

/// The body of a string literal ends within the text.
pub proof fn lemma_literal_end_bound(s: Seq<char>, escaped: bool)
    ensures
        literal_end(s, escaped) <= s.len(),
    decreases s.len(),
{
    if !(s.len() == 0 || (s[0] == '"' && !escaped)) {
        lemma_literal_end_bound(s.drop_first(), s[0] == '\\' && !escaped);
    }
}

/// The end of a numeric literal consumes no more than is left.
pub proof fn lemma_scan_exponent_len(st: LexerState, raw: Seq<char>, hint: NumericHint)
    ensures
        scan_exponent(st, raw, hint).len <= st.rest.len(),
{
    reveal(scan_exponent);
    if st.rest.len() > 0 && is_exponent_marker(st.rest[0]) {
        let sign: nat = if st.rest.len() > 1 && is_sign(st.rest[1]) {
            1
        } else {
            0
        };
        lemma_digit_run_bound(st.consume(1 + sign).rest, false);
    }
}

/// The fraction of a numeric literal, with what follows it, consumes no more
/// than is left.
pub proof fn lemma_scan_fraction_len(st: LexerState, raw: Seq<char>)
    ensures
        scan_fraction(st, raw).len <= st.rest.len(),
{
    reveal(scan_fraction);
    let n = digit_run_len(st.rest, NumericPart::Fraction);
    lemma_digit_run_bound(st.rest, false);
    match scan_digits(st, NumericPart::Fraction) {
        Ok(digits) => {
            lemma_scan_exponent_len(st.consume(n), raw + digits, NumericHint::Float);
        },
        Err(_) => {},
    }
}

/// A numeric literal consumes no more than is left.
pub proof fn lemma_scan_numeric_len(start: char, st: LexerState)
    ensures
        scan_numeric(start, st).len <= st.rest.len(),
{
    if start == '.' {
        lemma_scan_fraction_len(st, seq![start]);
    } else if is_digit(start) {
        let n = digit_run_len(st.rest, NumericPart::Integer);
        lemma_digit_run_bound(st.rest, true);
        match scan_digits(st, NumericPart::Integer) {
            Ok(digits) => {
                let at = st.consume(n);
                let raw = seq![start] + digits;
                if at.rest.len() > 0 && at.rest[0] == '.' {
                    lemma_scan_fraction_len(at.consume(1), raw.push('.'));
                } else {
                    lemma_scan_exponent_len(at, raw, NumericHint::Integer);
                }
            },
            Err(_) => {},
        }
    }
}

} // verus!
