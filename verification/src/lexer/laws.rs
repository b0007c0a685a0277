//! What holds of the scanner over every input: each token consumes the text
//! it stands for, scanning always advances, and well-formed brackets leave
//! the depths as they were.
use super::chars::{
    is_close_bracket, is_digit, is_ident_char, is_open_bracket, is_whitespace, opening_of,
};
use super::model::{
    digit_run_len, is_exponent_marker, is_sign, lemma_advance_bounds, lemma_advance_concat,
    lemma_digit_run_bound, lemma_literal_end_bound, lemma_run_len_bound,
    lemma_scan_exponent_len, lemma_scan_fraction_len, lemma_scan_numeric_len, literal_end,
    scan_digits, scan_exponent, scan_fraction, scan_from, scan_identifier, scan_numeric,
    scan_operator, scan_string, scan_tag, scan_token, scan_variable, scan_whitespace, Depths,
    LexerErrorView, LexerState, NumericPart,
};
use super::token::{NumericHint, PunctuationKindView, TokenView};
use vstd::prelude::*;

verus! {

/// How many characters the step from `st` consumes.
pub open spec fn consumed(st: LexerState) -> nat {
    (st.rest.len() - scan_token(st).next.rest.len()) as nat
}

/// The text that the step from `st` consumes.
pub open spec fn lexeme(st: LexerState) -> Seq<char> {
    st.rest.take(consumed(st) as int)
}

/// How many characters the token that begins with the consumed character
/// `c` consumes after it.
pub open spec fn tail_len(c: char, line: nat, col: nat, st: LexerState) -> nat {
    (st.rest.len() - scan_from(c, line, col, st).next.rest.len()) as nat
}

/// The token that begins with a consumed character consumes a prefix of what
/// is left after that character, and moves the position over that prefix.
pub proof fn lemma_scan_from_consumes(c: char, line: nat, col: nat, st: LexerState)
    ensures
        scan_from(c, line, col, st).next.rest.len() <= st.rest.len(),
        scan_from(c, line, col, st).next.rest == st.consume(tail_len(c, line, col, st)).rest,
        scan_from(c, line, col, st).next.pos == st.consume(tail_len(c, line, col, st)).pos,
{
    reveal(scan_from);
    st.lemma_consume_zero();
    if is_whitespace(c) {
        lemma_run_len_bound(st.rest, |c: char| is_whitespace(c));
    } else if c == '<' {
    } else if is_open_bracket(c) {
    } else if is_close_bracket(c) {
    } else if is_digit(c) {
        lemma_scan_numeric_len(c, st);
    } else if c == ';' {
    } else if c == '"' {
        lemma_literal_end_bound(st.rest, false);
    } else if c == '=' || c == '-' || c == '+' || c == '.' {
    } else if is_ident_char(c) {
        lemma_run_len_bound(st.rest, |c: char| is_ident_char(c));
    } else if c == '$' {
        lemma_run_len_bound(st.rest, |c: char| is_ident_char(c));
    } else {
    }
}

/// Every step consumes a prefix of what is left, and moves the position over
/// exactly that prefix. Unless the input is at its end, the prefix is not
/// empty: scanning always advances.
pub proof fn lemma_step_consumes(st: LexerState)
    ensures
        scan_token(st).next.rest.len() <= st.rest.len(),
        st.rest.len() > 0 ==> scan_token(st).next.rest.len() < st.rest.len(),
        scan_token(st).next.rest == st.rest.skip(consumed(st) as int),
        scan_token(st).next.pos == st.pos.advance(lexeme(st)),
        st.rest == lexeme(st) + scan_token(st).next.rest,
{
    if st.rest.len() == 0 {
        st.lemma_consume_zero();
    } else {
        let after = st.consume(1);
        let k = tail_len(st.rest[0], st.pos.line, st.pos.col, after);
        lemma_scan_from_consumes(st.rest[0], st.pos.line, st.pos.col, after);
        st.lemma_consume_add(1, k);
    }
    let n = consumed(st);
    assert(st.rest =~= st.rest.take(n as int) + st.rest.skip(n as int));
}

/// Where the body of a string literal ends before the end of the text, a
/// quote stands.
proof fn lemma_literal_end_quote(s: Seq<char>, escaped: bool)
    ensures
        literal_end(s, escaped) < s.len() ==> s[literal_end(s, escaped) as int] == '"',
    decreases s.len(),
{
    if !(s.len() == 0 || (s[0] == '"' && !escaped)) {
        lemma_literal_end_quote(s.drop_first(), s[0] == '\\' && !escaped);
    }
}

/// The text of a numeric literal ends with what its last part consumed.
proof fn lemma_exponent_text(st: LexerState, raw: Seq<char>, hint: NumericHint)
    ensures
        scan_exponent(st, raw, hint).result matches Ok(token) ==> token == (TokenView::Numeric {
            raw: raw + st.rest.take(scan_exponent(st, raw, hint).len as int),
            hint,
        }),
{
    reveal(scan_exponent);
    reveal(scan_digits);
    if st.rest.len() > 0 && is_exponent_marker(st.rest[0]) {
        let sign: nat = if st.rest.len() > 1 && is_sign(st.rest[1]) {
            1
        } else {
            0
        };
        let at = st.consume(1 + sign);
        let n = digit_run_len(at.rest, NumericPart::Exponent);
        lemma_digit_run_bound(at.rest, false);
        assert(st.rest.take(1 + sign as int) + at.rest.take(n as int) =~= st.rest.take(
            (1 + sign + n) as int,
        ));
        assert(raw + st.rest.take(1 + sign as int) + at.rest.take(n as int) =~= raw + st.rest.take(
            (1 + sign + n) as int,
        ));
    } else {
        assert(raw + st.rest.take(0) =~= raw);
    }
}

/// The text of a numeric literal with a fraction ends with what the
/// fraction and the exponent consumed.
proof fn lemma_fraction_text(st: LexerState, raw: Seq<char>)
    ensures
        scan_fraction(st, raw).result matches Ok(token) ==> token == (TokenView::Numeric {
            raw: raw + st.rest.take(scan_fraction(st, raw).len as int),
            hint: NumericHint::Float,
        }),
{
    reveal(scan_fraction);
    reveal(scan_digits);
    let n = digit_run_len(st.rest, NumericPart::Fraction);
    lemma_digit_run_bound(st.rest, false);
    match scan_digits(st, NumericPart::Fraction) {
        Ok(digits) => {
            let at = st.consume(n);
            let m = scan_exponent(at, raw + digits, NumericHint::Float).len;
            lemma_exponent_text(at, raw + digits, NumericHint::Float);
            lemma_scan_exponent_len(at, raw + digits, NumericHint::Float);
            assert(raw + digits + at.rest.take(m as int) =~= raw + st.rest.take((n + m) as int));
        },
        Err(_) => {},
    }
}

/// The numeric scanner gives numeric literals alone, and the text of each is
/// its first character and what the scanner consumed after it.
proof fn lemma_numeric_text(start: char, st: LexerState)
    ensures
        scan_numeric(start, st).result matches Ok(token) ==> token is Numeric && token.raw_text()
            == seq![start] + st.rest.take(scan_numeric(start, st).len as int),
{
    reveal(scan_digits);
    if start == '.' {
        lemma_fraction_text(st, seq![start]);
    } else if is_digit(start) {
        let n = digit_run_len(st.rest, NumericPart::Integer);
        lemma_digit_run_bound(st.rest, true);
        match scan_digits(st, NumericPart::Integer) {
            Ok(digits) => {
                let at = st.consume(n);
                let raw = seq![start] + digits;
                if at.rest.len() > 0 && at.rest[0] == '.' {
                    let dot = at.consume(1);
                    let m = scan_fraction(dot, raw.push('.')).len;
                    lemma_fraction_text(dot, raw.push('.'));
                    lemma_scan_fraction_len(dot, raw.push('.'));
                    assert(raw.push('.') + dot.rest.take(m as int) =~= seq![start] + st.rest.take(
                        (n + 1 + m) as int,
                    ));
                } else {
                    let m = scan_exponent(at, raw, NumericHint::Integer).len;
                    lemma_exponent_text(at, raw, NumericHint::Integer);
                    lemma_scan_exponent_len(at, raw, NumericHint::Integer);
                    assert(raw + at.rest.take(m as int) =~= seq![start] + st.rest.take(
                        (n + m) as int,
                    ));
                }
            },
            Err(_) => {},
        }
    }
}

/// The text of every token but a string literal is its first character and
/// what the sub-scanner consumed after it.
proof fn lemma_scan_text(c: char, st: LexerState)
    ensures
        scan_whitespace(c, st).result->Ok_0.raw_text() == seq![c] + st.rest.take(
            scan_whitespace(c, st).len as int,
        ),
        c == '<' && scan_tag(st).result is Ok ==> scan_tag(st).result->Ok_0.raw_text() == seq![c]
            + st.rest.take(scan_tag(st).len as int),
        scan_operator(c, st).result is Ok ==> scan_operator(c, st).result->Ok_0.raw_text()
            == seq![c] + st.rest.take(scan_operator(c, st).len as int),
        scan_identifier(c, st).result->Ok_0.raw_text() == seq![c] + st.rest.take(
            scan_identifier(c, st).len as int,
        ),
        c == '$' && scan_variable(st).result is Ok ==> scan_variable(st).result->Ok_0.raw_text()
            == seq![c] + st.rest.take(scan_variable(st).len as int),
{
    let s = st.rest;
    assert(c == '<' && scan_tag(st).result is Ok ==> scan_tag(st).result->Ok_0.raw_text()
        =~= seq![c] + s.take(scan_tag(st).len as int));
    assert(scan_operator(c, st).result is Ok ==> scan_operator(c, st).result->Ok_0.raw_text()
        =~= seq![c] + s.take(scan_operator(c, st).len as int));
}

/// Whether the step from `st` scans a string literal that the input ends in
/// before any quote closes it.
pub open spec fn leaves_literal_open(st: LexerState) -> bool {
    scan_token(st).result matches Ok(TokenView::LString(text)) && consumed(st) == text.len() + 1
}

/// The text of the token that begins with a consumed character is that
/// character and what the token consumed after it, but for a string literal
/// that the input ends in.
proof fn lemma_scan_from_text(c: char, line: nat, col: nat, st: LexerState)
    requires
        scan_from(c, line, col, st).result is Ok,
    ensures
        ({
            let step = scan_from(c, line, col, st);
            let token = step.result->Ok_0;
            let k = tail_len(c, line, col, st);
            if token matches TokenView::LString(text) && k == text.len() {
                &&& token.raw_text() == (seq![c] + st.rest).push('"')
                &&& step.next.rest.len() == 0
            } else {
                token.raw_text() == seq![c] + st.rest.take(k as int)
            }
        }),
{
    reveal(scan_from);
    st.lemma_consume_zero();
    lemma_scan_from_consumes(c, line, col, st);
    lemma_scan_text(c, st);
    let token = scan_from(c, line, col, st).result->Ok_0;
    let k = tail_len(c, line, col, st);
    if is_whitespace(c) {
        lemma_run_len_bound(st.rest, |c: char| is_whitespace(c));
    } else if c == '<' {
    } else if is_open_bracket(c) {
        assert(token.raw_text() =~= seq![c] + st.rest.take(0));
    } else if is_close_bracket(c) {
        assert(token.raw_text() =~= seq![c] + st.rest.take(0));
    } else if is_digit(c) {
        lemma_scan_numeric_len(c, st);
        lemma_numeric_text(c, st);
    } else if c == ';' {
        assert(token.raw_text() =~= seq![c] + st.rest.take(0));
    } else if c == '"' {
        let end = literal_end(st.rest, false);
        lemma_literal_end_bound(st.rest, false);
        lemma_literal_end_quote(st.rest, false);
        if end < st.rest.len() {
            assert(token.raw_text() =~= seq![c] + st.rest.take(end + 1 as int));
        } else {
            assert(st.rest.take(end as int) =~= st.rest);
            assert(token.raw_text() =~= (seq![c] + st.rest).push('"'));
        }
    } else if c == '=' || c == '-' || c == '+' || c == '.' {
    } else if is_ident_char(c) {
        lemma_run_len_bound(st.rest, |c: char| is_ident_char(c));
    } else if c == '$' {
        lemma_run_len_bound(st.rest, |c: char| is_ident_char(c));
    } else {
    }
}

/// A token stands for exactly the text that its step consumed. The one
/// exception is a string literal that the input ends in: its text has the
/// closing quote that the input lacks.
pub proof fn lemma_step_text(st: LexerState)
    requires
        scan_token(st).result is Ok,
    ensures
        !leaves_literal_open(st) ==> scan_token(st).result->Ok_0.raw_text() == lexeme(st),
        leaves_literal_open(st) ==> scan_token(st).result->Ok_0.raw_text() == st.rest.push('"')
            && scan_token(st).next.rest.len() == 0,
{
    lemma_step_consumes(st);
    if st.rest.len() == 0 {
        assert(lexeme(st) =~= Seq::<char>::empty());
    } else {
        let c = st.rest[0];
        let after = st.consume(1);
        let k = tail_len(c, st.pos.line, st.pos.col, after);
        lemma_scan_from_consumes(c, st.pos.line, st.pos.col, after);
        lemma_scan_from_text(c, st.pos.line, st.pos.col, after);
        st.lemma_consume_add(1, k);
        assert(consumed(st) == 1 + k);
        assert(seq![c] + after.rest =~= st.rest);
        assert(lexeme(st) =~= seq![c] + after.rest.take(k as int));
    }
}

/// The tokens that scanning yields from `st` to the end of the input, or
/// `None` where one of them is malformed.
pub open spec fn tokens_of(st: LexerState) -> Option<Seq<TokenView>>
    decreases st.rest.len(),
    via tokens_of_decreases
{
    if st.rest.len() == 0 {
        Some(Seq::empty())
    } else {
        match scan_token(st).result {
            Ok(token) => match tokens_of(scan_token(st).next) {
                Some(tail) => Some(seq![token] + tail),
                None => None,
            },
            Err(_) => None,
        }
    }
}

#[via_fn]
proof fn tokens_of_decreases(st: LexerState) {
    lemma_step_consumes(st);
}

/// Whether scanning from `st` to the end of the input ends in a string
/// literal that no quote closes.
pub open spec fn ends_in_open_literal(st: LexerState) -> bool
    decreases st.rest.len(),
    via ends_in_open_literal_decreases
{
    if st.rest.len() == 0 {
        false
    } else if leaves_literal_open(st) {
        true
    } else {
        scan_token(st).result is Ok && ends_in_open_literal(scan_token(st).next)
    }
}

#[via_fn]
proof fn ends_in_open_literal_decreases(st: LexerState) {
    lemma_step_consumes(st);
}

/// The texts of `tokens`, one after the other.
pub open spec fn concat_raw_text(tokens: Seq<TokenView>) -> Seq<char>
    decreases tokens.len(),
{
    if tokens.len() == 0 {
        Seq::empty()
    } else {
        tokens[0].raw_text() + concat_raw_text(tokens.drop_first())
    }
}

/// Round trip: where scanning reaches the end of the input, the texts of its
/// tokens, one after the other, spell the input. Where the input ends in a
/// string literal that no quote closes, they spell the input and that quote.
pub proof fn lemma_round_trip(st: LexerState)
    requires
        tokens_of(st) is Some,
    ensures
        concat_raw_text(tokens_of(st)->0) == (if ends_in_open_literal(st) {
            st.rest.push('"')
        } else {
            st.rest
        }),
    decreases st.rest.len(),
{
    if st.rest.len() == 0 {
        assert(st.rest =~= Seq::<char>::empty());
    } else {
        lemma_step_consumes(st);
        lemma_step_text(st);
        let step = scan_token(st);
        let token = step.result->Ok_0;
        let tail = tokens_of(step.next)->0;
        lemma_round_trip(step.next);
        assert((seq![token] + tail).drop_first() =~= tail);
        if leaves_literal_open(st) {
            assert(tail =~= Seq::<TokenView>::empty());
            assert(token.raw_text() + concat_raw_text(tail) =~= st.rest.push('"'));
        } else if ends_in_open_literal(step.next) {
            assert(lexeme(st) + step.next.rest.push('"') =~= st.rest.push('"'));
        }
    }
}

/// The end of the input is a terminal state: there the token is `EOF` and
/// the state stays as it is, so that every later call gives `EOF` again.
/// Nowhere else is the token `EOF`.
pub proof fn lemma_eof_is_terminal(st: LexerState)
    ensures
        st.rest.len() == 0 ==> scan_token(st).result == Ok::<TokenView, LexerErrorView>(
            TokenView::EOF,
        ) && scan_token(st).next == st,
        st.rest.len() == 0 ==> scan_token(scan_token(st).next).result == Ok::<
            TokenView,
            LexerErrorView,
        >(TokenView::EOF),
        scan_token(st).result == Ok::<TokenView, LexerErrorView>(TokenView::EOF) ==> st.rest.len()
            == 0,
{
    if st.rest.len() > 0 && scan_token(st).result is Ok {
        let c = st.rest[0];
        let after = st.consume(1);
        reveal(scan_from);
        lemma_numeric_text(c, after);
    }
}

/// The scanner gives the operator scanner no character that begins no
/// operator, and the numeric scanner none but digits: the error for an
/// unknown operator never leaves `next_token`, and the error for an invalid
/// numeric literal leaves it only for input that begins with a digit.
pub proof fn lemma_dispatch_is_sound(st: LexerState)
    ensures
        !(scan_token(st).result matches Err(LexerErrorView::UnknownOperator { .. })),
        scan_token(st).result matches Err(LexerErrorView::NonNumericLiteralInvalidChar { .. })
            ==> st.rest.len() > 0 && is_digit(st.rest[0]),
{
    reveal(scan_from);
    reveal(scan_digits);
    reveal(scan_exponent);
    reveal(scan_fraction);
}

/// The state after `n` tokens are scanned from `st`, or `None` where one of
/// them is malformed.
pub open spec fn after(st: LexerState, n: nat) -> Option<LexerState>
    decreases n,
{
    if n == 0 {
        Some(st)
    } else {
        match after(st, (n - 1) as nat) {
            Some(before) => if scan_token(before).result is Ok {
                Some(scan_token(before).next)
            } else {
                None
            },
            None => None,
        }
    }
}

/// The cursor tracks the input: whatever was scanned, the position is the
/// one that the consumed text leads to, character by character, and what is
/// left is the input after that text.
pub proof fn lemma_position_tracks_input(st: LexerState, n: nat)
    requires
        after(st, n) is Some,
        st.pos.col >= 1,
    ensures
        ({
            let now = after(st, n)->0;
            let k = now.pos.offset - st.pos.offset;
            &&& 0 <= k <= st.rest.len()
            &&& now.rest == st.rest.skip(k)
            &&& now.pos == st.pos.advance(st.rest.take(k))
            &&& now.pos.line >= st.pos.line
            &&& now.pos.col >= 1
        }),
    decreases n,
{
    if n == 0 {
        assert(st.rest.skip(0) =~= st.rest);
        assert(st.rest.take(0) =~= Seq::<char>::empty());
    } else {
        lemma_position_tracks_input(st, (n - 1) as nat);
        let before = after(st, (n - 1) as nat)->0;
        let now = after(st, n)->0;
        let j = before.pos.offset - st.pos.offset;
        lemma_step_consumes(before);
        let m = consumed(before);
        lemma_advance_bounds(before.pos, lexeme(before));
        lemma_advance_concat(st.pos, st.rest.take(j), lexeme(before));
        assert(st.rest.skip(j).skip(m as int) =~= st.rest.skip(j + m));
        assert(st.rest.take(j) + st.rest.skip(j).take(m as int) =~= st.rest.take(j + m));
    }
}

/// What a token adds to the depth of the brackets of the kind `open`: one
/// where it opens such a bracket, minus one where it closes one.
pub open spec fn depth_change(token: TokenView, open: char) -> int {
    match token {
        TokenView::Punctuation { raw, kind: PunctuationKindView::Open(_) } => if raw == open {
            1
        } else {
            0
        },
        TokenView::Punctuation { raw, kind: PunctuationKindView::Close(_) } => if opening_of(raw)
            == open {
            -1
        } else {
            0
        },
        _ => 0,
    }
}

/// Only brackets change the depths, each by one and only that of its kind;
/// a step that fails changes none. An opening bracket holds the depth that
/// it found, a closing bracket the depth that it leaves.
pub proof fn lemma_step_depths(st: LexerState, open: char)
    requires
        is_open_bracket(open),
    ensures
        (match scan_token(st).result {
            Ok(token) => scan_token(st).next.depths.of(open) == st.depths.of(open) + depth_change(
                token,
                open,
            ),
            Err(_) => scan_token(st).next.depths == st.depths,
        }),
        scan_token(st).result matches Ok(
            TokenView::Punctuation { raw, kind: PunctuationKindView::Open(depth) },
        ) ==> is_open_bracket(raw) && depth == st.depths.of(raw),
        scan_token(st).result matches Ok(
            TokenView::Punctuation { raw, kind: PunctuationKindView::Close(depth) },
        ) ==> is_close_bracket(raw) && depth == scan_token(st).next.depths.of(opening_of(raw)),
{
    if st.rest.len() > 0 {
        let c = st.rest[0];
        let after = st.consume(1);
        reveal(scan_from);
        lemma_numeric_text(c, after);
    }
}

/// How many brackets of the kind `open` the text `s` opens, less how many
/// it closes.
pub open spec fn balance(s: Seq<char>, open: char) -> int
    decreases s.len(),
{
    if s.len() == 0 {
        0
    } else if s.last() == open {
        balance(s.drop_last(), open) + 1
    } else if is_close_bracket(s.last()) && opening_of(s.last()) == open {
        balance(s.drop_last(), open) - 1
    } else {
        balance(s.drop_last(), open)
    }
}

/// A text of brackets alone in which no bracket closes what is not open.
pub open spec fn is_bracket_sequence(s: Seq<char>) -> bool {
    &&& forall|i: int| 0 <= i < s.len() ==> is_open_bracket(#[trigger] s[i]) || is_close_bracket(s[i])
    &&& forall|n: int, open: char|
        0 <= n <= s.len() && is_open_bracket(open) ==> #[trigger] balance(s.take(n), open) >= 0
}

/// A bracket sequence that closes every bracket it opens. Brackets of
/// different kinds need not nest in one another.
pub open spec fn is_well_formed_bracket_sequence(s: Seq<char>) -> bool {
    &&& is_bracket_sequence(s)
    &&& forall|open: char| is_open_bracket(open) ==> #[trigger] balance(s, open) == 0
}

/// The opening brackets that `s` leaves open, the innermost last; `None`
/// where `s` holds a character that is no bracket, or a closing bracket that
/// does not answer the innermost open one.
pub open spec fn open_brackets(s: Seq<char>) -> Option<Seq<char>>
    decreases s.len(),
{
    if s.len() == 0 {
        Some(Seq::empty())
    } else {
        match open_brackets(s.drop_last()) {
            Some(stack) => if is_open_bracket(s.last()) {
                Some(stack.push(s.last()))
            } else if is_close_bracket(s.last()) && stack.len() > 0 && stack.last() == opening_of(
                s.last(),
            ) {
                Some(stack.drop_last())
            } else {
                None
            },
            None => None,
        }
    }
}

/// A bracket sequence in which every closing bracket answers the innermost
/// open bracket, and no bracket is left open.
pub open spec fn is_properly_nested(s: Seq<char>) -> bool {
    open_brackets(s) == Some(Seq::<char>::empty())
}

/// Opening brackets alone close nothing.
proof fn lemma_balance_of_opens(stack: Seq<char>, open: char)
    requires
        forall|i: int| 0 <= i < stack.len() ==> is_open_bracket(#[trigger] stack[i]),
    ensures
        balance(stack, open) >= 0,
    decreases stack.len(),
{
    if stack.len() > 0 {
        assert forall|i: int| 0 <= i < stack.drop_last().len() implies is_open_bracket(
            #[trigger] stack.drop_last()[i],
        ) by {
            assert(stack.drop_last()[i] == stack[i]);
        }
        lemma_balance_of_opens(stack.drop_last(), open);
        assert(is_open_bracket(stack[stack.len() - 1]));
    }
}

/// What the brackets of a text add to a depth is what it leaves open: the
/// brackets left open are opening brackets, and there are as many of each
/// kind as the text opens, less those it closes.
proof fn lemma_open_brackets(s: Seq<char>, open: char)
    requires
        open_brackets(s) is Some,
        is_open_bracket(open),
    ensures
        forall|i: int| 0 <= i < s.len() ==> is_open_bracket(#[trigger] s[i]) || is_close_bracket(s[i]),
        forall|i: int|
            0 <= i < open_brackets(s)->0.len() ==> is_open_bracket(#[trigger] open_brackets(s)->0[i]),
        balance(s, open) == balance(open_brackets(s)->0, open),
        balance(open_brackets(s)->0, open) >= 0,
        forall|n: int| 0 <= n <= s.len() ==> (#[trigger] open_brackets(s.take(n))) is Some,
    decreases s.len(),
{
    if s.len() == 0 {
        assert forall|n: int| 0 <= n <= s.len() implies (#[trigger] open_brackets(
            s.take(n),
        )) is Some by {
            assert(s.take(n) =~= s);
        }
    } else {
        let before = s.drop_last();
        lemma_open_brackets(before, open);
        let stack = open_brackets(before)->0;
        let after = open_brackets(s)->0;
        let c = s.last();
        assert forall|i: int| 0 <= i < s.len() implies is_open_bracket(#[trigger] s[i])
            || is_close_bracket(s[i]) by {
            if i < s.len() - 1 {
                assert(s[i] == before[i]);
            }
        }
        if is_open_bracket(c) {
            assert(after.drop_last() =~= stack);
            assert(after.last() == c);
        } else {
            assert(is_open_bracket(stack[stack.len() - 1]));
            assert(after == stack.drop_last());
            assert forall|i: int| 0 <= i < after.len() implies is_open_bracket(
                #[trigger] after[i],
            ) by {
                assert(after[i] == stack[i]);
            }
        }
        lemma_balance_of_opens(after, open);
        assert forall|n: int| 0 <= n <= s.len() implies (#[trigger] open_brackets(
            s.take(n),
        )) is Some by {
            if n == s.len() {
                assert(s.take(n) =~= s);
            } else {
                assert(s.take(n) =~= before.take(n));
            }
        }
    }
}

/// A properly nested bracket sequence is well formed.
pub proof fn lemma_nested_is_well_formed(s: Seq<char>)
    requires
        is_properly_nested(s),
    ensures
        is_well_formed_bracket_sequence(s),
{
    lemma_open_brackets(s, '(');
    assert forall|n: int, open: char|
        0 <= n <= s.len() && is_open_bracket(open) implies #[trigger] balance(s.take(n), open)
        >= 0 by {
        lemma_open_brackets(s.take(n), open);
    }
    assert forall|open: char| is_open_bracket(open) implies #[trigger] balance(s, open) == 0 by {
        lemma_open_brackets(s, open);
    }
}

/// The depths `depths` after the brackets of `s` are counted in.
pub open spec fn depths_after(depths: Depths, s: Seq<char>) -> Depths {
    Depths {
        paren: (depths.paren + balance(s, '(')) as nat,
        bracket: (depths.bracket + balance(s, '[')) as nat,
        brace: (depths.brace + balance(s, '{')) as nat,
    }
}

/// Over a bracket sequence no token is malformed, every bracket is a token
/// of its own, and each depth is at every point the depth at the start and
/// the brackets of its kind opened since, less those closed.
pub proof fn lemma_bracket_depths(st: LexerState, n: nat)
    requires
        is_bracket_sequence(st.rest),
        n <= st.rest.len(),
    ensures
        after(st, n) == Some(
            LexerState {
                rest: st.rest.skip(n as int),
                pos: st.pos.advance(st.rest.take(n as int)),
                depths: depths_after(st.depths, st.rest.take(n as int)),
            },
        ),
    decreases n,
{
    let s = st.rest;
    if n == 0 {
        assert(s.skip(0) =~= s);
        assert(s.take(0) =~= Seq::<char>::empty());
    } else {
        let m = (n - 1) as nat;
        lemma_bracket_depths(st, m);
        let before = after(st, m)->0;
        let c = s[m as int];
        assert(before.rest[0] == c);
        assert(s.take(n as int).drop_last() =~= s.take(m as int));
        assert(s.take(n as int).last() == c);
        assert(balance(s.take(m as int), '(') >= 0);
        assert(balance(s.take(m as int), '[') >= 0);
        assert(balance(s.take(m as int), '{') >= 0);
        assert(balance(s.take(n as int), '(') >= 0);
        assert(balance(s.take(n as int), '[') >= 0);
        assert(balance(s.take(n as int), '{') >= 0);
        reveal(scan_from);
        before.lemma_consume_one();
        st.lemma_consume_add(m, 1);
        assert(before.consume(1).rest == s.skip(n as int));
        assert(before.consume(1).pos == st.pos.advance(s.take(n as int)));
    }
}

/// Over a well-formed bracket sequence every depth returns to what it was,
/// and at no point in between does a bracket close what is not open.
pub proof fn lemma_well_formed_brackets_restore_depths(st: LexerState)
    requires
        is_well_formed_bracket_sequence(st.rest),
    ensures
        after(st, st.rest.len()) matches Some(end) && end.depths == st.depths && end.rest.len() == 0,
        forall|n: nat| n <= st.rest.len() ==> (#[trigger] after(st, n)) is Some,
{
    lemma_bracket_depths(st, st.rest.len());
    assert(st.rest.take(st.rest.len() as int) =~= st.rest);
    assert forall|n: nat| n <= st.rest.len() implies (#[trigger] after(st, n)) is Some by {
        lemma_bracket_depths(st, n);
    }
}

} // verus!
