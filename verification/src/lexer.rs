//! The scanner: cursor, depth tracking and the sub-scanners behind `next_token`.
pub mod chars;
pub mod keywords;
pub mod laws;
pub mod model;
pub mod token;

use self::chars::{
    char_is_ascii_alphabetic, char_is_digit, char_is_ident, char_is_whitespace, is_close_bracket,
    is_open_bracket, opening_of,
};
use self::keywords::parse_keyword;
use self::model::{
    digit_run, digit_run_len, ident_run, lemma_digit_run_bound, lemma_scan_exponent_len,
    lemma_scan_fraction_len, literal_end, scan_close, scan_digits, scan_exponent, scan_fraction,
    scan_from, scan_identifier, scan_numeric, scan_open, scan_operator, scan_string, scan_tag,
    scan_token, scan_variable, scan_whitespace, whitespace_run, Depths, LexerErrorView,
    LexerState, NumericPart, Position,
};
use self::token::{
    DepthStateType, NumericHint, OperatorKind, PunctuationKind, TagKind, TokenType, TokenView,
};
use std::collections::HashMap;
use vstd::prelude::*;
use vstd::string::StringExecFns;

verus! {

/// Why a token could not be scanned, and where.
#[allow(inconsistent_fields)]
#[derive(Debug, PartialEq, Eq)]
pub enum LexerError {
    /// A letter or an underscore cut a numeric literal short.
    NonNumericLiteralInvalidChar { symbol: String, line: usize, col: usize },
    /// The input ended where `expected` had to follow.
    MissingExpectedSymbol { expected: String, found: TokenType, line: usize, col: usize },
    /// The operator scanner was given a character that begins no operator.
    UnknownOperator { raw: String, line: usize, col: usize },
    /// No rule matches the character, or an opening tag broke off.
    UnknownSymbol { symbol: String, line: usize, col: usize },
    /// A closing bracket that no opening bracket awaits.
    TokenDepthUnbalanced { symbol: char, line: usize, col: usize },
}

impl View for LexerError {
    type V = LexerErrorView;

    open spec fn view(&self) -> LexerErrorView {
        match self {
            LexerError::NonNumericLiteralInvalidChar { symbol, line, col } => {
                LexerErrorView::NonNumericLiteralInvalidChar {
                    symbol: symbol@,
                    line: *line as nat,
                    col: *col as nat,
                }
            },
            LexerError::MissingExpectedSymbol { expected, found, line, col } => {
                LexerErrorView::MissingExpectedSymbol {
                    expected: expected@,
                    found: found@,
                    line: *line as nat,
                    col: *col as nat,
                }
            },
            LexerError::UnknownOperator { raw, line, col } => LexerErrorView::UnknownOperator {
                raw: raw@,
                line: *line as nat,
                col: *col as nat,
            },
            LexerError::UnknownSymbol { symbol, line, col } => LexerErrorView::UnknownSymbol {
                symbol: symbol@,
                line: *line as nat,
                col: *col as nat,
            },
            LexerError::TokenDepthUnbalanced { symbol, line, col } => {
                LexerErrorView::TokenDepthUnbalanced {
                    symbol: *symbol,
                    line: *line as nat,
                    col: *col as nat,
                }
            },
        }
    }
}

/// The view of what a scanning function returns.
pub open spec fn result_view(result: Result<TokenType, LexerError>) -> Result<
    TokenView,
    LexerErrorView,
> {
    match result {
        Ok(token) => Ok(token@),
        Err(error) => Err(error@),
    }
}

/// A scanner over one input text.
pub struct Lexer {
    chars: Vec<char>,
    depth_state: HashMap<u32, DepthStateType>,
    cursor: usize,
    line: usize,
    col: usize,
}

/// Every depth is below the offset: of the characters consumed, one at least
/// has opened no bracket that is still counted.
spec fn has_room(st: LexerState) -> bool {
    &&& st.depths.paren < st.pos.offset
    &&& st.depths.bracket < st.pos.offset
    &&& st.depths.brace < st.pos.offset
}

/// The count that a depth map keeps for the bracket `open`: 0 where it keeps none.
pub open spec fn depth_count(map: Map<u32, DepthStateType>, open: char) -> nat {
    if map.contains_key(open as u32) {
        map[open as u32] as nat
    } else {
        0
    }
}

impl View for Lexer {
    type V = LexerState;

    closed spec fn view(&self) -> LexerState {
        LexerState {
            rest: self.chars@.skip(self.cursor as int),
            pos: Position {
                line: self.line as nat,
                col: self.col as nat,
                offset: self.cursor as nat,
            },
            depths: Depths {
                paren: depth_count(self.depth_state@, '('),
                bracket: depth_count(self.depth_state@, '['),
                brace: depth_count(self.depth_state@, '{'),
            },
        }
    }
}

impl Lexer {
    /// The invariant of a scanner: the cursor lies within the input, line and
    /// column count from 1 and have grown by no more than the cursor has, and
    /// no depth exceeds the number of characters consumed.
    pub closed spec fn wf(&self) -> bool {
        &&& self.cursor <= self.chars.len() < usize::MAX
        &&& 1 <= self.line
        &&& 1 <= self.col
        &&& self.line + self.col <= self.cursor + 2
        &&& forall|key: u32| #[trigger]
            self.depth_state@.contains_key(key) ==> self.depth_state@[key] <= self.cursor
    }

    /// In a well-formed scanner no depth exceeds the offset.
    pub proof fn lemma_depths_bounded(&self)
        requires
            self.wf(),
        ensures
            self@.depths.paren <= self@.pos.offset,
            self@.depths.bracket <= self@.pos.offset,
            self@.depths.brace <= self@.pos.offset,
    {
    }

    /// The characters of `text`, in their order.
    fn collect_chars(text: &str) -> (input: Vec<char>)
        ensures
            input@ == text@,
    {
        let mut input: Vec<char> = Vec::new();
        for c in it: text.chars()
            invariant
                it.seq() == text@,
                input@ == text@.take(it.index() as int),
        {
            input.push(c);
        }
        assert(input@ =~= text@);
        input
    }

    /// A scanner at the start of `input`, with no bracket open.
    fn over(input: Vec<char>) -> (lexer: Lexer)
        requires
            input@.len() < usize::MAX,
        ensures
            lexer.wf(),
            lexer@ == LexerState::initial(input@),
    {
        assert(input@.skip(0) =~= input@);
        Lexer { chars: input, depth_state: HashMap::new(), cursor: 0, line: 1, col: 1 }
    }

    /// A scanner at the start of `chars`, with no bracket open. The text must
    /// be short enough for the column after its last character to be counted.
    pub fn new(chars: &str) -> (lexer: Lexer)
        requires
            chars@.len() < usize::MAX,
        ensures
            lexer.wf(),
            lexer@ == LexerState::initial(chars@),
    {
        Lexer::over(Lexer::collect_chars(chars))
    }

    /// A scanner at the start of `chars`, as `new` makes it, for any text:
    /// `None` where the text is too long for `new`.
    pub fn try_new(chars: &str) -> (made: Option<Lexer>)
        ensures
            (match made {
                Some(lexer) => chars@.len() < usize::MAX && lexer.wf() && lexer@
                    == LexerState::initial(chars@),
                None => chars@.len() >= usize::MAX,
            }),
    {
        let input = Lexer::collect_chars(chars);
        if input.len() < usize::MAX {
            Some(Lexer::over(input))
        } else {
            None
        }
    }

    /// The line of the cursor, counted from 1.
    pub fn line(&self) -> (line: usize)
        ensures
            line == self@.pos.line,
    {
        self.line
    }

    /// The column of the cursor, counted from 1.
    pub fn col(&self) -> (col: usize)
        ensures
            col == self@.pos.col,
    {
        self.col
    }

    /// The number of characters consumed so far.
    pub fn offset(&self) -> (offset: usize)
        ensures
            offset == self@.pos.offset,
    {
        self.cursor
    }

    /// The opening bracket that the closing bracket `c` answers.
    fn map_depth_chars(c: &char) -> (open: char)
        requires
            is_close_bracket(*c),
        ensures
            open == opening_of(*c),
    {
        if *c == ')' {
            '('
        } else if *c == '}' {
            '{'
        } else {
            '['
        }
    }

    /// Counts one more open bracket of the kind `c` and returns the depth
    /// before.
    fn push_depth_map(&mut self, c: char) -> (depth: DepthStateType)
        requires
            old(self).wf(),
            is_open_bracket(c),
            has_room(old(self)@),
        ensures
            final(self).wf(),
            Ok::<TokenView, LexerErrorView>(
                (TokenType::Punctuation { raw: c, kind: PunctuationKind::Open(depth) })@,
            ) == scan_open(c, old(self)@).result,
            final(self)@ == scan_open(c, old(self)@).next,
    {
        let key: u32 = c as u32;
        let depth: DepthStateType = match self.depth_state.get(&key) {
            Some(count) => *count,
            None => 0,
        };
        self.depth_state.insert(key, depth + 1);
        depth
    }

    /// Counts one open bracket less of the kind that `c` closes and returns
    /// the depth after; `line` and `col` are where `c` stood.
    fn pop_depth_map(&mut self, c: char, line: usize, col: usize) -> (res: Result<
        DepthStateType,
        LexerError,
    >)
        requires
            old(self).wf(),
            is_close_bracket(c),
        ensures
            final(self).wf(),
            (match res {
                Ok(depth) => Ok(
                    (TokenType::Punctuation { raw: c, kind: PunctuationKind::Close(depth) })@,
                ),
                Err(error) => Err(error@),
            }) == scan_close(c, line as nat, col as nat, old(self)@).result,
            final(self)@ == scan_close(c, line as nat, col as nat, old(self)@).next,
    {
        let key: u32 = Lexer::map_depth_chars(&c) as u32;
        let depth: DepthStateType = match self.depth_state.get(&key) {
            Some(count) => *count,
            None => 0,
        };
        if depth >= 1 {
            self.depth_state.insert(key, depth - 1);
            Ok(depth - 1)
        } else {
            Err(LexerError::TokenDepthUnbalanced { symbol: c, line, col })
        }
    }

    /// The next character, which stays in the input.
    fn peek(&self) -> (next: Option<char>)
        requires
            self.wf(),
        ensures
            next == self@.peek(),
    {
        if self.cursor < self.chars.len() {
            Some(self.chars[self.cursor])
        } else {
            None
        }
    }

    /// Takes the next character out of the input and moves the cursor over it.
    fn consume_char(&mut self) -> (taken: Option<char>)
        requires
            old(self).wf(),
        ensures
            final(self).wf(),
            taken == old(self)@.peek(),
            taken is Some ==> final(self)@ == old(self)@.consume(1) && has_room(final(self)@),
            taken is None ==> final(self)@ == old(self)@,
    {
        if self.cursor < self.chars.len() {
            let c = self.chars[self.cursor];
            proof {
                self@.lemma_consume_one();
                assert(self.chars@.skip(self.cursor as int).drop_first() =~= self.chars@.skip(
                    self.cursor as int + 1,
                ));
            }
            self.cursor += 1;
            if c == '\n' {
                self.line += 1;
                self.col = 1;
            } else {
                self.col += 1;
            }
            Some(c)
        } else {
            None
        }
    }

    /// Consumes the next character if it is one of `candidates`.
    fn try_consume(&mut self, candidates: &[char]) -> (taken: Option<char>)
        requires
            old(self).wf(),
        ensures
            final(self).wf(),
            taken == (match old(self)@.peek() {
                Some(c) => if candidates@.contains(c) {
                    Some(c)
                } else {
                    None
                },
                None => None,
            }),
            taken is Some ==> final(self)@ == old(self)@.consume(1),
            taken is None ==> final(self)@ == old(self)@,
    {
        match self.peek() {
            Some(c) => {
                let mut i: usize = 0;
                let mut found = false;
                while i < candidates.len()
                    invariant
                        i <= candidates.len(),
                        found == (exists|j: int| 0 <= j < i && candidates@[j] == c),
                    decreases candidates.len() - i,
                {
                    if candidates[i] == c {
                        found = true;
                    }
                    i += 1;
                }
                if found {
                    self.consume_char()
                } else {
                    None
                }
            },
            None => None,
        }
    }

    /// The next character if it is whitespace; it stays in the input.
    fn parse_whitespace(&self) -> (next: Option<char>)
        requires
            self.wf(),
        ensures
            next == (match self@.peek() {
                Some(c) => if chars::is_whitespace(c) {
                    Some(c)
                } else {
                    None
                },
                None => None,
            }),
    {
        match self.peek() {
            Some(c) => {
                if char_is_whitespace(c) {
                    Some(c)
                } else {
                    None
                }
            },
            None => None,
        }
    }

    /// Scans the whitespace that follows the consumed whitespace character
    /// `start`, and returns the whole run.
    pub fn consume_whitespace(&mut self, start: char) -> (token: TokenType)
        requires
            old(self).wf(),
        ensures
            final(self).wf(),
            Ok::<TokenView, LexerErrorView>(token@) == scan_whitespace(start, old(self)@).result,
            final(self)@ == old(self)@.consume(scan_whitespace(start, old(self)@).len),
    {
        let mut whitespace = String::new();
        whitespace.push(start);
        let ghost st0 = self@;
        let ghost mut k: nat = 0;
        proof {
            st0.lemma_consume_zero();
        }
        loop
            invariant
                self.wf(),
                k <= st0.rest.len(),
                self@ == st0.consume(k),
                whitespace@ == seq![start] + st0.rest.take(k as int),
                whitespace_run(st0.rest) == k + whitespace_run(self@.rest),
            ensures
                whitespace_run(self@.rest) == 0,
            decreases self@.rest.len(),
        {
            match self.parse_whitespace() {
                Some(c) => {
                    self.consume_char();
                    whitespace.push(c);
                    proof {
                        st0.lemma_consume_add(k, 1);
                        assert(st0.rest.take(k + 1 as int) =~= st0.rest.take(k as int).push(c));
                        k = k + 1;
                    }
                },
                None => {
                    break ;
                },
            }
        }
        TokenType::Whitespace(whitespace)
    }

    /// Scans the name of a variable, whose `$` is consumed.
    fn parse_variable(&mut self) -> (res: Result<TokenType, LexerError>)
        requires
            old(self).wf(),
        ensures
            final(self).wf(),
            result_view(res) == scan_variable(old(self)@).result,
            final(self)@ == old(self)@.consume(scan_variable(old(self)@).len),
    {
        let mut var = String::new();
        let ghost st0 = self@;
        let ghost mut k: nat = 0;
        proof {
            st0.lemma_consume_zero();
        }
        if self.peek().is_none() {
            return Err(
                LexerError::MissingExpectedSymbol {
                    expected: "<variable name>".to_owned(),
                    found: TokenType::EOF,
                    line: self.line,
                    col: self.col,
                },
            );
        }
        loop
            invariant
                self.wf(),
                k <= st0.rest.len(),
                self@ == st0.consume(k),
                var@ == st0.rest.take(k as int),
                ident_run(st0.rest) == k + ident_run(self@.rest),
            ensures
                ident_run(self@.rest) == 0,
            decreases self@.rest.len(),
        {
            match self.peek() {
                Some(c) => {
                    if !char_is_ident(c) {
                        break ;
                    }
                    self.consume_char();
                    var.push(c);
                    proof {
                        st0.lemma_consume_add(k, 1);
                        assert(st0.rest.take(k + 1 as int) =~= st0.rest.take(k as int).push(c));
                        k = k + 1;
                    }
                },
                None => {
                    break ;
                },
            }
        }
        Ok(TokenType::Variable(var))
    }

    /// Scans the identifier or keyword that begins with the consumed
    /// character `start`.
    fn parse_identifier(&mut self, start: char) -> (res: Result<TokenType, LexerError>)
        requires
            old(self).wf(),
        ensures
            final(self).wf(),
            result_view(res) == scan_identifier(start, old(self)@).result,
            final(self)@ == old(self)@.consume(scan_identifier(start, old(self)@).len),
    {
        let mut ident = String::new();
        ident.push(start);
        let ghost st0 = self@;
        let ghost mut k: nat = 0;
        proof {
            st0.lemma_consume_zero();
        }
        loop
            invariant
                self.wf(),
                k <= st0.rest.len(),
                self@ == st0.consume(k),
                ident@ == seq![start] + st0.rest.take(k as int),
                ident_run(st0.rest) == k + ident_run(self@.rest),
            ensures
                ident_run(self@.rest) == 0,
            decreases self@.rest.len(),
        {
            match self.peek() {
                Some(c) => {
                    if !char_is_ident(c) {
                        break ;
                    }
                    self.consume_char();
                    ident.push(c);
                    proof {
                        st0.lemma_consume_add(k, 1);
                        assert(st0.rest.take(k + 1 as int) =~= st0.rest.take(k as int).push(c));
                        k = k + 1;
                    }
                },
                None => {
                    break ;
                },
            }
        }
        Ok(parse_keyword(ident))
    }

    /// Scans a string literal, whose opening quote is consumed.
    fn parse_string_literal(&mut self) -> (res: Result<TokenType, LexerError>)
        requires
            old(self).wf(),
        ensures
            final(self).wf(),
            result_view(res) == scan_string(old(self)@).result,
            final(self)@ == old(self)@.consume(scan_string(old(self)@).len),
    {
        let mut seen_backslash = false;
        let mut literal = String::new();
        let ghost st0 = self@;
        let ghost mut k: nat = 0;
        proof {
            st0.lemma_consume_zero();
        }
        loop
            invariant
                self.wf(),
                k <= st0.rest.len(),
                self@ == st0.consume(k),
                st0 == old(self)@,
                literal@ == st0.rest.take(k as int),
                literal_end(st0.rest, false) == k + literal_end(self@.rest, seen_backslash),
            decreases self@.rest.len(),
        {
            match self.peek() {
                Some(c) => {
                    self.consume_char();
                    proof {
                        st0.lemma_consume_add(k, 1);
                    }
                    if c == '"' && !seen_backslash {
                        return Ok(TokenType::LString(literal));
                    }
                    seen_backslash = c == '\\' && !seen_backslash;
                    literal.push(c);
                    proof {
                        assert(st0.rest.take(k + 1 as int) =~= st0.rest.take(k as int).push(c));
                        k = k + 1;
                    }
                },
                None => {
                    return Ok(TokenType::LString(literal));
                },
            }
        }
    }

    /// Scans what follows a consumed `<`: the rest of an opening tag, or
    /// nothing, which leaves the operator `<`.
    fn parse_php_open_tag(&mut self, start: char) -> (res: Result<TokenType, LexerError>)
        requires
            old(self).wf(),
            start == '<',
        ensures
            final(self).wf(),
            result_view(res) == scan_tag(old(self)@).result,
            final(self)@ == old(self)@.consume(scan_tag(old(self)@).len),
    {
        let mut tag = String::new();
        tag.push(start);
        let ghost st0 = self@;
        proof {
            st0.lemma_consume_zero();
        }
        match self.try_consume(&['?']) {
            Some(c) => {
                tag.push(c);
            },
            None => {
                return Ok(TokenType::Operator { raw: tag, kind: OperatorKind::LessThanOp });
            },
        }
        match self.try_consume(&['p']) {
            Some(c) => {
                tag.push(c);
                proof {
                    st0.lemma_consume_add(1, 1);
                }
            },
            None => {
                return Err(self.unknown_symbol());
            },
        }
        match self.try_consume(&['h']) {
            Some(c) => {
                tag.push(c);
                proof {
                    st0.lemma_consume_add(2, 1);
                }
            },
            None => {
                return Err(self.unknown_symbol());
            },
        }
        match self.try_consume(&['p']) {
            Some(c) => {
                tag.push(c);
                proof {
                    st0.lemma_consume_add(3, 1);
                }
            },
            None => {
                return Err(self.unknown_symbol());
            },
        }
        if self.parse_whitespace().is_some() {
            assert(tag@ =~= seq!['<', '?', 'p', 'h', 'p']);
            Ok(TokenType::Tag { raw: tag, kind: TagKind::PhpOpen })
        } else {
            Err(self.unknown_symbol())
        }
    }

    /// The error for an opening tag that broke off at the cursor.
    fn unknown_symbol(&self) -> (error: LexerError)
        ensures
            error@ == model::unknown_symbol(Seq::empty(), self@.pos),
    {
        LexerError::UnknownSymbol { symbol: String::new(), line: self.line, col: self.col }
    }

    /// Scans the operator that begins with the consumed character `start`.
    fn parse_operators(&mut self, start: char) -> (res: Result<TokenType, LexerError>)
        requires
            old(self).wf(),
        ensures
            final(self).wf(),
            result_view(res) == scan_operator(start, old(self)@).result,
            final(self)@ == old(self)@.consume(scan_operator(start, old(self)@).len),
    {
        let mut op = String::new();
        op.push(start);
        let ghost st0 = self@;
        proof {
            st0.lemma_consume_zero();
        }
        if start == '=' {
            if let Some(c) = self.try_consume(&['>']) {
                op.push(c);
                assert(op@ =~= seq!['=', '>']);
                Ok(TokenType::Operator { raw: op, kind: OperatorKind::DoubleArrowOp })
            } else if let Some(c) = self.try_consume(&['=']) {
                op.push(c);
                if let Some(c) = self.try_consume(&['=']) {
                    op.push(c);
                    proof {
                        st0.lemma_consume_add(1, 1);
                    }
                    assert(op@ =~= seq!['=', '=', '=']);
                    Ok(TokenType::Operator { raw: op, kind: OperatorKind::StrictEqualityOp })
                } else {
                    assert(op@ =~= seq!['=', '=']);
                    Ok(TokenType::Operator { raw: op, kind: OperatorKind::EqualityOp })
                }
            } else {
                assert(op@ =~= seq!['=']);
                Ok(TokenType::Operator { raw: op, kind: OperatorKind::AssignmentOp })
            }
        } else if start == '-' {
            if let Some(c) = self.try_consume(&['>']) {
                op.push(c);
                assert(op@ =~= seq!['-', '>']);
                Ok(TokenType::Operator { raw: op, kind: OperatorKind::ObjectOp })
            } else {
                assert(op@ =~= seq!['-']);
                Ok(TokenType::Operator { raw: op, kind: OperatorKind::MinusOp })
            }
        } else if start == '+' {
            assert(op@ =~= seq!['+']);
            Ok(TokenType::Operator { raw: op, kind: OperatorKind::PlusOp })
        } else if start == '.' {
            assert(op@ =~= seq!['.']);
            Ok(TokenType::Operator { raw: op, kind: OperatorKind::ConcatOp })
        } else {
            assert(op@ =~= seq![start]);
            Err(LexerError::UnknownOperator { raw: op, line: self.line, col: self.col })
        }
    }

    /// Scans one run of digits of a numeric literal.
    fn parse_digits(&mut self, part: NumericPart) -> (res: Result<String, LexerError>)
        requires
            old(self).wf(),
        ensures
            final(self).wf(),
            (match res {
                Ok(digits) => Ok(digits@),
                Err(error) => Err(error@),
            }) == scan_digits(old(self)@, part),
            final(self)@ == old(self)@.consume(digit_run_len(old(self)@.rest, part)),
    {
        let mut num = String::new();
        let in_exponent = match part {
            NumericPart::Exponent => true,
            _ => false,
        };
        let mut started = match part {
            NumericPart::Integer => true,
            _ => false,
        };
        let ghost st0 = self@;
        let ghost mut k: nat = 0;
        proof {
            st0.lemma_consume_zero();
        }
        loop
            invariant
                self.wf(),
                st0 == old(self)@,
                k <= st0.rest.len(),
                self@ == st0.consume(k),
                num@ == st0.rest.take(k as int),
                started == (part is Integer || k > 0),
                in_exponent == (part is Exponent),
                digit_run_len(st0.rest, part) == k + digit_run(self@.rest, started),
            decreases self@.rest.len(),
        {
            reveal(scan_digits);
            match self.peek() {
                None => {
                    return if started {
                        Ok(num)
                    } else {
                        Err(
                            LexerError::MissingExpectedSymbol {
                                expected: "<number>".to_owned(),
                                found: TokenType::EOF,
                                line: self.line,
                                col: self.col,
                            },
                        )
                    };
                },
                Some(c) => {
                    if char_is_digit(c) || (c == '_' && started) {
                        self.consume_char();
                        num.push(c);
                        started = true;
                        proof {
                            st0.lemma_consume_add(k, 1);
                            assert(st0.rest.take(k + 1 as int) =~= st0.rest.take(k as int).push(
                                c,
                            ));
                            k = k + 1;
                        }
                    } else if c == '_' || (char_is_ascii_alphabetic(c) && (in_exponent || !(c
                        == 'e' || c == 'E'))) {
                        return Err(
                            LexerError::NonNumericLiteralInvalidChar {
                                symbol: num,
                                line: self.line,
                                col: self.col,
                            },
                        );
                    } else {
                        return Ok(num);
                    }
                },
            }
        }
    }

    /// Scans the end of a numeric literal: an exponent, if one follows.
    /// `num` is the literal so far.
    fn parse_exponent(&mut self, num: String, hint: NumericHint) -> (res: Result<
        TokenType,
        LexerError,
    >)
        requires
            old(self).wf(),
        ensures
            final(self).wf(),
            result_view(res) == scan_exponent(old(self)@, num@, hint).result,
            final(self)@ == old(self)@.consume(scan_exponent(old(self)@, num@, hint).len),
    {
        reveal(scan_exponent);
        let ghost raw = num@;
        let mut num = num;
        let ghost st0 = self@;
        proof {
            st0.lemma_consume_zero();
        }
        if let Some(c) = self.try_consume(&['e', 'E']) {
            num.push(c);
            let ghost mut sign: nat = 0;
            if let Some(c) = self.try_consume(&['+', '-']) {
                num.push(c);
                proof {
                    sign = 1;
                    st0.lemma_consume_add(1, 1);
                }
            }
            let ghost at = self@;
            match self.parse_digits(NumericPart::Exponent) {
                Ok(digits) => {
                    num.append(digits.as_str());
                    proof {
                        lemma_digit_run_bound(at.rest, false);
                        st0.lemma_consume_add(
                            1 + sign,
                            digit_run_len(at.rest, NumericPart::Exponent),
                        );
                        assert(num@ =~= raw + st0.rest.take(1 + sign as int) + digits@);
                    }
                    Ok(TokenType::Numeric { raw: num, hint })
                },
                Err(error) => {
                    proof {
                        lemma_digit_run_bound(at.rest, false);
                        st0.lemma_consume_add(
                            1 + sign,
                            digit_run_len(at.rest, NumericPart::Exponent),
                        );
                    }
                    Err(error)
                },
            }
        } else {
            Ok(TokenType::Numeric { raw: num, hint })
        }
    }

    /// Scans a numeric literal from the digits of its fraction on. `num` is
    /// the literal up to the `.`, which is consumed.
    fn parse_fraction(&mut self, num: String) -> (res: Result<TokenType, LexerError>)
        requires
            old(self).wf(),
        ensures
            final(self).wf(),
            result_view(res) == scan_fraction(old(self)@, num@).result,
            final(self)@ == old(self)@.consume(scan_fraction(old(self)@, num@).len),
    {
        reveal(scan_fraction);
        let mut num = num;
        let ghost st0 = self@;
        match self.parse_digits(NumericPart::Fraction) {
            Ok(digits) => {
                num.append(digits.as_str());
                let ghost at = self@;
                let ghost raw = num@;
                let res = self.parse_exponent(num, NumericHint::Float);
                proof {
                    lemma_digit_run_bound(st0.rest, false);
                    lemma_scan_exponent_len(at, raw, NumericHint::Float);
                    st0.lemma_consume_add(
                        digit_run_len(st0.rest, NumericPart::Fraction),
                        scan_exponent(at, raw, NumericHint::Float).len,
                    );
                }
                res
            },
            Err(error) => Err(error),
        }
    }

    /// Scans the numeric literal that begins with the consumed character
    /// `start`.
    fn parse_numeric(&mut self, start: char) -> (res: Result<TokenType, LexerError>)
        requires
            old(self).wf(),
        ensures
            final(self).wf(),
            result_view(res) == scan_numeric(start, old(self)@).result,
            final(self)@ == old(self)@.consume(scan_numeric(start, old(self)@).len),
    {
        let mut num = String::new();
        num.push(start);
        let ghost st0 = self@;
        proof {
            st0.lemma_consume_zero();
        }
        if start == '.' {
            self.parse_fraction(num)
        } else if char_is_digit(start) {
            match self.parse_digits(NumericPart::Integer) {
                Ok(digits) => {
                    num.append(digits.as_str());
                    let ghost n = digit_run_len(st0.rest, NumericPart::Integer);
                    let ghost at = self@;
                    if let Some(c) = self.try_consume(&['.']) {
                        num.push(c);
                        let ghost dot = self@;
                        let ghost raw = num@;
                        let res = self.parse_fraction(num);
                        proof {
                            lemma_digit_run_bound(st0.rest, true);
                            lemma_scan_fraction_len(dot, raw);
                            at.lemma_consume_add(1, scan_fraction(dot, raw).len);
                            st0.lemma_consume_add(n, 1 + scan_fraction(dot, raw).len);
                        }
                        res
                    } else {
                        let ghost raw = num@;
                        let res = self.parse_exponent(num, NumericHint::Integer);
                        proof {
                            lemma_digit_run_bound(st0.rest, true);
                            lemma_scan_exponent_len(at, raw, NumericHint::Integer);
                            st0.lemma_consume_add(n, scan_exponent(at, raw, NumericHint::Integer).len);
                        }
                        res
                    }
                },
                Err(error) => Err(error),
            }
        } else {
            Err(
                LexerError::NonNumericLiteralInvalidChar {
                    symbol: num,
                    line: self.line,
                    col: self.col,
                },
            )
        }
    }

    /// Looks for a digit at the cursor and leaves it there. `raw` is the
    /// literal that the digit would continue.
    #[allow(dead_code)]
    fn consume_digit(&self, raw: &String) -> (res: Result<char, LexerError>)
        requires
            self.wf(),
        ensures
            (match res {
                Ok(c) => self@.peek() == Some(c) && chars::is_digit(c),
                Err(error) => error@ == model::invalid_numeric(raw@, self@.pos) && !(
                self@.peek() matches Some(c) && chars::is_digit(c)),
            }),
    {
        match self.peek() {
            Some(c) => {
                if char_is_digit(c) {
                    Ok(c)
                } else {
                    Err(
                        LexerError::NonNumericLiteralInvalidChar {
                            symbol: raw.clone(),
                            line: self.line,
                            col: self.col,
                        },
                    )
                }
            },
            None => Err(
                LexerError::NonNumericLiteralInvalidChar {
                    symbol: raw.clone(),
                    line: self.line,
                    col: self.col,
                },
            ),
        }
    }

    /// Scans the token that begins with the consumed character `c`, which
    /// stood at `line` and `col`.
    fn transform_to_type(&mut self, c: char, line: usize, col: usize) -> (res: Result<
        TokenType,
        LexerError,
    >)
        requires
            old(self).wf(),
            has_room(old(self)@),
        ensures
            final(self).wf(),
            result_view(res) == scan_from(c, line as nat, col as nat, old(self)@).result,
            final(self)@ == scan_from(c, line as nat, col as nat, old(self)@).next,
    {
        reveal(scan_from);
        if char_is_whitespace(c) {
            Ok(self.consume_whitespace(c))
        } else if c == '<' {
            self.parse_php_open_tag(c)
        } else if c == '(' || c == '[' || c == '{' {
            Ok(TokenType::Punctuation { raw: c, kind: PunctuationKind::Open(self.push_depth_map(c)) })
        } else if c == ')' || c == ']' || c == '}' {
            match self.pop_depth_map(c, line, col) {
                Ok(depth) => Ok(
                    TokenType::Punctuation { raw: c, kind: PunctuationKind::Close(depth) },
                ),
                Err(error) => Err(error),
            }
        } else if char_is_digit(c) {
            self.parse_numeric(c)
        } else if c == ';' {
            Ok(TokenType::Punctuation { raw: c, kind: PunctuationKind::Separator })
        } else if c == '"' {
            self.parse_string_literal()
        } else if c == '=' || c == '-' || c == '+' || c == '.' {
            self.parse_operators(c)
        } else if char_is_ident(c) {
            self.parse_identifier(c)
        } else if c == '$' {
            self.parse_variable()
        } else {
            let mut symbol = String::new();
            symbol.push(c);
            assert(symbol@ =~= seq![c]);
            Err(LexerError::UnknownSymbol { symbol, line, col })
        }
    }

    /// Scans the next token. At the end of the input the token is `EOF`,
    /// however often it is asked for.
    pub fn next_token(&mut self) -> (res: Result<TokenType, LexerError>)
        requires
            old(self).wf(),
        ensures
            final(self).wf(),
            result_view(res) == scan_token(old(self)@).result,
            final(self)@ == scan_token(old(self)@).next,
    {
        let line: usize = self.line;
        let col: usize = self.col;
        proof {
            self.lemma_view_position();
        }
        match self.consume_char() {
            Some(c) => self.transform_to_type(c, line, col),
            None => Ok(TokenType::EOF),
        }
    }

    /// The view shows the line and the column that the scanner holds.
    proof fn lemma_view_position(&self)
        ensures
            self@.pos.line == self.line,
            self@.pos.col == self.col,
    {
    }
}

} // verus!
