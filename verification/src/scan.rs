//! The cursor-driven scanner.
//!
//! `Scanner::scan` walks the source once, left to right, and returns either
//! the full token sequence or the first lexical error.  Its contract ties
//! the result to the scanning relation in `model`: the tokens are exactly
//! what `spec_scan_from` denotes for the starting state.

use vstd::prelude::*;
use crate::grammar::{
    base_after, comment_end, count_nl, digits_end, ident_end, number_end, string_close,
};
use crate::model::{spec_keyword, spec_next, spec_scan_from, NextV, ScanErrorV};
use crate::object::Object;
use crate::token::{Token, TokenType, TokenV};

verus! {

/// A lexical failure.  Each variant carries enough context for a precise
/// diagnostic; every one is terminal for the scan that raised it.
///
/// `InvalidNumber` reports a numeric lexeme that matched the digit grammar
/// yet failed to decode; the scanner itself never produces it (the grammar
/// makes it unreachable), but the taxonomy keeps it for a driver that
/// decodes numeric lexemes and wants the same error shape.
#[derive(Debug, Clone, PartialEq, Eq)]
pub enum ScanError {
    InvalidToken(u8, usize, usize),
    UnterminatedString(usize, usize),
    InvalidNumber(Vec<u8>, usize, usize),
}

impl View for ScanError {
    type V = ScanErrorV;

    open spec fn view(&self) -> ScanErrorV {
        match self {
            ScanError::InvalidToken(c, l, col) => ScanErrorV::InvalidToken(
                *c,
                *l as int,
                *col as int,
            ),
            ScanError::UnterminatedString(l, col) => ScanErrorV::UnterminatedString(
                *l as int,
                *col as int,
            ),
            ScanError::InvalidNumber(lex, l, col) => ScanErrorV::InvalidNumber(
                lex@,
                *l as int,
                *col as int,
            ),
        }
    }
}

/// The views of a token sequence.
pub open spec fn token_views(ts: Seq<Token>) -> Seq<TokenV> {
    ts.map_values(|t: Token| t@)
}

/// Copies the byte range `[lo, hi)` of `src` out into a fresh vector.
pub(crate) fn copy_range(src: &Vec<u8>, lo: usize, hi: usize) -> (r: Vec<u8>)
    requires
        lo <= hi <= src@.len(),
    ensures
        r@ == src@.subrange(lo as int, hi as int),
{
    let mut out: Vec<u8> = Vec::new();
    let mut i: usize = lo;
    while i < hi
        invariant
            lo <= i <= hi <= src@.len(),
            out@ == src@.subrange(lo as int, i as int),
        decreases hi - i,
    {
        out.push(src[i]);
        proof {
            assert(src@.subrange(lo as int, i + 1 as int) =~= src@.subrange(lo as int, i as int)
                .push(src@[i as int]));
        }
        i = i + 1;
    }
    out
}

/// Exact-match lookup of a whole identifier lexeme in the reserved-word
/// table.
fn lookup_keyword(lex: &Vec<u8>) -> (r: Option<TokenType>)
    ensures
        match r {
            Some(k) => spec_keyword(lex@) == Some(k@),
            None => spec_keyword(lex@) is None,
        },
{
    let n = lex.len();
    if n == 2 {
        if lex[0] == ('i' as u8) && lex[1] == ('f' as u8) {
            proof {
                assert(lex@ =~= seq!['i' as u8, 'f' as u8]);
            }
            return Some(TokenType::If);
        }
        if lex[0] == ('o' as u8) && lex[1] == ('r' as u8) {
            proof {
                assert(lex@ =~= seq!['o' as u8, 'r' as u8]);
            }
            return Some(TokenType::Or);
        }
    } else if n == 3 {
        if lex[0] == ('a' as u8) && lex[1] == ('n' as u8) && lex[2] == ('d' as u8) {
            proof {
                assert(lex@ =~= seq!['a' as u8, 'n' as u8, 'd' as u8]);
            }
            return Some(TokenType::And);
        }
        if lex[0] == ('f' as u8) && lex[1] == ('o' as u8) && lex[2] == ('r' as u8) {
            proof {
                assert(lex@ =~= seq!['f' as u8, 'o' as u8, 'r' as u8]);
            }
            return Some(TokenType::For);
        }
        if lex[0] == ('f' as u8) && lex[1] == ('u' as u8) && lex[2] == ('n' as u8) {
            proof {
                assert(lex@ =~= seq!['f' as u8, 'u' as u8, 'n' as u8]);
            }
            return Some(TokenType::Fun);
        }
        if lex[0] == ('n' as u8) && lex[1] == ('i' as u8) && lex[2] == ('l' as u8) {
            proof {
                assert(lex@ =~= seq!['n' as u8, 'i' as u8, 'l' as u8]);
            }
            return Some(TokenType::Nil);
        }
        if lex[0] == ('v' as u8) && lex[1] == ('a' as u8) && lex[2] == ('r' as u8) {
            proof {
                assert(lex@ =~= seq!['v' as u8, 'a' as u8, 'r' as u8]);
            }
            return Some(TokenType::Var);
        }
    } else if n == 4 {
        if lex[0] == ('e' as u8) && lex[1] == ('l' as u8) && lex[2] == ('s' as u8) && lex[3] == (
        'e' as u8) {
            proof {
                assert(lex@ =~= seq!['e' as u8, 'l' as u8, 's' as u8, 'e' as u8]);
            }
            return Some(TokenType::Else);
        }
        if lex[0] == ('t' as u8) && lex[1] == ('h' as u8) && lex[2] == ('i' as u8) && lex[3] == (
        's' as u8) {
            proof {
                assert(lex@ =~= seq!['t' as u8, 'h' as u8, 'i' as u8, 's' as u8]);
            }
            return Some(TokenType::This);
        }
        if lex[0] == ('t' as u8) && lex[1] == ('r' as u8) && lex[2] == ('u' as u8) && lex[3] == (
        'e' as u8) {
            proof {
                assert(lex@ =~= seq!['t' as u8, 'r' as u8, 'u' as u8, 'e' as u8]);
            }
            return Some(TokenType::True);
        }
    } else if n == 5 {
        if lex[0] == ('c' as u8) && lex[1] == ('l' as u8) && lex[2] == ('a' as u8) && lex[3] == (
        's' as u8) && lex[4] == ('s' as u8) {
            proof {
                assert(lex@ =~= seq!['c' as u8, 'l' as u8, 'a' as u8, 's' as u8, 's' as u8]);
            }
            return Some(TokenType::Class);
        }
        if lex[0] == ('f' as u8) && lex[1] == ('a' as u8) && lex[2] == ('l' as u8) && lex[3] == (
        's' as u8) && lex[4] == ('e' as u8) {
            proof {
                assert(lex@ =~= seq!['f' as u8, 'a' as u8, 'l' as u8, 's' as u8, 'e' as u8]);
            }
            return Some(TokenType::False);
        }
        if lex[0] == ('p' as u8) && lex[1] == ('r' as u8) && lex[2] == ('i' as u8) && lex[3] == (
        'n' as u8) && lex[4] == ('t' as u8) {
            proof {
                assert(lex@ =~= seq!['p' as u8, 'r' as u8, 'i' as u8, 'n' as u8, 't' as u8]);
            }
            return Some(TokenType::Print);
        }
        if lex[0] == ('s' as u8) && lex[1] == ('u' as u8) && lex[2] == ('p' as u8) && lex[3] == (
        'e' as u8) && lex[4] == ('r' as u8) {
            proof {
                assert(lex@ =~= seq!['s' as u8, 'u' as u8, 'p' as u8, 'e' as u8, 'r' as u8]);
            }
            return Some(TokenType::Super);
        }
        if lex[0] == ('w' as u8) && lex[1] == ('h' as u8) && lex[2] == ('i' as u8) && lex[3] == (
        'l' as u8) && lex[4] == ('e' as u8) {
            proof {
                assert(lex@ =~= seq!['w' as u8, 'h' as u8, 'i' as u8, 'l' as u8, 'e' as u8]);
            }
            return Some(TokenType::While);
        }
    } else if n == 6 {
        if lex[0] == ('r' as u8) && lex[1] == ('e' as u8) && lex[2] == ('t' as u8) && lex[3] == (
        'u' as u8) && lex[4] == ('r' as u8) && lex[5] == ('n' as u8) {
            proof {
                assert(lex@ =~= seq!['r' as u8, 'e' as u8, 't' as u8, 'u' as u8, 'r' as u8, 'n' as u8]);
            }
            return Some(TokenType::Return);
        }
    }
    None
}

/// The scanner's cursor state over an in-memory source buffer.
///
/// `start` marks the first byte of the token being scanned, `current` the
/// next unconsumed byte, `line` the 0-based line the cursor sits on, and
/// `cum_line_len` the cumulative length of all completed lines, so that a
/// column is an absolute index minus `cum_line_len`.
pub struct Scanner {
    pub source: Vec<u8>,
    pub start: usize,
    pub current: usize,
    pub line: usize,
    pub cum_line_len: usize,
}

impl Scanner {
    /// The cursor invariant: marks stay ordered and inside the buffer, and
    /// the line and baseline counters never outrun the cursor.
    pub open spec fn wf(&self) -> bool {
        &&& self.start <= self.current <= self.source@.len()
        &&& self.cum_line_len <= self.current
        &&& self.line <= self.current
    }

    /// A scanner at the very start of `source`: line 0, column 0.
    pub fn new(source: Vec<u8>) -> (r: Scanner)
        ensures
            r.wf(),
            r.source@ == source@,
            r.start == 0,
            r.current == 0,
            r.line == 0,
            r.cum_line_len == 0,
    {
        Scanner { source, start: 0, current: 0, line: 0, cum_line_len: 0 }
    }

    /// True once every byte has been consumed.
    fn is_done(&self) -> (r: bool)
        ensures
            r == (self.current >= self.source@.len()),
    {
        self.current >= self.source.len()
    }

    /// The column of absolute index `idx`, measured from the current
    /// baseline.
    fn col(&self, idx: usize) -> (r: usize)
        requires
            self.cum_line_len <= idx,
        ensures
            r == idx - self.cum_line_len,
    {
        idx - self.cum_line_len
    }

    /// Lookahead at the next unconsumed byte, without consuming it.
    fn peek(&self) -> (r: Option<u8>)
        ensures
            r == (if self.current < self.source@.len() {
                Some(self.source@[self.current as int])
            } else {
                None::<u8>
            }),
    {
        if self.is_done() {
            None
        } else {
            Some(self.source[self.current])
        }
    }

    /// Lookahead one byte past `peek`, without consuming.
    fn peek_next(&self) -> (r: Option<u8>)
        ensures
            r == (if self.current + 1 < self.source@.len() {
                Some(self.source@[self.current + 1])
            } else {
                None::<u8>
            }),
    {
        if self.current < self.source.len() && self.source.len() - self.current > 1 {
            Some(self.source[self.current + 1])
        } else {
            None
        }
    }

    /// Consumes one byte only if it equals `expected`.
    fn matches(&mut self, expected: u8) -> (r: bool)
        requires
            old(self).wf(),
        ensures
            final(self).wf(),
            final(self).source@ == old(self).source@,
            final(self).start == old(self).start,
            final(self).line == old(self).line,
            final(self).cum_line_len == old(self).cum_line_len,
            r == (old(self).current < old(self).source@.len() && old(self).source@[old(
                self,
            ).current as int] == expected),
            final(self).current == if r {
                old(self).current + 1
            } else {
                old(self).current as int
            },
    {
        if self.current >= self.source.len() {
            false
        } else if self.source[self.current] != expected {
            false
        } else {
            self.current = self.current + 1;
            true
        }
    }

    /// Returns the byte under the cursor and moves past it; at the end of
    /// the input it returns nothing and stays put.
    fn advance(&mut self) -> (r: Option<u8>)
        requires
            old(self).wf(),
        ensures
            final(self).wf(),
            final(self).source@ == old(self).source@,
            final(self).start == old(self).start,
            final(self).line == old(self).line,
            final(self).cum_line_len == old(self).cum_line_len,
            r == (if old(self).current < old(self).source@.len() {
                Some(old(self).source@[old(self).current as int])
            } else {
                None::<u8>
            }),
            final(self).current == if old(self).current < old(self).source@.len() {
                old(self).current + 1
            } else {
                old(self).current as int
            },
    {
        if self.current >= self.source.len() {
            None
        } else {
            let c = self.source[self.current];
            self.current = self.current + 1;
            Some(c)
        }
    }
    /// Builds a token for the source slice `[start, current)`, which must
    /// sit on a single line: both columns are measured from the current
    /// baseline.
    fn get_token(&self, kind: TokenType, object: Object) -> (r: Token)
        requires
            self.wf(),
            self.cum_line_len <= self.start,
        ensures
            r@ == crate::model::simple_token_v(
                self.source@,
                self.start as int,
                self.current as int,
                self.line as int,
                self.cum_line_len as int,
                kind@,
                object@,
            ),
    {
        let lexeme = copy_range(&self.source, self.start, self.current);
        Token::new(
            kind,
            lexeme,
            object,
            self.line,
            self.start,
            self.current,
            self.start - self.cum_line_len,
            self.current - self.cum_line_len,
        )
    }

    /// Consumes a string literal's body and closing quote.  On entry the
    /// opening quote at `start` has just been consumed.  Returns the text
    /// strictly between the quotes, or the unterminated-string error
    /// positioned at the opening quote.  Line feeds inside the literal move
    /// the line counter and the column baseline exactly as they do outside.
    #[verifier::loop_isolation(false)]
    fn string(&mut self) -> (r: Result<Vec<u8>, ScanError>)
        requires
            old(self).wf(),
            old(self).start < old(self).source@.len(),
            old(self).current == old(self).start + 1,
            old(self).cum_line_len <= old(self).start,
        ensures
            final(self).wf(),
            final(self).source@ == old(self).source@,
            final(self).start == old(self).start,
            match string_close(old(self).source@, old(self).current as int) {
                Some(j) => {
                    &&& r matches Ok(lit) && lit@ == old(self).source@.subrange(
                        old(self).start + 1,
                        j,
                    )
                    &&& final(self).current == j + 1
                    &&& final(self).line == old(self).line + count_nl(
                        old(self).source@,
                        old(self).current as int,
                        j,
                    )
                    &&& final(self).cum_line_len == base_after(
                        old(self).source@,
                        old(self).current as int,
                        j,
                        old(self).cum_line_len as int,
                    )
                },
                None => r matches Err(e) && e@ == ScanErrorV::UnterminatedString(
                    old(self).line as int,
                    old(self).start - old(self).cum_line_len,
                ),
            },
    {
        let ghost s = self.source@;
        let ghost c0 = self.current as int;
        let ghost l0 = self.line as int;
        let ghost b0 = self.cum_line_len as int;
        let start_line = self.line;
        let start_col = self.start - self.cum_line_len;
        loop
            invariant
                self.wf(),
                self.source@ == s,
                self.start == old(self).start,
                self.start < self.current,
                c0 <= self.current as int <= s.len(),
                string_close(s, c0) == string_close(s, self.current as int),
                self.line as int == l0 + count_nl(s, c0, self.current as int),
                self.cum_line_len as int == base_after(s, c0, self.current as int, b0),
                start_line as int == l0,
                start_col as int == old(self).start - b0,
            decreases s.len() - self.current,
        {
            if self.current >= self.source.len() {
                return Err(ScanError::UnterminatedString(start_line, start_col));
            }
            let c = self.source[self.current];
            if c == ('"' as u8) {
                break;
            }
            if c == ('\n' as u8) {
                self.line = self.line + 1;
                self.current = self.current + 1;
                self.cum_line_len = self.current;
            } else {
                self.current = self.current + 1;
            }
        }
        let j = self.current;
        self.current = self.current + 1;
        let lit = copy_range(&self.source, self.start + 1, j);
        Ok(lit)
    }

    /// Consumes the rest of a number lexeme.  On entry the first digit at
    /// `start` has just been consumed; on return the cursor sits at the end
    /// of the maximal `digits(.digits)?` lexeme.  A trailing dot without a
    /// digit after it is left for the next token.
    #[verifier::loop_isolation(false)]
    fn number(&mut self)
        requires
            old(self).wf(),
            old(self).start < old(self).source@.len(),
            old(self).current == old(self).start + 1,
            crate::grammar::is_digit(old(self).source@[old(self).start as int]),
        ensures
            final(self).wf(),
            final(self).source@ == old(self).source@,
            final(self).start == old(self).start,
            final(self).line == old(self).line,
            final(self).cum_line_len == old(self).cum_line_len,
            final(self).current == number_end(old(self).source@, old(self).start as int),
    {
        let ghost s = self.source@;
        let ghost p0 = self.start as int;
        proof {
            assert(digits_end(s, p0) == digits_end(s, p0 + 1));
        }
        while self.current < self.source.len() && ('0' as u8) <= self.source[self.current]
            && self.source[self.current] <= ('9' as u8)
            invariant
                self.wf(),
                self.source@ == s,
                self.start == old(self).start,
                self.line == old(self).line,
                self.cum_line_len == old(self).cum_line_len,
                p0 < self.current as int <= s.len(),
                digits_end(s, p0) == digits_end(s, self.current as int),
            decreases s.len() - self.current,
        {
            self.current = self.current + 1;
        }
        let de = self.current;
        let dot_ahead = match self.peek() {
            Some(d) => d == ('.' as u8),
            None => false,
        };
        let digit_after_dot = match self.peek_next() {
            Some(d) => ('0' as u8) <= d && d <= ('9' as u8),
            None => false,
        };
        if dot_ahead && digit_after_dot {
            self.current = de + 1;
            proof {
                assert(digits_end(s, de + 1) == digits_end(s, de + 2));
            }
            while self.current < self.source.len() && ('0' as u8) <= self.source[self.current]
                && self.source[self.current] <= ('9' as u8)
                invariant
                    self.wf(),
                    self.source@ == s,
                    self.start == old(self).start,
                    self.line == old(self).line,
                    self.cum_line_len == old(self).cum_line_len,
                    de + 1 <= self.current as int <= s.len(),
                    digits_end(s, de + 1) == digits_end(s, self.current as int),
                decreases s.len() - self.current,
            {
                self.current = self.current + 1;
            }
        }
    }

    /// Consumes the rest of an identifier: the maximal run of letters and
    /// digits from the cursor on.
    #[verifier::loop_isolation(false)]
    fn identifier(&mut self)
        requires
            old(self).wf(),
        ensures
            final(self).wf(),
            final(self).source@ == old(self).source@,
            final(self).start == old(self).start,
            final(self).line == old(self).line,
            final(self).cum_line_len == old(self).cum_line_len,
            final(self).current == ident_end(old(self).source@, old(self).current as int),
    {
        let ghost s = self.source@;
        let ghost c0 = self.current as int;
        while self.current < self.source.len() && ((('0' as u8) <= self.source[self.current]
            && self.source[self.current] <= ('9' as u8)) || (('a' as u8)
            <= self.source[self.current] && self.source[self.current] <= ('z' as u8)) || (('A' as u8)
            <= self.source[self.current] && self.source[self.current] <= ('Z' as u8)))
            invariant
                self.wf(),
                self.source@ == s,
                self.start == old(self).start,
                self.line == old(self).line,
                self.cum_line_len == old(self).cum_line_len,
                c0 <= self.current as int <= s.len(),
                ident_end(s, c0) == ident_end(s, self.current as int),
            decreases s.len() - self.current,
        {
            self.current = self.current + 1;
        }
    }

    /// Scans the next real token: trivia (spaces, tabs, carriage returns,
    /// line feeds, `//` comments) is consumed without emitting anything, and
    /// the first lexical item after it is classified.  Returns the token,
    /// nothing at the end of the input, or the first error.
    #[verifier::loop_isolation(false)]
    #[verifier::rlimit(60)]
    fn next_token(&mut self) -> (r: Result<Option<Token>, ScanError>)
        requires
            old(self).wf(),
        ensures
            final(self).wf(),
            final(self).source@ == old(self).source@,
            match spec_next(
                old(self).source@,
                old(self).current as int,
                old(self).line as int,
                old(self).cum_line_len as int,
            ) {
                NextV::Tok(t, p2, l2, b2) => {
                    &&& r matches Ok(ot) && ot matches Some(tok) && tok@ == t
                    &&& final(self).current == p2
                    &&& final(self).line == l2
                    &&& final(self).cum_line_len == b2
                },
                NextV::End => {
                    &&& r matches Ok(ot) && ot is None
                    &&& final(self).current == old(self).source@.len()
                },
                NextV::Fail(e) => r matches Err(err) && err@ == e,
            },
    {
        let ghost s = self.source@;
        let ghost c0 = self.current as int;
        let ghost l0 = self.line as int;
        let ghost b0 = self.cum_line_len as int;
        loop
            invariant
                self.wf(),
                self.source@ == s,
                spec_next(s, c0, l0, b0) == spec_next(
                    s,
                    self.current as int,
                    self.line as int,
                    self.cum_line_len as int,
                ),
            decreases s.len() - self.current,
        {
            self.start = self.current;
            let ghost pos = self.current as int;
            let ghost line = self.line as int;
            let ghost base = self.cum_line_len as int;
            let c = match self.advance() {
                Some(c) => c,
                None => {
                    return Ok(None);
                },
            };
            if c == ('(' as u8) {
                return Ok(Some(self.get_token(TokenType::LeftParen, Object::Absent)));
            } else if c == (')' as u8) {
                return Ok(Some(self.get_token(TokenType::RightParen, Object::Absent)));
            } else if c == ('{' as u8) {
                return Ok(Some(self.get_token(TokenType::LeftBrace, Object::Absent)));
            } else if c == ('}' as u8) {
                return Ok(Some(self.get_token(TokenType::RightBrace, Object::Absent)));
            } else if c == (',' as u8) {
                return Ok(Some(self.get_token(TokenType::Comma, Object::Absent)));
            } else if c == ('.' as u8) {
                return Ok(Some(self.get_token(TokenType::Dot, Object::Absent)));
            } else if c == ('-' as u8) {
                return Ok(Some(self.get_token(TokenType::Minus, Object::Absent)));
            } else if c == ('+' as u8) {
                return Ok(Some(self.get_token(TokenType::Plus, Object::Absent)));
            } else if c == (';' as u8) {
                return Ok(Some(self.get_token(TokenType::Semicolon, Object::Absent)));
            } else if c == ('*' as u8) {
                return Ok(Some(self.get_token(TokenType::Star, Object::Absent)));
            } else if c == ('!' as u8) {
                if self.matches('=' as u8) {
                    return Ok(Some(self.get_token(TokenType::BangEqual, Object::Absent)));
                } else {
                    return Ok(Some(self.get_token(TokenType::Bang, Object::Absent)));
                }
            } else if c == ('=' as u8) {
                if self.matches('=' as u8) {
                    return Ok(Some(self.get_token(TokenType::EqualEqual, Object::Absent)));
                } else {
                    return Ok(Some(self.get_token(TokenType::Equal, Object::Absent)));
                }
            } else if c == ('<' as u8) {
                if self.matches('=' as u8) {
                    return Ok(Some(self.get_token(TokenType::LessEqual, Object::Absent)));
                } else {
                    return Ok(Some(self.get_token(TokenType::Less, Object::Absent)));
                }
            } else if c == ('>' as u8) {
                if self.matches('=' as u8) {
                    return Ok(Some(self.get_token(TokenType::GreaterEqual, Object::Absent)));
                } else {
                    return Ok(Some(self.get_token(TokenType::Greater, Object::Absent)));
                }
            } else if c == ('/' as u8) {
                if self.matches('/' as u8) {
                    while self.current < self.source.len() && self.source[self.current] != (
                    '\n' as u8)
                        invariant
                            self.wf(),
                            self.source@ == s,
                            self.start == pos,
                            self.line as int == line,
                            self.cum_line_len as int == base,
                            pos + 2 <= self.current as int <= s.len(),
                            comment_end(s, pos + 2) == comment_end(s, self.current as int),
                        decreases s.len() - self.current,
                    {
                        self.current = self.current + 1;
                    }
                } else {
                    return Ok(Some(self.get_token(TokenType::Slash, Object::Absent)));
                }
            } else if c == (' ' as u8) || c == ('\r' as u8) || c == ('\t' as u8) {
                // trivia: nothing to do, rescan from the next byte
            } else if c == ('\n' as u8) {
                self.line = self.line + 1;
                self.cum_line_len = self.current;
            } else if c == ('"' as u8) {
                let start_line = self.line;
                let start_col = self.col(self.start);
                match self.string() {
                    Ok(lit) => {
                        let lexeme = copy_range(&self.source, self.start, self.current);
                        let col_end = self.col(self.current);
                        let tok = Token::new(
                            TokenType::String,
                            lexeme,
                            Object::Text(lit),
                            start_line,
                            self.start,
                            self.current,
                            start_col,
                            col_end,
                        );
                        return Ok(Some(tok));
                    },
                    Err(e) => {
                        return Err(e);
                    },
                }
            } else if ('0' as u8) <= c && c <= ('9' as u8) {
                self.number();
                let lit = copy_range(&self.source, self.start, self.current);
                return Ok(Some(self.get_token(TokenType::Number, Object::Number(lit))));
            } else if (('a' as u8) <= c && c <= ('z' as u8)) || (('A' as u8) <= c && c <= (
            'Z' as u8)) {
                proof {
                    assert(ident_end(s, pos) == ident_end(s, pos + 1));
                }
                self.identifier();
                let lex = copy_range(&self.source, self.start, self.current);
                match lookup_keyword(&lex) {
                    Some(kw) => {
                        return Ok(Some(self.get_token(kw, Object::Absent)));
                    },
                    None => {
                        return Ok(Some(self.get_token(TokenType::Identifier(lex), Object::Absent)));
                    },
                }
            } else {
                let col = self.col(self.current);
                return Err(ScanError::InvalidToken(c, self.line, col));
            }
        }
    }

    /// Scans the whole remaining input in one pass.  Returns the tokens in
    /// strict source order, or the first lexical error with nothing else:
    /// the result is exactly what the scanning relation denotes for the
    /// starting state.
    #[verifier::loop_isolation(false)]
    pub fn scan(&mut self) -> (r: Result<Vec<Token>, ScanError>)
        requires
            old(self).wf(),
        ensures
            final(self).wf(),
            final(self).source@ == old(self).source@,
            match r {
                Ok(tokens) => spec_scan_from(
                    old(self).source@,
                    old(self).current as int,
                    old(self).line as int,
                    old(self).cum_line_len as int,
                ) == Result::<Seq<TokenV>, ScanErrorV>::Ok(token_views(tokens@)),
                Err(e) => spec_scan_from(
                    old(self).source@,
                    old(self).current as int,
                    old(self).line as int,
                    old(self).cum_line_len as int,
                ) == Result::<Seq<TokenV>, ScanErrorV>::Err(e@),
            },
    {
        let ghost s = self.source@;
        let ghost c0 = self.current as int;
        let ghost l0 = self.line as int;
        let ghost b0 = self.cum_line_len as int;
        let mut tokens: Vec<Token> = Vec::new();
        loop
            invariant
                self.wf(),
                self.source@ == s,
                spec_scan_from(s, c0, l0, b0) == (match spec_scan_from(
                    s,
                    self.current as int,
                    self.line as int,
                    self.cum_line_len as int,
                ) {
                    Result::Ok(rest) => Result::<Seq<TokenV>, ScanErrorV>::Ok(
                        token_views(tokens@) + rest,
                    ),
                    Result::Err(e) => Result::<Seq<TokenV>, ScanErrorV>::Err(e),
                }),
            decreases s.len() - self.current,
        {
            let ghost pos = self.current as int;
            let ghost line = self.line as int;
            let ghost base = self.cum_line_len as int;
            proof {
                crate::model::lemma_next_in_range(s, pos, line, base);
            }
            let ghost old_tokens = tokens@;
            match self.next_token() {
                Ok(ot) => {
                    match ot {
                        Some(t) => {
                            tokens.push(t);
                            proof {
                                assert(token_views(tokens@) =~= token_views(old_tokens)
                                    + seq![t@]);
                                if let NextV::Tok(tv, p2, l2, b2) = spec_next(s, pos, line, base) {
                                    match spec_scan_from(s, p2, l2, b2) {
                                        Result::Ok(rest2) => {
                                            assert(token_views(old_tokens) + (seq![tv] + rest2)
                                                =~= (token_views(old_tokens) + seq![tv]) + rest2);
                                        },
                                        Result::Err(_) => {},
                                    }
                                }
                            }
                        },
                        None => {
                            proof {
                                assert(token_views(tokens@) + Seq::<TokenV>::empty()
                                    =~= token_views(tokens@));
                            }
                            return Ok(tokens);
                        },
                    }
                },
                Err(e) => {
                    return Err(e);
                },
            }
        }
    }
}


} // verus!
