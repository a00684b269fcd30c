//! Laws of the scanning relation.
//!
//! `token_wf` and `tokens_wf` say what holds of every token a successful
//! scan returns: its lexeme is exactly the source slice at its span, its
//! line and columns agree with the line feeds actually before it, string
//! and number literals decode as stated, reserved words are recognized
//! exactly, and maximal munch holds for the two-character operators.  The
//! public lemmas at the end state each law on its own.

use vstd::prelude::*;
use crate::grammar::{
    base_after, comment_end, count_nl, digits_end, ident_end, is_alpha, is_digit,
    is_ident_lexeme, is_number_lexeme, lemma_base_after, lemma_comment_end, lemma_digits_end,
    lemma_ident_end, lemma_number_end, lemma_string_close, number_end, string_close,
};
use crate::model::{
    spec_keyword, spec_next, spec_scan, spec_scan_from, spec_step, NextV, ScanErrorV, StepV,
};
use crate::object::ObjectV;
use crate::token::{is_keyword_kind, TokenKindV, TokenV};

verus! {

/// The one-character operators that a `=` could have extended.
pub open spec fn one_char_op(k: TokenKindV) -> bool {
    ||| k is Bang
    ||| k is Equal
    ||| k is Less
    ||| k is Greater
}

/// What holds of every single token of a successful scan of `s`.
pub open spec fn token_wf(s: Seq<u8>, t: TokenV) -> bool {
    &&& 0 <= t.start < t.end <= s.len()
    &&& t.lexeme == s.subrange(t.start, t.end)
    &&& t.line == count_nl(s, 0, t.start)
    &&& t.col_start == t.start - base_after(s, 0, t.start, 0)
    &&& t.col_end == t.end - base_after(s, 0, t.end, 0)
    &&& (t.kind is String ==> t.object == ObjectV::Text(s.subrange(t.start + 1, t.end - 1))
        && s[t.start] == ('"' as u8) && s[t.end - 1] == ('"' as u8))
    &&& (t.kind is Number ==> t.object == ObjectV::Number(t.lexeme) && is_number_lexeme(t.lexeme))
    &&& (t.kind matches TokenKindV::Identifier(id) ==> id == t.lexeme && spec_keyword(t.lexeme)
        is None && is_ident_lexeme(t.lexeme))
    &&& (is_keyword_kind(t.kind) ==> spec_keyword(t.lexeme) == Some(t.kind))
    &&& (t.kind is Equal ==> t.lexeme == seq![('=' as u8)])
    &&& (!(t.kind is String) && !(t.kind is Number) ==> t.object is Absent)
}

/// What holds of a successful scan's whole token sequence: every token is
/// well formed, spans do not overlap and come in source order, and no
/// one-character operator is directly followed by a `=` in the source.
pub open spec fn tokens_wf(s: Seq<u8>, ts: Seq<TokenV>) -> bool {
    &&& forall|i: int| 0 <= i < ts.len() ==> token_wf(s, #[trigger] ts[i])
    &&& forall|i: int| 0 < i < ts.len() ==> #[trigger] ts[i - 1].end <= ts[i].start
    &&& forall|i: int|
        0 <= i < ts.len() ==> (one_char_op(#[trigger] ts[i].kind) ==> ts[i].end == s.len() || s[
            ts[i].end
        ] != ('=' as u8))
}

/// A byte the scanner recognizes as the start of a token or of trivia.
pub open spec fn scan_accepts(c: u8) -> bool {
    ||| c == ('(' as u8)
    ||| c == (')' as u8)
    ||| c == ('{' as u8)
    ||| c == ('}' as u8)
    ||| c == (',' as u8)
    ||| c == ('.' as u8)
    ||| c == ('-' as u8)
    ||| c == ('+' as u8)
    ||| c == (';' as u8)
    ||| c == ('*' as u8)
    ||| c == ('/' as u8)
    ||| c == ('!' as u8)
    ||| c == ('=' as u8)
    ||| c == ('<' as u8)
    ||| c == ('>' as u8)
    ||| c == (' ' as u8)
    ||| c == ('\r' as u8)
    ||| c == ('\t' as u8)
    ||| c == ('\n' as u8)
    ||| c == ('"' as u8)
    ||| is_digit(c)
    ||| is_alpha(c)
}

/// An opening quote at `q` that is never closed, on the reported line, with
/// the reported column measured from the baseline of its own line.
pub open spec fn unterminated_at(s: Seq<u8>, q: int, l: int, c: int) -> bool {
    &&& 0 <= q < s.len()
    &&& s[q] == ('"' as u8)
    &&& string_close(s, q + 1) is None
    &&& l == count_nl(s, 0, q)
    &&& c == q - base_after(s, 0, q, 0)
}

/// An unrecognized byte `ch` at `q`, on the reported line, with the
/// reported column one past the byte.
pub open spec fn invalid_at(s: Seq<u8>, q: int, ch: u8, l: int, c: int) -> bool {
    &&& 0 <= q < s.len()
    &&& s[q] == ch
    &&& !scan_accepts(ch)
    &&& l == count_nl(s, 0, q)
    &&& c == q + 1 - base_after(s, 0, q, 0)
}

/// What holds of the error a failed scan of `s` returns: its reported
/// position names a real offending place in the source, and the
/// invalid-number error never arises — the digit grammar makes it
/// unreachable from scanning.
pub open spec fn error_wf(s: Seq<u8>, e: ScanErrorV) -> bool {
    match e {
        ScanErrorV::InvalidToken(ch, l, c) => exists|q: int| #![trigger s[q]] invalid_at(s, q, ch, l, c),
        ScanErrorV::UnterminatedString(l, c) => exists|q: int| #![trigger s[q]] unterminated_at(s, q, l, c),
        ScanErrorV::InvalidNumber(lex, l, c) => false,
    }
}

proof fn lemma_count_nl_concat(s: Seq<u8>, lo: int, mid: int, hi: int)
    requires
        lo <= mid <= hi,
    ensures
        count_nl(s, lo, hi) == count_nl(s, lo, mid) + count_nl(s, mid, hi),
    decreases hi - mid,
{
    if mid < hi {
        lemma_count_nl_concat(s, lo, mid, hi - 1);
    }
}

proof fn lemma_count_nl_no_nl(s: Seq<u8>, lo: int, hi: int)
    requires
        lo <= hi,
        forall|k: int| lo <= k < hi ==> s[k] != ('\n' as u8),
    ensures
        count_nl(s, lo, hi) == 0,
    decreases hi - lo,
{
    if lo < hi {
        lemma_count_nl_no_nl(s, lo, hi - 1);
    }
}

proof fn lemma_base_after_concat(s: Seq<u8>, lo: int, mid: int, hi: int, base: int)
    requires
        lo <= mid <= hi,
    ensures
        base_after(s, lo, hi, base) == base_after(s, mid, hi, base_after(s, lo, mid, base)),
    decreases hi - mid,
{
    if mid < hi {
        lemma_base_after_concat(s, lo, mid, hi - 1, base);
    }
}

proof fn lemma_base_after_no_nl(s: Seq<u8>, lo: int, hi: int, base: int)
    requires
        lo <= hi,
        forall|k: int| lo <= k < hi ==> s[k] != ('\n' as u8),
    ensures
        base_after(s, lo, hi, base) == base,
    decreases hi - lo,
{
    if lo < hi {
        lemma_base_after_no_nl(s, lo, hi - 1, base);
    }
}

/// The lexeme of a number token starting at the digit at `pos` matches the
/// `digits(.digits)?` grammar and holds no line feed.
proof fn lemma_number_lexeme_shape(s: Seq<u8>, pos: int)
    requires
        0 <= pos < s.len(),
        is_digit(s[pos]),
    ensures
        pos < number_end(s, pos) <= s.len(),
        is_number_lexeme(s.subrange(pos, number_end(s, pos))),
        forall|k: int| pos <= k < number_end(s, pos) ==> s[k] != ('\n' as u8),
{
    lemma_digits_end(s, pos);
    assert(digits_end(s, pos) == digits_end(s, pos + 1));
    lemma_digits_end(s, pos + 1);
    let de = digits_end(s, pos);
    let ne = number_end(s, pos);
    lemma_number_end(s, pos);
    let lex = s.subrange(pos, ne);
    if de + 1 < s.len() && s[de] == ('.' as u8) && is_digit(s[de + 1]) {
        assert(digits_end(s, de + 1) == digits_end(s, de + 2));
        lemma_digits_end(s, de + 1);
        // the fractional run is non-empty, so the dot is interior
        assert(ne >= de + 2);
        let k = de - pos;
        assert(lex[k] == ('.' as u8));
        assert(lex.subrange(0, k) =~= s.subrange(pos, de));
        assert(lex.subrange(k + 1, lex.len() as int) =~= s.subrange(de + 1, ne));
        assert(crate::grammar::all_digits(lex.subrange(0, k)));
        assert(crate::grammar::all_digits(lex.subrange(k + 1, lex.len() as int)));
        assert(is_number_lexeme(lex));
    } else {
        assert(ne == de);
        assert(forall|i: int| 0 <= i < lex.len() ==> lex[i] == s[pos + i]);
        assert(crate::grammar::all_digits(lex));
    }
}

/// The lexeme of an identifier token starting at the letter at `pos` is a
/// letter followed by letters and digits, and holds no line feed.
proof fn lemma_ident_lexeme_shape(s: Seq<u8>, pos: int)
    requires
        0 <= pos < s.len(),
        is_alpha(s[pos]),
    ensures
        pos < ident_end(s, pos) <= s.len(),
        is_ident_lexeme(s.subrange(pos, ident_end(s, pos))),
        forall|k: int| pos <= k < ident_end(s, pos) ==> s[k] != ('\n' as u8),
{
    lemma_ident_end(s, pos);
    assert(ident_end(s, pos) == ident_end(s, pos + 1));
    lemma_ident_end(s, pos + 1);
    let ie = ident_end(s, pos);
    let lex = s.subrange(pos, ie);
    assert(forall|i: int| 0 <= i < lex.len() ==> lex[i] == s[pos + i]);
    assert(is_ident_lexeme(lex));
}

/// The full claim of `lemma_step_wf`, as one predicate.
spec fn step_post(s: Seq<u8>, pos: int, line: int, base: int) -> bool {
    match spec_step(s, pos, line, base) {
        StepV::Tok(t, p2, l2, b2) => {
            &&& pos <= t.start < p2 <= s.len()
            &&& t.end == p2
            &&& token_wf(s, t)
            &&& (one_char_op(t.kind) ==> p2 == s.len() || s[p2] != ('=' as u8))
            &&& 0 <= b2 <= p2
            &&& l2 == count_nl(s, 0, p2)
            &&& b2 == base_after(s, 0, p2, 0)
        },
        StepV::Skip(p2, l2, b2) => {
            &&& pos < p2 <= s.len()
            &&& 0 <= b2 <= p2
            &&& l2 == count_nl(s, 0, p2)
            &&& b2 == base_after(s, 0, p2, 0)
        },
        StepV::End => true,
        StepV::Fail(e) => error_wf(s, e),
    }
}

/// One classification step from a canonical state: the token it emits is
/// well formed, the state after any consumed trivia is canonical again,
/// and any error is grounded.
#[verifier::rlimit(100)]
proof fn lemma_step_wf(s: Seq<u8>, pos: int, line: int, base: int)
    requires
        0 <= pos <= s.len(),
        0 <= base <= pos,
        line == count_nl(s, 0, pos),
        base == base_after(s, 0, pos, 0),
    ensures
        step_post(s, pos, line, base),
{
    crate::model::lemma_step_in_range(s, pos, line, base);
    if pos < s.len() {
        let c = s[pos];
        if c == (' ' as u8) || c == ('\r' as u8) || c == ('\t' as u8) {
            assert(step_post(s, pos, line, base));
        } else if c == ('\n' as u8) {
            assert(step_post(s, pos, line, base));
        } else if c == ('/' as u8) && pos + 1 < s.len() && s[pos + 1] == ('/' as u8) {
            lemma_comment_end(s, pos + 2);
            let ce = comment_end(s, pos + 2);
            assert(forall|k: int| pos <= k < ce ==> s[k] != ('\n' as u8));
            lemma_count_nl_concat(s, 0, pos, ce);
            lemma_count_nl_no_nl(s, pos, ce);
            lemma_base_after_concat(s, 0, pos, ce, 0);
            lemma_base_after_no_nl(s, pos, ce, base);
            assert(step_post(s, pos, line, base));
        } else if c == ('"' as u8) {
            lemma_string_close(s, pos + 1);
            match string_close(s, pos + 1) {
                Some(j) => {
                    lemma_count_nl_concat(s, 0, pos + 1, j + 1);
                    lemma_count_nl_concat(s, 0, pos, pos + 1);
                    lemma_base_after_concat(s, 0, pos + 1, j + 1, 0);
                    lemma_base_after(s, pos + 1, j, base);
                    assert(count_nl(s, pos + 1, j + 1) == count_nl(s, pos + 1, j));
                    assert(base_after(s, 0, pos + 1, 0) == base);
                    assert(base_after(s, pos + 1, j + 1, base) == base_after(
                        s,
                        pos + 1,
                        j,
                        base,
                    ));
                    assert(step_post(s, pos, line, base));
                },
                None => {
                    assert(unterminated_at(s, pos, line, pos - base));
                    assert(step_post(s, pos, line, base));
                },
            }
        } else if is_digit(c) {
            lemma_number_lexeme_shape(s, pos);
            let ne = number_end(s, pos);
            lemma_count_nl_concat(s, 0, pos, ne);
            lemma_count_nl_no_nl(s, pos, ne);
            lemma_base_after_concat(s, 0, pos, ne, 0);
            lemma_base_after_no_nl(s, pos, ne, base);
            assert(step_post(s, pos, line, base));
        } else if is_alpha(c) {
            lemma_ident_lexeme_shape(s, pos);
            let ie = ident_end(s, pos);
            lemma_count_nl_concat(s, 0, pos, ie);
            lemma_count_nl_no_nl(s, pos, ie);
            lemma_base_after_concat(s, 0, pos, ie, 0);
            lemma_base_after_no_nl(s, pos, ie, base);
            assert(step_post(s, pos, line, base));
        } else {
            // punctuation, the four operators, or an unrecognized byte
            assert(count_nl(s, 0, pos + 1) == line);
            assert(base_after(s, 0, pos + 1, 0) == base);
            if pos + 2 <= s.len() {
                if s[pos + 1] != ('\n' as u8) {
                    assert(count_nl(s, 0, pos + 2) == count_nl(s, 0, pos + 1));
                    assert(base_after(s, 0, pos + 2, 0) == base_after(s, 0, pos + 1, 0));
                }
            }
            if c == ('=' as u8) && !(pos + 1 < s.len() && s[pos + 1] == ('=' as u8)) {
                assert(s.subrange(pos, pos + 1) =~= seq![('=' as u8)]);
            }
            if !scan_accepts(c) {
                assert(invalid_at(s, pos, c, line, pos + 1 - base));
            }
            assert(step_post(s, pos, line, base));
        }
    } else {
        assert(step_post(s, pos, line, base));
    }
}

/// The induction step: whatever `spec_next` returns from a state whose
/// line and baseline are the canonical functions of the cursor, the token
/// is well formed, the new state is canonical again, and any error is
/// grounded.
proof fn lemma_next_wf(s: Seq<u8>, pos: int, line: int, base: int)
    requires
        0 <= pos <= s.len(),
        0 <= base <= pos,
        line == count_nl(s, 0, pos),
        base == base_after(s, 0, pos, 0),
    ensures
        match spec_next(s, pos, line, base) {
            NextV::Tok(t, p2, l2, b2) => {
                &&& pos <= t.start < p2 <= s.len()
                &&& t.end == p2
                &&& token_wf(s, t)
                &&& (one_char_op(t.kind) ==> p2 == s.len() || s[p2] != ('=' as u8))
                &&& 0 <= b2 <= p2
                &&& l2 == count_nl(s, 0, p2)
                &&& b2 == base_after(s, 0, p2, 0)
            },
            NextV::End => true,
            NextV::Fail(e) => error_wf(s, e),
        },
    decreases s.len() - pos,
{
    lemma_step_wf(s, pos, line, base);
    match spec_step(s, pos, line, base) {
        StepV::Skip(p2, l2, b2) => {
            lemma_next_wf(s, p2, l2, b2);
        },
        _ => {},
    }
}

/// Every token sequence a successful scan returns, from a canonical state
/// on, is well formed and starts at or after the cursor.
proof fn lemma_scan_from_wf(s: Seq<u8>, pos: int, line: int, base: int)
    requires
        0 <= pos <= s.len(),
        0 <= base <= pos,
        line == count_nl(s, 0, pos),
        base == base_after(s, 0, pos, 0),
    ensures
        match spec_scan_from(s, pos, line, base) {
            Ok(ts) => tokens_wf(s, ts) && (ts.len() > 0 ==> pos <= ts[0].start),
            Err(e) => error_wf(s, e),
        },
    decreases s.len() - pos,
{
    lemma_next_wf(s, pos, line, base);
    crate::model::lemma_next_in_range(s, pos, line, base);
    match spec_next(s, pos, line, base) {
        NextV::Tok(t, p2, l2, b2) => {
            lemma_scan_from_wf(s, p2, l2, b2);
            match spec_scan_from(s, p2, l2, b2) {
                Ok(rest) => {
                    let ts = seq![t] + rest;
                    assert(forall|i: int| 0 < i < ts.len() ==> ts[i] == rest[i - 1]);
                    assert(ts[0] == t);
                },
                Err(e) => {},
            }
        },
        _ => {},
    }
}

/// A successful scan of a whole source text yields a well-formed token
/// sequence: exact spans and lexemes, accurate lines and columns, exactly
/// decoded literals, exactly recognized reserved words, and maximal munch.
pub proof fn lemma_scan_wf(s: Seq<u8>)
    ensures
        spec_scan(s) matches Ok(ts) ==> tokens_wf(s, ts),
{
    lemma_scan_from_wf(s, 0, 0, 0);
}

/// A failed scan's error is grounded: an unterminated-string error points
/// at a real opening quote that the input never closes, an invalid-token
/// error points at a real unrecognized byte, and the invalid-number error
/// never arises from scanning at all.
pub proof fn lemma_error_positions(s: Seq<u8>, e: ScanErrorV)
    requires
        spec_scan(s) == Result::<Seq<TokenV>, ScanErrorV>::Err(e),
    ensures
        error_wf(s, e),
        !(e is InvalidNumber),
{
    lemma_scan_from_wf(s, 0, 0, 0);
}

/// Only whitespace and comments from `pos` on: nothing that would emit a
/// token or an error.
pub open spec fn trivia_only(s: Seq<u8>, pos: int) -> bool
    decreases s.len() - pos when 0 <= pos <= s.len()
{
    if pos >= s.len() {
        true
    } else if s[pos] == (' ' as u8) || s[pos] == ('\r' as u8) || s[pos] == ('\t' as u8) || s[pos]
        == ('\n' as u8) {
        trivia_only(s, pos + 1)
    } else if s[pos] == ('/' as u8) && pos + 1 < s.len() && s[pos + 1] == ('/' as u8) {
        proof {
            lemma_comment_end(s, pos + 2);
        }
        trivia_only(s, comment_end(s, pos + 2))
    } else {
        false
    }
}

proof fn lemma_trivia_next_end(s: Seq<u8>, pos: int, line: int, base: int)
    requires
        0 <= pos <= s.len(),
        trivia_only(s, pos),
    ensures
        spec_next(s, pos, line, base) == NextV::End,
    decreases s.len() - pos,
{
    if pos < s.len() {
        let c = s[pos];
        if c == (' ' as u8) || c == ('\r' as u8) || c == ('\t' as u8) {
            lemma_trivia_next_end(s, pos + 1, line, base);
        } else if c == ('\n' as u8) {
            lemma_trivia_next_end(s, pos + 1, line + 1, pos + 1);
        } else {
            lemma_comment_end(s, pos + 2);
            lemma_trivia_next_end(s, comment_end(s, pos + 2), line, base);
        }
    }
}

/// An input of only whitespace and comments scans successfully to the empty
/// token sequence.
pub proof fn lemma_trivia_scans_empty(s: Seq<u8>)
    requires
        trivia_only(s, 0),
    ensures
        spec_scan(s) == Result::<Seq<TokenV>, ScanErrorV>::Ok(Seq::empty()),
{
    lemma_trivia_next_end(s, 0, 0, 0);
}

/// Maximal munch: a successful scan never emits `!`, `=`, `<` or `>` as a
/// one-character operator with a separate `=` token directly adjacent to
/// it in the source.
pub proof fn lemma_maximal_munch(s: Seq<u8>, ts: Seq<TokenV>, i: int)
    requires
        spec_scan(s) == Result::<Seq<TokenV>, ScanErrorV>::Ok(ts),
        0 <= i,
        i + 1 < ts.len(),
        one_char_op(ts[i].kind),
        ts[i + 1].start == ts[i].end,
    ensures
        !(ts[i + 1].kind is Equal),
{
    lemma_scan_wf(s);
    assert(token_wf(s, ts[i]));
    assert(token_wf(s, ts[i + 1]));
    if ts[i + 1].kind is Equal {
        assert(ts[i + 1].lexeme == seq![('=' as u8)]);
        assert(s.subrange(ts[i + 1].start, ts[i + 1].end)[0] == s[ts[i + 1].start]);
        assert(s[ts[i].end] == ('=' as u8));
    }
}

/// Round trip: the source slice at a returned token's span equals its
/// lexeme exactly.
pub proof fn lemma_lexeme_matches_span(s: Seq<u8>, ts: Seq<TokenV>, i: int)
    requires
        spec_scan(s) == Result::<Seq<TokenV>, ScanErrorV>::Ok(ts),
        0 <= i < ts.len(),
    ensures
        0 <= ts[i].start < ts[i].end <= s.len(),
        ts[i].lexeme == s.subrange(ts[i].start, ts[i].end),
{
    lemma_scan_wf(s);
    assert(token_wf(s, ts[i]));
}

/// Line and column accuracy: a token's recorded line is the number of line
/// feeds before its start, and each recorded column is the distance from
/// the last line feed before that end of the token.  This pins down in
/// particular what a string literal spanning a line break does to every
/// later token's position.
pub proof fn lemma_positions_accurate(s: Seq<u8>, ts: Seq<TokenV>, i: int)
    requires
        spec_scan(s) == Result::<Seq<TokenV>, ScanErrorV>::Ok(ts),
        0 <= i < ts.len(),
    ensures
        ts[i].line == count_nl(s, 0, ts[i].start),
        ts[i].col_start == ts[i].start - base_after(s, 0, ts[i].start, 0),
        ts[i].col_end == ts[i].end - base_after(s, 0, ts[i].end, 0),
{
    lemma_scan_wf(s);
    assert(token_wf(s, ts[i]));
}

/// A string token's literal value is the text strictly between its quotes,
/// and its lexeme keeps both quote characters.
pub proof fn lemma_string_token(s: Seq<u8>, ts: Seq<TokenV>, i: int)
    requires
        spec_scan(s) == Result::<Seq<TokenV>, ScanErrorV>::Ok(ts),
        0 <= i < ts.len(),
        ts[i].kind is String,
    ensures
        ts[i].object == ObjectV::Text(s.subrange(ts[i].start + 1, ts[i].end - 1)),
        ts[i].lexeme == s.subrange(ts[i].start, ts[i].end),
        s[ts[i].start] == ('"' as u8),
        s[ts[i].end - 1] == ('"' as u8),
{
    lemma_scan_wf(s);
    assert(token_wf(s, ts[i]));
}

/// A number token's literal value is its exact lexeme, and that lexeme
/// matches the `digits(.digits)?` grammar — so any float parser that is
/// exact on that grammar recovers the scanned value from the lexeme.
pub proof fn lemma_number_token(s: Seq<u8>, ts: Seq<TokenV>, i: int)
    requires
        spec_scan(s) == Result::<Seq<TokenV>, ScanErrorV>::Ok(ts),
        0 <= i < ts.len(),
        ts[i].kind is Number,
    ensures
        ts[i].object == ObjectV::Number(ts[i].lexeme),
        is_number_lexeme(ts[i].lexeme),
{
    lemma_scan_wf(s);
    assert(token_wf(s, ts[i]));
}

/// Reserved words are recognized exactly: an identifier token's spelling is
/// never a reserved word, and a reserved-word token's lexeme looks up to
/// exactly its kind.
pub proof fn lemma_reserved_words(s: Seq<u8>, ts: Seq<TokenV>, i: int)
    requires
        spec_scan(s) == Result::<Seq<TokenV>, ScanErrorV>::Ok(ts),
        0 <= i < ts.len(),
    ensures
        ts[i].kind matches TokenKindV::Identifier(id) ==> id == ts[i].lexeme && spec_keyword(
            ts[i].lexeme,
        ) is None,
        is_keyword_kind(ts[i].kind) ==> spec_keyword(ts[i].lexeme) == Some(ts[i].kind),
{
    lemma_scan_wf(s);
    assert(token_wf(s, ts[i]));
}

/// Scanning is a pure function of the source text: two scans of the same
/// immutable text denote the same outcome, tokens and errors alike.
pub proof fn lemma_scan_deterministic(
    s: Seq<u8>,
    r1: Result<Seq<TokenV>, ScanErrorV>,
    r2: Result<Seq<TokenV>, ScanErrorV>,
)
    requires
        r1 == spec_scan(s),
        r2 == spec_scan(s),
    ensures
        r1 == r2,
{
}

} // verus!
