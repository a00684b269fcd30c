//! Mathematical model of the lexical grammar.
//!
//! Everything here is ghost: spec functions that say, for a source text
//! (a sequence of bytes) and a cursor position, where the maximal runs of
//! digits, identifier characters and comment bodies end, where a string
//! literal closes, and how line and column bookkeeping evolve.  The
//! executable scanner is specified against these functions.

use vstd::prelude::*;

verus! {

/// ASCII decimal digit.
pub open spec fn is_digit(c: u8) -> bool {
    ('0' as u8) <= c && c <= ('9' as u8)
}

/// ASCII letter.
pub open spec fn is_alpha(c: u8) -> bool {
    (('a' as u8) <= c && c <= ('z' as u8)) || (('A' as u8) <= c && c <= ('Z' as u8))
}

/// ASCII letter or digit: the characters that may continue an identifier.
pub open spec fn is_alnum(c: u8) -> bool {
    is_digit(c) || is_alpha(c)
}

/// End of the maximal run of digits starting at `pos`.
pub open spec fn digits_end(s: Seq<u8>, pos: int) -> int
    decreases s.len() - pos when 0 <= pos <= s.len()
{
    if pos < s.len() && is_digit(s[pos]) {
        digits_end(s, pos + 1)
    } else {
        pos
    }
}

pub proof fn lemma_digits_end(s: Seq<u8>, pos: int)
    requires
        0 <= pos <= s.len(),
    ensures
        pos <= digits_end(s, pos) <= s.len(),
        forall|k: int| pos <= k < digits_end(s, pos) ==> is_digit(s[k]),
        digits_end(s, pos) < s.len() ==> !is_digit(s[digits_end(s, pos)]),
    decreases s.len() - pos,
{
    if pos < s.len() && is_digit(s[pos]) {
        lemma_digits_end(s, pos + 1);
    }
}

/// End of the maximal run of identifier characters starting at `pos`.
pub open spec fn ident_end(s: Seq<u8>, pos: int) -> int
    decreases s.len() - pos when 0 <= pos <= s.len()
{
    if pos < s.len() && is_alnum(s[pos]) {
        ident_end(s, pos + 1)
    } else {
        pos
    }
}

pub proof fn lemma_ident_end(s: Seq<u8>, pos: int)
    requires
        0 <= pos <= s.len(),
    ensures
        pos <= ident_end(s, pos) <= s.len(),
        forall|k: int| pos <= k < ident_end(s, pos) ==> is_alnum(s[k]),
        ident_end(s, pos) < s.len() ==> !is_alnum(s[ident_end(s, pos)]),
    decreases s.len() - pos,
{
    if pos < s.len() && is_alnum(s[pos]) {
        lemma_ident_end(s, pos + 1);
    }
}

/// Position of the line feed that ends a `//` comment whose body starts at
/// `pos`, or the end of the input if the comment is on the last line.  The
/// line feed itself is not part of the comment.
pub open spec fn comment_end(s: Seq<u8>, pos: int) -> int
    decreases s.len() - pos when 0 <= pos <= s.len()
{
    if pos < s.len() && s[pos] != ('\n' as u8) {
        comment_end(s, pos + 1)
    } else {
        pos
    }
}

pub proof fn lemma_comment_end(s: Seq<u8>, pos: int)
    requires
        0 <= pos <= s.len(),
    ensures
        pos <= comment_end(s, pos) <= s.len(),
        forall|k: int| pos <= k < comment_end(s, pos) ==> s[k] != ('\n' as u8),
        comment_end(s, pos) < s.len() ==> s[comment_end(s, pos)] == ('\n' as u8),
    decreases s.len() - pos,
{
    if pos < s.len() && s[pos] != ('\n' as u8) {
        lemma_comment_end(s, pos + 1);
    }
}

/// Position of the closing quote of a string literal whose body starts at
/// `pos` (just past the opening quote), or `None` if the input ends first.
pub open spec fn string_close(s: Seq<u8>, pos: int) -> Option<int>
    decreases s.len() - pos when 0 <= pos <= s.len()
{
    if pos >= s.len() {
        Option::None
    } else if s[pos] == ('"' as u8) {
        Option::Some(pos)
    } else {
        string_close(s, pos + 1)
    }
}

pub proof fn lemma_string_close(s: Seq<u8>, pos: int)
    requires
        0 <= pos <= s.len(),
    ensures
        match string_close(s, pos) {
            Option::Some(j) => {
                &&& pos <= j < s.len()
                &&& s[j] == ('"' as u8)
                &&& forall|k: int| pos <= k < j ==> s[k] != ('"' as u8)
            },
            Option::None => forall|k: int| pos <= k < s.len() ==> s[k] != ('"' as u8),
        },
    decreases s.len() - pos,
{
    if pos < s.len() && s[pos] != ('"' as u8) {
        lemma_string_close(s, pos + 1);
    }
}

/// Number of line feeds in `s[lo, hi)`.
pub open spec fn count_nl(s: Seq<u8>, lo: int, hi: int) -> int
    decreases hi - lo when lo <= hi
{
    if hi <= lo {
        0
    } else {
        count_nl(s, lo, hi - 1) + if s[hi - 1] == ('\n' as u8) { 1int } else { 0int }
    }
}

pub proof fn lemma_count_nl(s: Seq<u8>, lo: int, hi: int)
    requires
        lo <= hi,
    ensures
        0 <= count_nl(s, lo, hi) <= hi - lo,
    decreases hi - lo,
{
    if lo < hi {
        lemma_count_nl(s, lo, hi - 1);
    }
}

/// The column baseline after the cursor has walked `s[lo, hi)` starting from
/// baseline `base`: every consumed line feed at index `k` moves the baseline
/// to `k + 1`, so the result is one past the last line feed in the range, or
/// `base` if the range has none.  A column is an absolute index minus the
/// baseline of the line it sits on.
pub open spec fn base_after(s: Seq<u8>, lo: int, hi: int, base: int) -> int
    decreases hi - lo when lo <= hi
{
    if hi <= lo {
        base
    } else if s[hi - 1] == ('\n' as u8) {
        hi
    } else {
        base_after(s, lo, hi - 1, base)
    }
}

pub proof fn lemma_base_after(s: Seq<u8>, lo: int, hi: int, base: int)
    requires
        lo <= hi,
        base <= lo,
    ensures
        base <= base_after(s, lo, hi, base) <= hi,
    decreases hi - lo,
{
    if lo < hi && s[hi - 1] != ('\n' as u8) {
        lemma_base_after(s, lo, hi - 1, base);
    }
}

/// End of a number lexeme starting at `pos` (which holds a digit): the
/// maximal digit run, then a fractional part only when a dot is directly
/// followed by another digit.  A trailing dot is never consumed.
pub open spec fn number_end(s: Seq<u8>, pos: int) -> int {
    let de = digits_end(s, pos);
    if de + 1 < s.len() && s[de] == ('.' as u8) && is_digit(s[de + 1]) {
        digits_end(s, de + 1)
    } else {
        de
    }
}

pub proof fn lemma_number_end(s: Seq<u8>, pos: int)
    requires
        0 <= pos < s.len(),
        is_digit(s[pos]),
    ensures
        pos < number_end(s, pos) <= s.len(),
    decreases s.len() - pos,
{
    lemma_digits_end(s, pos);
    let de = digits_end(s, pos);
    assert(pos < de) by {
        assert(digits_end(s, pos) == digits_end(s, pos + 1));
        lemma_digits_end(s, pos + 1);
    }
    if de + 1 < s.len() && s[de] == ('.' as u8) && is_digit(s[de + 1]) {
        lemma_digits_end(s, de + 1);
    }
}

/// A non-empty all-digit sequence.
pub open spec fn all_digits(q: Seq<u8>) -> bool {
    q.len() > 0 && forall|i: int| 0 <= i < q.len() ==> is_digit(q[i])
}

/// A well-formed number lexeme: `digits` or `digits.digits`.
pub open spec fn is_number_lexeme(q: Seq<u8>) -> bool {
    ||| all_digits(q)
    ||| exists|k: int|
        0 < k < q.len() - 1 && q[k] == ('.' as u8) && all_digits(q.subrange(0, k))
            && all_digits(q.subrange(k + 1, q.len() as int))
}

/// A well-formed identifier lexeme: a letter, then letters and digits.
pub open spec fn is_ident_lexeme(q: Seq<u8>) -> bool {
    q.len() > 0 && is_alpha(q[0]) && forall|i: int| 0 <= i < q.len() ==> is_alnum(q[i])
}

} // verus!
