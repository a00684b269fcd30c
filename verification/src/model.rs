//! The scanning relation: what sequence of tokens, or what error, a given
//! source text denotes.
//!
//! `spec_step` classifies the single lexical item at one cursor position;
//! `spec_next` runs it past whitespace and comments to the next real token;
//! `spec_scan` folds that over the whole text.  The executable scanner's
//! contract says that it returns exactly what these functions denote.

use vstd::prelude::*;
use crate::grammar::{
    base_after, comment_end, count_nl, digits_end, ident_end, is_alnum, is_alpha, is_digit,
    number_end, string_close,
};
use crate::object::ObjectV;
use crate::token::{TokenKindV, TokenV};

verus! {

/// Ghost mirror of `ScanError`: an unrecognized character, a string literal
/// the input ends inside of, or a numeric lexeme its consumer cannot decode.
pub enum ScanErrorV {
    InvalidToken(u8, int, int),
    UnterminatedString(int, int),
    InvalidNumber(Seq<u8>, int, int),
}

/// Outcome of classifying the source at one cursor position: a token
/// together with the cursor, line and column-baseline after it; consumed
/// trivia (whitespace, a line feed, a comment) with the state after it; the
/// end of the input; or a lexical error.
pub enum StepV {
    Tok(TokenV, int, int, int),
    Skip(int, int, int),
    End,
    Fail(ScanErrorV),
}

/// Outcome of scanning for the next real token: like `StepV`, with trivia
/// already passed over.
pub enum NextV {
    Tok(TokenV, int, int, int),
    End,
    Fail(ScanErrorV),
}

/// The reserved-word table: an exact, case-sensitive match of a whole
/// identifier lexeme.
pub open spec fn spec_keyword(q: Seq<u8>) -> Option<TokenKindV> {
    if q == seq!['a' as u8, 'n' as u8, 'd' as u8] {
        Option::Some(TokenKindV::And)
    } else if q == seq!['c' as u8, 'l' as u8, 'a' as u8, 's' as u8, 's' as u8] {
        Option::Some(TokenKindV::Class)
    } else if q == seq!['e' as u8, 'l' as u8, 's' as u8, 'e' as u8] {
        Option::Some(TokenKindV::Else)
    } else if q == seq!['f' as u8, 'a' as u8, 'l' as u8, 's' as u8, 'e' as u8] {
        Option::Some(TokenKindV::False)
    } else if q == seq!['f' as u8, 'o' as u8, 'r' as u8] {
        Option::Some(TokenKindV::For)
    } else if q == seq!['f' as u8, 'u' as u8, 'n' as u8] {
        Option::Some(TokenKindV::Fun)
    } else if q == seq!['i' as u8, 'f' as u8] {
        Option::Some(TokenKindV::If)
    } else if q == seq!['n' as u8, 'i' as u8, 'l' as u8] {
        Option::Some(TokenKindV::Nil)
    } else if q == seq!['o' as u8, 'r' as u8] {
        Option::Some(TokenKindV::Or)
    } else if q == seq!['p' as u8, 'r' as u8, 'i' as u8, 'n' as u8, 't' as u8] {
        Option::Some(TokenKindV::Print)
    } else if q == seq!['r' as u8, 'e' as u8, 't' as u8, 'u' as u8, 'r' as u8, 'n' as u8] {
        Option::Some(TokenKindV::Return)
    } else if q == seq!['s' as u8, 'u' as u8, 'p' as u8, 'e' as u8, 'r' as u8] {
        Option::Some(TokenKindV::Super)
    } else if q == seq!['t' as u8, 'h' as u8, 'i' as u8, 's' as u8] {
        Option::Some(TokenKindV::This)
    } else if q == seq!['t' as u8, 'r' as u8, 'u' as u8, 'e' as u8] {
        Option::Some(TokenKindV::True)
    } else if q == seq!['v' as u8, 'a' as u8, 'r' as u8] {
        Option::Some(TokenKindV::Var)
    } else if q == seq!['w' as u8, 'h' as u8, 'i' as u8, 'l' as u8, 'e' as u8] {
        Option::Some(TokenKindV::While)
    } else {
        Option::None
    }
}

/// A token that sits on a single line: its lexeme is the source slice
/// `[pos, end)` and both columns are measured from the same baseline.
pub open spec fn simple_token_v(
    s: Seq<u8>,
    pos: int,
    end: int,
    line: int,
    base: int,
    kind: TokenKindV,
    object: ObjectV,
) -> TokenV {
    TokenV {
        kind,
        lexeme: s.subrange(pos, end),
        object,
        line,
        start: pos,
        end,
        col_start: pos - base,
        col_end: end - base,
    }
}

/// A one-character punctuation token.
pub open spec fn punct_step(s: Seq<u8>, pos: int, line: int, base: int, kind: TokenKindV) -> StepV {
    StepV::Tok(
        simple_token_v(s, pos, pos + 1, line, base, kind, ObjectV::Absent),
        pos + 1,
        line,
        base,
    )
}

/// Maximal munch over a two-character window: `two` when a `=` directly
/// follows, else `one`.
pub open spec fn op_step(
    s: Seq<u8>,
    pos: int,
    line: int,
    base: int,
    one: TokenKindV,
    two: TokenKindV,
) -> StepV {
    if pos + 1 < s.len() && s[pos + 1] == ('=' as u8) {
        StepV::Tok(
            simple_token_v(s, pos, pos + 2, line, base, two, ObjectV::Absent),
            pos + 2,
            line,
            base,
        )
    } else {
        StepV::Tok(
            simple_token_v(s, pos, pos + 1, line, base, one, ObjectV::Absent),
            pos + 1,
            line,
            base,
        )
    }
}

/// The string literal whose opening quote sits at `pos` and whose closing
/// quote sits at `j`: the lexeme keeps both quotes, the literal value is the
/// text strictly between them, the recorded line and starting column are
/// those of the opening quote, and the ending column is measured from the
/// baseline after any line feeds inside the literal.
pub open spec fn string_step(s: Seq<u8>, pos: int, line: int, base: int, j: int) -> StepV {
    let line2 = line + count_nl(s, pos + 1, j);
    let base2 = base_after(s, pos + 1, j, base);
    StepV::Tok(
        TokenV {
            kind: TokenKindV::String,
            lexeme: s.subrange(pos, j + 1),
            object: ObjectV::Text(s.subrange(pos + 1, j)),
            line,
            start: pos,
            end: j + 1,
            col_start: pos - base,
            col_end: j + 1 - base2,
        },
        j + 1,
        line2,
        base2,
    )
}

/// The number literal starting at the digit at `pos`: its literal value is
/// its exact lexeme.
pub open spec fn number_step(s: Seq<u8>, pos: int, line: int, base: int) -> StepV {
    let end = number_end(s, pos);
    StepV::Tok(
        simple_token_v(
            s,
            pos,
            end,
            line,
            base,
            TokenKindV::Number,
            ObjectV::Number(s.subrange(pos, end)),
        ),
        end,
        line,
        base,
    )
}

/// The identifier or reserved word starting at the letter at `pos`.
pub open spec fn ident_step(s: Seq<u8>, pos: int, line: int, base: int) -> StepV {
    let end = ident_end(s, pos);
    let lex = s.subrange(pos, end);
    let kind = match spec_keyword(lex) {
        Option::Some(k) => k,
        Option::None => TokenKindV::Identifier(lex),
    };
    StepV::Tok(
        simple_token_v(s, pos, end, line, base, kind, ObjectV::Absent),
        end,
        line,
        base,
    )
}

/// Classifies the source at cursor `pos`, with `line` the current 0-based
/// line and `base` the cumulative length of all prior lines.
pub open spec fn spec_step(s: Seq<u8>, pos: int, line: int, base: int) -> StepV
    recommends
        0 <= pos <= s.len(),
{
    if pos >= s.len() {
        StepV::End
    } else {
        let c = s[pos];
        if c == ('(' as u8) {
            punct_step(s, pos, line, base, TokenKindV::LeftParen)
        } else if c == (')' as u8) {
            punct_step(s, pos, line, base, TokenKindV::RightParen)
        } else if c == ('{' as u8) {
            punct_step(s, pos, line, base, TokenKindV::LeftBrace)
        } else if c == ('}' as u8) {
            punct_step(s, pos, line, base, TokenKindV::RightBrace)
        } else if c == (',' as u8) {
            punct_step(s, pos, line, base, TokenKindV::Comma)
        } else if c == ('.' as u8) {
            punct_step(s, pos, line, base, TokenKindV::Dot)
        } else if c == ('-' as u8) {
            punct_step(s, pos, line, base, TokenKindV::Minus)
        } else if c == ('+' as u8) {
            punct_step(s, pos, line, base, TokenKindV::Plus)
        } else if c == (';' as u8) {
            punct_step(s, pos, line, base, TokenKindV::Semicolon)
        } else if c == ('*' as u8) {
            punct_step(s, pos, line, base, TokenKindV::Star)
        } else if c == ('!' as u8) {
            op_step(s, pos, line, base, TokenKindV::Bang, TokenKindV::BangEqual)
        } else if c == ('=' as u8) {
            op_step(s, pos, line, base, TokenKindV::Equal, TokenKindV::EqualEqual)
        } else if c == ('<' as u8) {
            op_step(s, pos, line, base, TokenKindV::Less, TokenKindV::LessEqual)
        } else if c == ('>' as u8) {
            op_step(s, pos, line, base, TokenKindV::Greater, TokenKindV::GreaterEqual)
        } else if c == ('/' as u8) {
            if pos + 1 < s.len() && s[pos + 1] == ('/' as u8) {
                StepV::Skip(comment_end(s, pos + 2), line, base)
            } else {
                punct_step(s, pos, line, base, TokenKindV::Slash)
            }
        } else if c == (' ' as u8) || c == ('\r' as u8) || c == ('\t' as u8) {
            StepV::Skip(pos + 1, line, base)
        } else if c == ('\n' as u8) {
            StepV::Skip(pos + 1, line + 1, pos + 1)
        } else if c == ('"' as u8) {
            match string_close(s, pos + 1) {
                Option::Some(j) => string_step(s, pos, line, base, j),
                Option::None => StepV::Fail(ScanErrorV::UnterminatedString(line, pos - base)),
            }
        } else if is_digit(c) {
            number_step(s, pos, line, base)
        } else if is_alpha(c) {
            ident_step(s, pos, line, base)
        } else {
            StepV::Fail(ScanErrorV::InvalidToken(c, line, pos + 1 - base))
        }
    }
}

/// A step never stands still: whatever it consumes ends strictly past `pos`
/// and within the input, and a token's span is exactly what was consumed.
pub proof fn lemma_step_in_range(s: Seq<u8>, pos: int, line: int, base: int)
    requires
        0 <= pos <= s.len(),
    ensures
        match spec_step(s, pos, line, base) {
            StepV::Tok(t, p2, l2, b2) => pos < p2 <= s.len() && t.start == pos && t.end == p2,
            StepV::Skip(p2, l2, b2) => pos < p2 <= s.len(),
            StepV::End => pos == s.len(),
            StepV::Fail(e) => true,
        },
{
    if pos < s.len() {
        let c = s[pos];
        if c == ('/' as u8) && pos + 1 < s.len() && s[pos + 1] == ('/' as u8) {
            crate::grammar::lemma_comment_end(s, pos + 2);
        } else if c == ('"' as u8) {
            crate::grammar::lemma_string_close(s, pos + 1);
        } else if is_digit(c) {
            crate::grammar::lemma_number_end(s, pos);
        } else if is_alpha(c) {
            assert(ident_end(s, pos) == ident_end(s, pos + 1));
            crate::grammar::lemma_ident_end(s, pos + 1);
        }
    }
}

/// Scans past whitespace, line feeds and comments to the next real token,
/// the end of the input, or an error.
pub open spec fn spec_next(s: Seq<u8>, pos: int, line: int, base: int) -> NextV
    recommends
        0 <= pos <= s.len(),
    decreases s.len() - pos when 0 <= pos <= s.len()
{
    match spec_step(s, pos, line, base) {
        StepV::Tok(t, p2, l2, b2) => NextV::Tok(t, p2, l2, b2),
        StepV::Skip(p2, l2, b2) => {
            proof {
                lemma_step_in_range(s, pos, line, base);
            }
            spec_next(s, p2, l2, b2)
        },
        StepV::End => NextV::End,
        StepV::Fail(e) => NextV::Fail(e),
    }
}

/// What `spec_step` guarantees, carried through the trivia recursion.
pub proof fn lemma_next_in_range(s: Seq<u8>, pos: int, line: int, base: int)
    requires
        0 <= pos <= s.len(),
    ensures
        match spec_next(s, pos, line, base) {
            NextV::Tok(t, p2, l2, b2) => pos <= t.start < p2 <= s.len() && t.end == p2,
            NextV::End => true,
            NextV::Fail(e) => true,
        },
    decreases s.len() - pos,
{
    lemma_step_in_range(s, pos, line, base);
    match spec_step(s, pos, line, base) {
        StepV::Skip(p2, l2, b2) => {
            lemma_next_in_range(s, p2, l2, b2);
        },
        _ => {},
    }
}

/// The token sequence, or the first error, that the source denotes from
/// cursor `pos` on.
pub open spec fn spec_scan_from(s: Seq<u8>, pos: int, line: int, base: int) -> Result<
    Seq<TokenV>,
    ScanErrorV,
>
    recommends
        0 <= pos <= s.len(),
    decreases s.len() - pos when 0 <= pos <= s.len()
{
    match spec_next(s, pos, line, base) {
        NextV::Tok(t, p2, l2, b2) => {
            proof {
                lemma_next_in_range(s, pos, line, base);
            }
            match spec_scan_from(s, p2, l2, b2) {
                Result::Ok(rest) => Result::Ok(seq![t] + rest),
                Result::Err(e) => Result::Err(e),
            }
        },
        NextV::End => Result::Ok(Seq::empty()),
        NextV::Fail(e) => Result::Err(e),
    }
}

/// The whole-input scan: from the start of the text, on line 0, column 0.
pub open spec fn spec_scan(s: Seq<u8>) -> Result<Seq<TokenV>, ScanErrorV> {
    spec_scan_from(s, 0, 0, 0)
}

} // verus!
