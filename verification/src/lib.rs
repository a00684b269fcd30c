//! Lexical front end for a small dynamically-typed scripting language.
//!
//! The scanner walks a block of source text once, left to right, and emits
//! classified tokens with exact source slices, decoded literals and full
//! line/column metadata, or stops at the first lexical error.  Its behaviour
//! is specified against a mathematical scanning relation (`model`) over the
//! lexical grammar (`grammar`), and the laws that relation obeys — maximal
//! munch, span/lexeme agreement, line and column accuracy — are proved in
//! `laws`.

use vstd::prelude::*;

pub mod grammar;
pub mod laws;
pub mod model;
pub mod object;
pub mod scan;
pub mod token;

use crate::model::spec_scan;
use crate::object::{Object, ObjectV};
use crate::scan::{copy_range, token_views, ScanError, Scanner};

verus! {

/// Failure of handling a block of source text.  The scanner's errors are
/// the only ones the lexical front end can raise.
#[derive(Debug, Clone, PartialEq, Eq)]
pub enum LoxError {
    Scan(ScanError),
}

/// The interpreter shell: one of these lives across an interactive session
/// and remembers whether the session has reported an error.
pub struct JLox {
    pub had_error: bool,
}

impl JLox {
    /// A fresh shell with no error recorded.
    pub fn new() -> (r: JLox)
        ensures
            !r.had_error,
    {
        JLox { had_error: false }
    }

    /// Scans one block of source text and hands back the literal value of
    /// its last token — the stand-in "result" of a block until a parser
    /// consumes the token sequence.  An empty or trivia-only block yields an
    /// absent value; the first lexical error is returned as-is.
    pub fn handle_source(&mut self, source: &Vec<u8>) -> (r: Result<Object, LoxError>)
        ensures
            *final(self) == *old(self),
            match spec_scan(source@) {
                Ok(ts) => r matches Ok(o) && o@ == (if ts.len() == 0 {
                    ObjectV::Absent
                } else {
                    ts.last().object
                }),
                Err(e) => r matches Err(le) && le matches LoxError::Scan(se) && se@ == e,
            },
    {
        let src = copy_range(source, 0, source.len());
        proof {
            assert(source@.subrange(0, source@.len() as int) =~= source@);
        }
        let mut scanner = Scanner::new(src);
        match scanner.scan() {
            Ok(mut tokens) => {
                proof {
                    if tokens@.len() > 0 {
                        assert(token_views(tokens@).last() == tokens@.last()@);
                    }
                }
                match tokens.pop() {
                    Some(t) => Ok(t.into_object()),
                    None => Ok(Object::Absent),
                }
            },
            Err(e) => Err(LoxError::Scan(e)),
        }
    }

    /// Clears the session's error flag, readying the shell for the next
    /// interactive line.
    pub fn reset_error(&mut self)
        ensures
            !final(self).had_error,
    {
        self.had_error = false;
    }
}

} // verus!
