//! The literal payload attached to a token.
//!
//! Only string and number tokens carry a payload.  A string literal carries
//! the text strictly between its quotes; a number literal carries its exact
//! lexeme, so that a driver may decode it with whatever numeric
//! representation it uses without the scanner committing to one.

use vstd::prelude::*;

verus! {

/// Literal value of a token: absent, the text of a string literal, or the
/// digits of a number literal.
#[derive(Debug, Clone, PartialEq, Eq)]
pub enum Object {
    Absent,
    Text(Vec<u8>),
    Number(Vec<u8>),
}

/// Ghost mirror of `Object` over mathematical sequences.
pub enum ObjectV {
    Absent,
    Text(Seq<u8>),
    Number(Seq<u8>),
}

impl View for Object {
    type V = ObjectV;

    open spec fn view(&self) -> ObjectV {
        match self {
            Object::Absent => ObjectV::Absent,
            Object::Text(t) => ObjectV::Text(t@),
            Object::Number(t) => ObjectV::Number(t@),
        }
    }
}

impl Object {
    /// A fresh, absent literal.
    pub fn new() -> (r: Object)
        ensures
            r@ is Absent,
    {
        Object::Absent
    }

    /// True when no literal value is attached.
    pub fn is_none(&self) -> (r: bool)
        ensures
            r == (self@ is Absent),
    {
        match self {
            Object::Absent => true,
            _ => false,
        }
    }

    /// True when a string or number payload is attached.
    pub fn is_some(&self) -> (r: bool)
        ensures
            r == !(self@ is Absent),
    {
        match self {
            Object::Absent => false,
            _ => true,
        }
    }
}

} // verus!
