//! Run-time values: the tagged union the interpreter computes with.

use vstd::prelude::*;
use crate::function::{Function, FunctionV};
use crate::numeric::eq_bits;

verus! {

/// A run-time value.  `Number` carries the IEEE-754 binary64 bit pattern
/// of the value.  `Str` carries text.
#[derive(Debug)]
pub enum Object {
    Boolean { value: bool },
    Null,
    Number { bits: u64 },
    Str { text: String },
    Callable { func: Function },
}

/// The mathematical view of a run-time value.
#[verifier::ext_equal]
pub enum ObjectV {
    Boolean { value: bool },
    Null,
    Number { bits: u64 },
    Str { text: Seq<char> },
    Callable { func: FunctionV },
}

impl DeepView for Object {
    type V = ObjectV;

    open spec fn deep_view(&self) -> ObjectV {
        match self {
            Object::Boolean { value } => ObjectV::Boolean { value: *value },
            Object::Null => ObjectV::Null,
            Object::Number { bits } => ObjectV::Number { bits: *bits },
            Object::Str { text } => ObjectV::Str { text: text@ },
            Object::Callable { func } => ObjectV::Callable { func: func.deep_view() },
        }
    }
}

/// Structural equality of values: same-variant comparison only, numbers
/// by IEEE-754 equality of their patterns, and callables never equal.
pub open spec fn obj_eq(a: ObjectV, b: ObjectV) -> bool {
    match a {
        ObjectV::Boolean { value: x } => match b {
            ObjectV::Boolean { value: y } => x == y,
            _ => false,
        },
        ObjectV::Null => match b {
            ObjectV::Null => true,
            _ => false,
        },
        ObjectV::Number { bits: x } => match b {
            ObjectV::Number { bits: y } => eq_bits(x, y),
            _ => false,
        },
        ObjectV::Str { text: x } => match b {
            ObjectV::Str { text: y } => x == y,
            _ => false,
        },
        ObjectV::Callable { func: _ } => false,
    }
}

impl Object {
    /// Structural equality, as `obj_eq` states it.
    pub fn equals(&self, other: &Object) -> (r: bool)
        ensures
            r == obj_eq(self.deep_view(), other.deep_view()),
    {
        match self {
            Object::Boolean { value: x } => match other {
                Object::Boolean { value: y } => *x == *y,
                _ => false,
            },
            Object::Null => match other {
                Object::Null => true,
                _ => false,
            },
            Object::Number { bits: x } => match other {
                Object::Number { bits: y } => crate::numeric::num_eq(*x, *y),
                _ => false,
            },
            Object::Str { text: x } => match other {
                Object::Str { text: y } => *x == *y,
                _ => false,
            },
            Object::Callable { func: _ } => false,
        }
    }
}

impl Clone for Object {
    fn clone(&self) -> (r: Object)
        ensures
            r.deep_view() == self.deep_view(),
    {
        match self {
            Object::Boolean { value } => Object::Boolean { value: *value },
            Object::Null => Object::Null,
            Object::Number { bits } => Object::Number { bits: *bits },
            Object::Str { text } => Object::Str { text: text.clone() },
            Object::Callable { func } => Object::Callable { func: func.clone() },
        }
    }
}

} // verus!
