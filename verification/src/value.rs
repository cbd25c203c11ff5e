//! The unit of stored data: a closed tagged union of string, integer and bool.

use vstd::prelude::*;

verus! {

/// A value held by an object field.
#[derive(Clone, Debug, PartialEq)]
pub enum Value {
    String(String),
    Integer(i64),
    Bool(bool),
}

/// The mathematical model of a [Value].
pub enum ValueModel {
    Str(Seq<char>),
    Int(int),
    Bool(bool),
}

impl ValueModel {
    /// An integer value always fits the 64-bit signed range.
    pub open spec fn wf(self) -> bool {
        self matches ValueModel::Int(i) ==> i64::MIN <= i <= i64::MAX
    }
}

impl View for Value {
    type V = ValueModel;

    open spec fn view(&self) -> ValueModel {
        match self {
            Value::String(s) => ValueModel::Str(s@),
            Value::Integer(i) => ValueModel::Int(*i as int),
            Value::Bool(b) => ValueModel::Bool(*b),
        }
    }
}

impl Value {
    /// Returns the inner string of a string value, and nothing otherwise.
    pub fn as_string(&self) -> (r: Option<&String>)
        ensures
            match r {
                Some(s) => self@ matches ValueModel::Str(t) && s@ == t,
                None => !(self@ is Str),
            },
    {
        match self {
            Value::String(val) => Some(val),
            _ => None,
        }
    }
}

} // verus!
