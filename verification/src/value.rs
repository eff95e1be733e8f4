//! The library's own representation of a decoded JSON document.
//!
//! A response from the engine arrives as untyped, positionally structured
//! JSON. This module models such a document as a plain tree of values so
//! that every access the decoder makes can be reasoned about. Numbers with
//! a fractional part are carried as the IEEE 754 bit pattern of the
//! corresponding 64-bit value, so the tree itself stays free of
//! floating-point arithmetic.

use vstd::prelude::*;

verus! {

/// One node of a decoded JSON document.
///
/// `Float` holds the IEEE 754 bit pattern of the number (obtain the number
/// itself with `f64::from_bits`). `Dict` holds the members of a JSON object
/// in the order the underlying parser handed them out; that order carries no
/// meaning.
#[derive(Debug, PartialEq)]
pub enum Value {
    Null,
    True,
    False,
    Integer(i64),
    Float(u64),
    Str(String),
    Array(Vec<Value>),
    Dict(Vec<(String, Value)>),
}

impl Value {
    /// True when this node is an array.
    pub fn is_array(&self) -> (r: bool)
        ensures
            r == (self is Array),
    {
        match self {
            Value::Array(_) => true,
            _ => false,
        }
    }

    /// The element at position `i` of an array node; absent when this node
    /// is not an array or the position is out of range.
    pub fn at(&self, i: usize) -> (r: Option<&Value>)
        ensures
            r is Some <==> (self is Array && i < self->Array_0@.len()),
            r is Some ==> *r->Some_0 == self->Array_0@[i as int],
    {
        match self {
            Value::Array(elems) => {
                if i < elems.len() {
                    Some(&elems[i])
                } else {
                    None
                }
            },
            _ => None,
        }
    }

    /// The integer carried by this node; absent when the node is not an
    /// integer.
    pub fn into_i64(&self) -> (r: Option<i64>)
        ensures
            r is Some <==> self is Integer,
            r is Some ==> r->Some_0 == self->Integer_0,
    {
        match self {
            Value::Integer(v) => Some(*v),
            _ => None,
        }
    }

    /// The bit pattern of the 64-bit float carried by this node; absent when
    /// the node is not a float.
    pub fn into_f64_bits(&self) -> (r: Option<u64>)
        ensures
            r is Some <==> self is Float,
            r is Some ==> r->Some_0 == self->Float_0,
    {
        match self {
            Value::Float(v) => Some(*v),
            _ => None,
        }
    }

    /// The text carried by this node; absent when the node is not a string.
    pub fn into_string(&self) -> (r: Option<&String>)
        ensures
            r is Some <==> self is Str,
            r is Some ==> *r->Some_0 == self->Str_0,
    {
        match self {
            Value::Str(v) => Some(v),
            _ => None,
        }
    }

    /// The elements of this node when it is an array; absent otherwise.
    pub fn into_vec(&self) -> (r: Option<&Vec<Value>>)
        ensures
            r is Some <==> self is Array,
            r is Some ==> *r->Some_0 == self->Array_0,
    {
        match self {
            Value::Array(v) => Some(v),
            _ => None,
        }
    }
}

} // verus!
