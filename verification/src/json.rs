//! The JSON values in which stories keep field values: the shape of a
//! `serde_json` value, with numbers in `serde_json`'s three representations.

use vstd::prelude::*;
use crate::types::{FloatBits, is_finite_bits};

verus! {

/// A JSON number as `serde_json` stores it: a non-negative integer, a
/// negative integer, or a finite float.
#[derive(Clone, Copy, Debug, PartialEq, Eq, Structural)]
pub enum JsonNumber {
    PosInt(u64),
    NegInt(i64),
    Float(FloatBits),
}

/// A JSON value.
#[derive(Debug)]
pub enum JsonValue {
    Null,
    Bool(bool),
    Number(JsonNumber),
    String(String),
    Array(Vec<JsonValue>),
    Object(Vec<(String, JsonValue)>),
}

/// The bits of the float that `serde_json::Number::as_f64` gives for a
/// non-negative integer.
pub uninterp spec fn u64_float_bits(u: u64) -> u64;

/// The bits of the float that `serde_json::Number::as_f64` gives for a
/// negative integer.
pub uninterp spec fn i64_float_bits(i: i64) -> u64;

/// `serde_json::Number::as_f64` on a number made from a `u64`: the crate's
/// source returns `Some(u as f64)` there; which float that is, is named.
#[verifier::external_body]
fn serde_u64_as_f64(u: u64) -> (r: Option<u64>)
    ensures
        r == Some(u64_float_bits(u)),
{
    serde_json::Number::from(u).as_f64().map(|x| x.to_bits())
}

/// `serde_json::Number::as_f64` on a number made from an `i64`: the crate's
/// source returns `Some(i as f64)` there; which float that is, is named.
#[verifier::external_body]
fn serde_i64_as_f64(i: i64) -> (r: Option<u64>)
    ensures
        r == Some(i64_float_bits(i)),
{
    serde_json::Number::from(i).as_f64().map(|x| x.to_bits())
}

impl JsonNumber {
    /// The representation invariant of `serde_json`: negative integers are
    /// negative and floats are finite.
    pub open spec fn wf(self) -> bool {
        match self {
            JsonNumber::PosInt(_) => true,
            JsonNumber::NegInt(i) => i < 0,
            JsonNumber::Float(f) => is_finite_bits(f.bits),
        }
    }

    pub open spec fn spec_as_i64(self) -> Option<i64> {
        match self {
            JsonNumber::PosInt(u) => if u <= i64::MAX {
                Some(u as i64)
            } else {
                None
            },
            JsonNumber::NegInt(i) => Some(i),
            JsonNumber::Float(_) => None,
        }
    }

    pub open spec fn spec_as_u64(self) -> Option<u64> {
        match self {
            JsonNumber::PosInt(u) => Some(u),
            _ => None,
        }
    }

    pub open spec fn spec_as_f64(self) -> Option<FloatBits> {
        match self {
            JsonNumber::PosInt(u) => Some(FloatBits { bits: u64_float_bits(u) }),
            JsonNumber::NegInt(i) => Some(FloatBits { bits: i64_float_bits(i) }),
            JsonNumber::Float(f) => Some(f),
        }
    }

    /// The number made from an `i64` (`serde_json`'s `From<i64>`).
    pub open spec fn spec_from_i64(i: i64) -> JsonNumber {
        if i < 0 {
            JsonNumber::NegInt(i)
        } else {
            JsonNumber::PosInt(i as u64)
        }
    }

    /// `Number::as_i64`: the integer, where it fits in an `i64`.
    pub fn as_i64(&self) -> (r: Option<i64>)
        ensures
            r == self.spec_as_i64(),
    {
        match self {
            JsonNumber::PosInt(u) => if *u <= i64::MAX as u64 {
                Some(*u as i64)
            } else {
                None
            },
            JsonNumber::NegInt(i) => Some(*i),
            JsonNumber::Float(_) => None,
        }
    }

    /// `Number::as_u64`: the integer, where it is non-negative.
    pub fn as_u64(&self) -> (r: Option<u64>)
        ensures
            r == self.spec_as_u64(),
    {
        match self {
            JsonNumber::PosInt(u) => Some(*u),
            _ => None,
        }
    }

    /// `Number::as_f64`: the number as a float.
    pub fn as_f64(&self) -> (r: Option<FloatBits>)
        ensures
            r == self.spec_as_f64(),
    {
        match self {
            JsonNumber::PosInt(u) => match serde_u64_as_f64(*u) {
                Some(bits) => Some(FloatBits { bits }),
                None => None,
            },
            JsonNumber::NegInt(i) => match serde_i64_as_f64(*i) {
                Some(bits) => Some(FloatBits { bits }),
                None => None,
            },
            JsonNumber::Float(f) => Some(*f),
        }
    }

    /// `From<i64> for Number`.
    pub fn from_i64(i: i64) -> (r: JsonNumber)
        ensures
            r == Self::spec_from_i64(i),
            r.wf(),
    {
        if i < 0 {
            JsonNumber::NegInt(i)
        } else {
            JsonNumber::PosInt(i as u64)
        }
    }
}

impl JsonValue {
    /// `Value::as_u64`: the integer held by a non-negative integer number.
    pub open spec fn spec_as_u64(self) -> Option<u64> {
        match self {
            JsonValue::Number(n) => n.spec_as_u64(),
            _ => None,
        }
    }

    /// `Value::as_u64`.
    pub fn as_u64(&self) -> (r: Option<u64>)
        ensures
            r == self.spec_as_u64(),
    {
        match self {
            JsonValue::Number(n) => n.as_u64(),
            _ => None,
        }
    }
}

} // verus!
