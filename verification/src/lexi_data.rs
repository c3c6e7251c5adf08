//! The protocol's in-memory data model: decoded frames as finite value trees.

use vstd::prelude::*;
use vstd::string::{StrSliceExecFns, StringSliceAdditionalSpecFns};

verus! {

/// The closed set of simple-frame literals; any other simple text is a
/// decode error, never a new variant.
#[derive(Debug, PartialEq, Eq, Clone, Copy)]
pub enum SimpleString {
    Okay,
    Pong,
    Nothing,
}

/// A protocol value: a finite tree of frames.
///
/// `Bulk` and `Error` carry opaque byte runs; the codec is byte-agnostic and
/// callers treat them as text.  `Double` carries the decimal text of the
/// number exactly as it stands on the wire (digits with an optional `.`
/// fraction), so that encoding is bit-exact and the codec itself stays free
/// of floating-point arithmetic.
#[derive(Debug)]
pub enum LexiData {
    Simple(SimpleString),
    Int(i64),
    Double(Vec<u8>),
    Bulk(Vec<u8>),
    Error(Vec<u8>),
    Array(Vec<LexiData>),
}

/// The mathematical value of a frame: payloads as plain byte sequences,
/// integers unbounded.
#[verifier::ext_equal]
pub enum ValueModel {
    Simple(SimpleString),
    Int(int),
    Double(Seq<u8>),
    Bulk(Seq<u8>),
    Error(Seq<u8>),
    Array(Seq<ValueModel>),
}

impl<'a> From<&'a str> for LexiData {
    fn from(v: &'a str) -> (r: Self)
        ensures
            r matches LexiData::Bulk(b) && b@ == v.spec_bytes(),
    {
        LexiData::Bulk(v.as_bytes_vec())
    }
}

impl<'a> vstd::std_specs::convert::FromSpecImpl<&'a str> for LexiData {
    open spec fn obeys_from_spec() -> bool {
        false
    }

    open spec fn from_spec(v: &'a str) -> Self {
        LexiData::Bulk(choose|b: Vec<u8>| b@ == v.spec_bytes())
    }
}

impl From<String> for LexiData {
    fn from(v: String) -> (r: Self)
        ensures
            r matches LexiData::Bulk(b) && b@ == vstd::utf8::encode_utf8(v@),
    {
        LexiData::Bulk(v.as_str().as_bytes_vec())
    }
}

impl vstd::std_specs::convert::FromSpecImpl<String> for LexiData {
    open spec fn obeys_from_spec() -> bool {
        false
    }

    open spec fn from_spec(v: String) -> Self {
        LexiData::Bulk(choose|b: Vec<u8>| b@ == vstd::utf8::encode_utf8(v@))
    }
}

impl From<i64> for LexiData {
    fn from(v: i64) -> Self {
        LexiData::Int(v)
    }
}

impl vstd::std_specs::convert::FromSpecImpl<i64> for LexiData {
    open spec fn obeys_from_spec() -> bool {
        true
    }

    open spec fn from_spec(v: i64) -> Self {
        LexiData::Int(v)
    }
}

impl From<i32> for LexiData {
    fn from(v: i32) -> Self {
        LexiData::Int(v as i64)
    }
}

impl vstd::std_specs::convert::FromSpecImpl<i32> for LexiData {
    open spec fn obeys_from_spec() -> bool {
        true
    }

    open spec fn from_spec(v: i32) -> Self {
        LexiData::Int(v as i64)
    }
}

impl From<i16> for LexiData {
    fn from(v: i16) -> Self {
        LexiData::Int(v as i64)
    }
}

impl vstd::std_specs::convert::FromSpecImpl<i16> for LexiData {
    open spec fn obeys_from_spec() -> bool {
        true
    }

    open spec fn from_spec(v: i16) -> Self {
        LexiData::Int(v as i64)
    }
}

impl From<i8> for LexiData {
    fn from(v: i8) -> Self {
        LexiData::Int(v as i64)
    }
}

impl vstd::std_specs::convert::FromSpecImpl<i8> for LexiData {
    open spec fn obeys_from_spec() -> bool {
        true
    }

    open spec fn from_spec(v: i8) -> Self {
        LexiData::Int(v as i64)
    }
}

impl From<u32> for LexiData {
    fn from(v: u32) -> Self {
        LexiData::Int(v as i64)
    }
}

impl vstd::std_specs::convert::FromSpecImpl<u32> for LexiData {
    open spec fn obeys_from_spec() -> bool {
        true
    }

    open spec fn from_spec(v: u32) -> Self {
        LexiData::Int(v as i64)
    }
}

impl From<u16> for LexiData {
    fn from(v: u16) -> Self {
        LexiData::Int(v as i64)
    }
}

impl vstd::std_specs::convert::FromSpecImpl<u16> for LexiData {
    open spec fn obeys_from_spec() -> bool {
        true
    }

    open spec fn from_spec(v: u16) -> Self {
        LexiData::Int(v as i64)
    }
}

impl From<u8> for LexiData {
    fn from(v: u8) -> Self {
        LexiData::Int(v as i64)
    }
}

impl vstd::std_specs::convert::FromSpecImpl<u8> for LexiData {
    open spec fn obeys_from_spec() -> bool {
        true
    }

    open spec fn from_spec(v: u8) -> Self {
        LexiData::Int(v as i64)
    }
}

/// The mathematical value that a `LexiData` tree stands for.
pub open spec fn value_model_of(d: LexiData) -> ValueModel
    decreases d, 1int,
{
    match d {
        LexiData::Simple(s) => ValueModel::Simple(s),
        LexiData::Int(i) => ValueModel::Int(i as int),
        LexiData::Double(t) => ValueModel::Double(t@),
        LexiData::Bulk(b) => ValueModel::Bulk(b@),
        LexiData::Error(m) => ValueModel::Error(m@),
        LexiData::Array(items) => ValueModel::Array(models_of(items@)),
    }
}

/// The mathematical values of a run of `LexiData` trees, in order.
pub open spec fn models_of(items: Seq<LexiData>) -> Seq<ValueModel>
    decreases items, 0int,
{
    Seq::new(
        items.len(),
        |i: int|
            if 0 <= i < items.len() {
                value_model_of(items[i])
            } else {
                ValueModel::Simple(SimpleString::Nothing)
            },
    )
}

/// Appending a tree to a run appends its value to the run's values.
pub proof fn lemma_models_of_push(items: Seq<LexiData>, d: LexiData)
    ensures
        models_of(items.push(d)) =~= models_of(items).push(value_model_of(d)),
{
}

impl View for LexiData {
    type V = ValueModel;

    open spec fn view(&self) -> ValueModel {
        value_model_of(*self)
    }
}

} // verus!
