//! The value type carried by commands: what a caller hands to `Set`,
//! `Push` and their cluster-scoped kin.

use vstd::prelude::*;

use crate::lexi_data::ValueModel;

verus! {

/// A caller-supplied value.  Commands accept only the `BulkString` and
/// `Int` kinds; supplying any other kind is rejected before any byte is
/// written.
#[derive(Debug)]
pub enum LexiType {
    BulkString(String),
    Array(Vec<LexiType>),
    Int(i64),
    Simple(String),
    Error(String),
}

impl From<String> for LexiType {
    fn from(v: String) -> Self {
        LexiType::BulkString(v)
    }
}

impl vstd::std_specs::convert::FromSpecImpl<String> for LexiType {
    open spec fn obeys_from_spec() -> bool {
        true
    }

    open spec fn from_spec(v: String) -> Self {
        LexiType::BulkString(v)
    }
}

impl<'a> From<&'a str> for LexiType {
    fn from(v: &'a str) -> (r: Self)
        ensures
            r matches LexiType::BulkString(s) && s@ == v@,
    {
        LexiType::BulkString(v.to_owned())
    }
}

impl<'a> vstd::std_specs::convert::FromSpecImpl<&'a str> for LexiType {
    open spec fn obeys_from_spec() -> bool {
        false
    }

    open spec fn from_spec(v: &'a str) -> Self {
        LexiType::BulkString(choose|s: String| s@ == v@)
    }
}

impl From<i64> for LexiType {
    fn from(v: i64) -> Self {
        LexiType::Int(v)
    }
}

impl vstd::std_specs::convert::FromSpecImpl<i64> for LexiType {
    open spec fn obeys_from_spec() -> bool {
        true
    }

    open spec fn from_spec(v: i64) -> Self {
        LexiType::Int(v)
    }
}

impl From<i32> for LexiType {
    fn from(v: i32) -> Self {
        LexiType::Int(v as i64)
    }
}

impl vstd::std_specs::convert::FromSpecImpl<i32> for LexiType {
    open spec fn obeys_from_spec() -> bool {
        true
    }

    open spec fn from_spec(v: i32) -> Self {
        LexiType::Int(v as i64)
    }
}

impl From<i16> for LexiType {
    fn from(v: i16) -> Self {
        LexiType::Int(v as i64)
    }
}

impl vstd::std_specs::convert::FromSpecImpl<i16> for LexiType {
    open spec fn obeys_from_spec() -> bool {
        true
    }

    open spec fn from_spec(v: i16) -> Self {
        LexiType::Int(v as i64)
    }
}

impl From<i8> for LexiType {
    fn from(v: i8) -> Self {
        LexiType::Int(v as i64)
    }
}

impl vstd::std_specs::convert::FromSpecImpl<i8> for LexiType {
    open spec fn obeys_from_spec() -> bool {
        true
    }

    open spec fn from_spec(v: i8) -> Self {
        LexiType::Int(v as i64)
    }
}

impl From<u32> for LexiType {
    fn from(v: u32) -> Self {
        LexiType::Int(v as i64)
    }
}

impl vstd::std_specs::convert::FromSpecImpl<u32> for LexiType {
    open spec fn obeys_from_spec() -> bool {
        true
    }

    open spec fn from_spec(v: u32) -> Self {
        LexiType::Int(v as i64)
    }
}

impl From<u16> for LexiType {
    fn from(v: u16) -> Self {
        LexiType::Int(v as i64)
    }
}

impl vstd::std_specs::convert::FromSpecImpl<u16> for LexiType {
    open spec fn obeys_from_spec() -> bool {
        true
    }

    open spec fn from_spec(v: u16) -> Self {
        LexiType::Int(v as i64)
    }
}

impl From<u8> for LexiType {
    fn from(v: u8) -> Self {
        LexiType::Int(v as i64)
    }
}

impl vstd::std_specs::convert::FromSpecImpl<u8> for LexiType {
    open spec fn obeys_from_spec() -> bool {
        true
    }

    open spec fn from_spec(v: u8) -> Self {
        LexiType::Int(v as i64)
    }
}

/// The frame value of a command-carried `BulkString` or `Int`.
pub open spec fn lexi_type_model(v: LexiType) -> ValueModel
    recommends
        v is BulkString || v is Int,
{
    match v {
        LexiType::BulkString(s) => ValueModel::Bulk(vstd::utf8::encode_utf8(s@)),
        LexiType::Int(i) => ValueModel::Int(i as int),
        _ => ValueModel::Int(0),
    }
}

} // verus!
