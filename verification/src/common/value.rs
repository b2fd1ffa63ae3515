//! Scalar values.

use vstd::prelude::*;
use std::sync::Arc;

verus! {

/// A floating-point number in single precision, by its bits.
#[derive(Clone, Copy, Debug, PartialEq, Eq, Hash, Structural)]
pub struct F32 {
    pub bits: u32,
}

/// A floating-point number in double precision, by its bits.
#[derive(Clone, Copy, Debug, PartialEq, Eq, Hash, Structural)]
pub struct F64 {
    pub bits: u64,
}

/// A vector of single-precision numbers.
#[derive(Debug, PartialEq, Eq)]
pub struct VectorValue {
    pub data: Arc<Vec<F32>>,
}

impl Clone for VectorValue {
    fn clone(&self) -> (r: Self)
        ensures
            r == *self,
    {
        VectorValue { data: self.data.clone() }
    }
}

/// A single value, possibly null.
#[derive(Debug, PartialEq, Eq)]
pub enum ScalarValue {
    Null,
    Boolean(Option<bool>),
    Int8(Option<i8>),
    Int16(Option<i16>),
    Int32(Option<i32>),
    Int64(Option<i64>),
    UInt8(Option<u8>),
    UInt16(Option<u16>),
    UInt32(Option<u32>),
    UInt64(Option<u64>),
    Float32(Option<F32>),
    Float64(Option<F64>),
    String(Option<String>),
    Vector(Option<VectorValue>),
}

impl Clone for ScalarValue {
    fn clone(&self) -> (r: Self)
        ensures
            r == *self,
    {
        match self {
            ScalarValue::Null => ScalarValue::Null,
            ScalarValue::Boolean(v) => ScalarValue::Boolean(*v),
            ScalarValue::Int8(v) => ScalarValue::Int8(*v),
            ScalarValue::Int16(v) => ScalarValue::Int16(*v),
            ScalarValue::Int32(v) => ScalarValue::Int32(*v),
            ScalarValue::Int64(v) => ScalarValue::Int64(*v),
            ScalarValue::UInt8(v) => ScalarValue::UInt8(*v),
            ScalarValue::UInt16(v) => ScalarValue::UInt16(*v),
            ScalarValue::UInt32(v) => ScalarValue::UInt32(*v),
            ScalarValue::UInt64(v) => ScalarValue::UInt64(*v),
            ScalarValue::Float32(v) => ScalarValue::Float32(*v),
            ScalarValue::Float64(v) => ScalarValue::Float64(*v),
            ScalarValue::String(None) => ScalarValue::String(None),
            ScalarValue::String(Some(s)) => ScalarValue::String(Some(s.clone())),
            ScalarValue::Vector(None) => ScalarValue::Vector(None),
            ScalarValue::Vector(Some(v)) => ScalarValue::Vector(Some(v.clone())),
        }
    }
}

/// An optional value together with its copy.
pub fn copy_value(v: &Option<ScalarValue>) -> (r: Option<ScalarValue>)
    ensures
        r == *v,
{
    match v {
        None => None,
        Some(x) => Some(x.clone()),
    }
}

/// A value without regard to how it is stored.
pub enum ValueModel {
    Null,
    Boolean(Option<bool>),
    Int8(Option<i8>),
    Int16(Option<i16>),
    Int32(Option<i32>),
    Int64(Option<i64>),
    UInt8(Option<u8>),
    UInt16(Option<u16>),
    UInt32(Option<u32>),
    UInt64(Option<u64>),
    Float32(Option<F32>),
    Float64(Option<F64>),
    String(Option<Seq<char>>),
    Vector(Option<Seq<F32>>),
}

impl ScalarValue {
    pub open spec fn model(self) -> ValueModel {
        match self {
            ScalarValue::Null => ValueModel::Null,
            ScalarValue::Boolean(v) => ValueModel::Boolean(v),
            ScalarValue::Int8(v) => ValueModel::Int8(v),
            ScalarValue::Int16(v) => ValueModel::Int16(v),
            ScalarValue::Int32(v) => ValueModel::Int32(v),
            ScalarValue::Int64(v) => ValueModel::Int64(v),
            ScalarValue::UInt8(v) => ValueModel::UInt8(v),
            ScalarValue::UInt16(v) => ValueModel::UInt16(v),
            ScalarValue::UInt32(v) => ValueModel::UInt32(v),
            ScalarValue::UInt64(v) => ValueModel::UInt64(v),
            ScalarValue::Float32(v) => ValueModel::Float32(v),
            ScalarValue::Float64(v) => ValueModel::Float64(v),
            ScalarValue::String(None) => ValueModel::String(None),
            ScalarValue::String(Some(s)) => ValueModel::String(Some(s@)),
            ScalarValue::Vector(None) => ValueModel::Vector(None),
            ScalarValue::Vector(Some(v)) => ValueModel::Vector(Some(v.data@)),
        }
    }
}

/// Values without regard to how they are stored.
pub open spec fn value_models(values: Seq<ScalarValue>) -> Seq<ValueModel> {
    values.map_values(|v: ScalarValue| v.model())
}

} // verus!
