//! Logical types, fields and schemas.

use vstd::prelude::*;
use std::sync::Arc;
use crate::common::name_map::NameMap;
use crate::common::text::strings_equal;
use crate::common::types::LabelId;

verus! {

/// The type of a column or a property.
#[derive(Debug, PartialEq, Eq)]
pub enum LogicalType {
    Null,
    Boolean,
    Int8,
    Int16,
    Int32,
    Int64,
    UInt8,
    UInt16,
    UInt32,
    UInt64,
    Float32,
    Float64,
    String,
    /// A vector with its dimension.
    Vector(usize),
    /// A vertex with its properties.
    Vertex(Arc<Vec<DataField>>),
    /// An edge with its properties.
    Edge(Arc<Vec<DataField>>),
}

impl Clone for LogicalType {
    fn clone(&self) -> (r: Self)
        ensures
            r == *self,
    {
        match self {
            LogicalType::Null => LogicalType::Null,
            LogicalType::Boolean => LogicalType::Boolean,
            LogicalType::Int8 => LogicalType::Int8,
            LogicalType::Int16 => LogicalType::Int16,
            LogicalType::Int32 => LogicalType::Int32,
            LogicalType::Int64 => LogicalType::Int64,
            LogicalType::UInt8 => LogicalType::UInt8,
            LogicalType::UInt16 => LogicalType::UInt16,
            LogicalType::UInt32 => LogicalType::UInt32,
            LogicalType::UInt64 => LogicalType::UInt64,
            LogicalType::Float32 => LogicalType::Float32,
            LogicalType::Float64 => LogicalType::Float64,
            LogicalType::String => LogicalType::String,
            LogicalType::Vector(n) => LogicalType::Vector(*n),
            LogicalType::Vertex(fields) => LogicalType::Vertex(fields.clone()),
            LogicalType::Edge(fields) => LogicalType::Edge(fields.clone()),
        }
    }
}

/// A named column.
#[derive(Debug, PartialEq, Eq)]
pub struct DataField {
    pub name: String,
    pub ty: LogicalType,
    pub nullable: bool,
}

impl Clone for DataField {
    fn clone(&self) -> (r: Self)
        ensures
            r == *self,
    {
        DataField { name: self.name.clone(), ty: self.ty.clone(), nullable: self.nullable }
    }
}

impl DataField {
    pub fn new(name: String, ty: LogicalType, nullable: bool) -> (r: Self)
        ensures
            r == (DataField { name, ty, nullable }),
    {
        DataField { name, ty, nullable }
    }

    pub fn name(&self) -> (r: &str)
        ensures
            r@ == self.name@,
    {
        self.name.as_str()
    }

    pub fn ty(&self) -> (r: &LogicalType)
        ensures
            *r == self.ty,
    {
        &self.ty
    }

    pub fn is_nullable(&self) -> (r: bool)
        ensures
            r == self.nullable,
    {
        self.nullable
    }
}

/// A copy of a list of fields.
pub fn copy_fields(fields: &Vec<DataField>) -> (r: Vec<DataField>)
    ensures
        r@ == fields@,
{
    let mut r: Vec<DataField> = Vec::new();
    let mut i: usize = 0;
    while i < fields.len()
        invariant
            i <= fields.len(),
            r@ == fields@.take(i as int),
        decreases fields.len() - i,
    {
        r.push(fields[i].clone());
        i = i + 1;
        assert(r@ =~= fields@.take(i as int));
    }
    assert(fields@.take(i as int) =~= fields@);
    r
}

/// Alternatives of label combinations: a vertex or edge matches where it has all labels of one.
pub type LabelSpecs = Arc<Vec<Vec<LabelId>>>;

/// The columns of a result, and the labels of the variables among them.
#[derive(Debug)]
pub struct DataSchema {
    pub fields: Vec<DataField>,
    pub var_labels: NameMap<LabelSpecs>,
}

/// The position of the first column with a name, from `from` on.
pub open spec fn field_index(fields: Seq<DataField>, name: Seq<char>, from: int) -> Option<int>
    decreases fields.len() - from,
{
    if from >= fields.len() {
        None
    } else if fields[from].name@ == name {
        Some(from)
    } else {
        field_index(fields, name, from + 1)
    }
}

/// A position that is found is in range and has the name.
pub proof fn lemma_field_index(fields: Seq<DataField>, name: Seq<char>, from: int)
    requires
        from >= 0,
    ensures
        field_index(fields, name, from) matches Some(i) ==> from <= i < fields.len()
            && fields[i].name@ == name,
    decreases fields.len() - from,
{
    if from < fields.len() && fields[from].name@ != name {
        lemma_field_index(fields, name, from + 1);
    }
}

impl DataSchema {
    /// A schema without labels.
    pub fn new(fields: Vec<DataField>) -> (r: Self)
        ensures
            r.fields == fields,
            r.var_labels@ == Map::<Seq<char>, LabelSpecs>::empty(),
            r.var_labels.wf(),
    {
        DataSchema { fields, var_labels: NameMap::new() }
    }

    pub fn fields(&self) -> (r: &Vec<DataField>)
        ensures
            *r == self.fields,
    {
        &self.fields
    }

    /// The position of the first column with a name.
    pub fn get_field_index_by_name(&self, name: &str) -> (r: Option<usize>)
        ensures
            field_index(self.fields@, name@, 0) == (match r {
                Some(i) => Some(i as int),
                None => None,
            }),
    {
        let mut i: usize = 0;
        while i < self.fields.len()
            invariant
                i <= self.fields.len(),
                field_index(self.fields@, name@, 0) == field_index(
                    self.fields@,
                    name@,
                    i as int,
                ),
            decreases self.fields.len() - i,
        {
            if strings_equal(self.fields[i].name.as_str(), name) {
                return Some(i);
            }
            i = i + 1;
        }
        None
    }

    /// The first column with a name.
    pub fn get_field_by_name(&self, name: &str) -> (r: Option<&DataField>)
        ensures
            match field_index(self.fields@, name@, 0) {
                Some(i) => r == Some(&self.fields@[i]),
                None => r is None,
            },
    {
        match self.get_field_index_by_name(name) {
            Some(i) => {
                proof {
                    lemma_field_index(self.fields@, name@, 0);
                }
                Some(&self.fields[i])
            },
            None => None,
        }
    }

    /// The labels of a variable.
    pub fn get_var_label(&self, name: &str) -> (r: Option<LabelSpecs>)
        ensures
            r == (if self.var_labels@.dom().contains(name@) {
                Some(self.var_labels@[name@])
            } else {
                None
            }),
    {
        match self.var_labels.get(name) {
            Some(labels) => Some(labels.clone()),
            None => None,
        }
    }
}

} // verus!
