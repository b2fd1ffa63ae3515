//! Property values as the fields of a record.

use vstd::prelude::*;
use crate::catalog::graph_type::{Property, PropertyModel};
use crate::common::data_type::LogicalType;
use crate::common::parse::{
    integer_text_is_read_back, integer_value, parse_integer, parse_unsigned,
    unsigned_text_is_read_back, unsigned_value,
};
use crate::common::text::{decimal, decimal_text, integer_decimal, integer_text, strings_equal};
use crate::common::value::{ScalarValue, ValueModel, F32, F64};
use crate::planner::binder::error::NotImplemented;

verus! {

/// A field of a record that was read: its text, and the floating-point numbers that the text
/// stands for, where it stands for any.
#[derive(Debug)]
pub struct Field {
    pub text: String,
    pub float32: Option<F32>,
    pub float64: Option<F64>,
}

pub struct FieldModel {
    pub text: Seq<char>,
    pub float32: Option<F32>,
    pub float64: Option<F64>,
}

impl View for Field {
    type V = FieldModel;

    open spec fn view(&self) -> FieldModel {
        FieldModel { text: self.text@, float32: self.float32, float64: self.float64 }
    }
}

/// Fields without regard to how they are stored.
pub open spec fn field_models(fields: Seq<Field>) -> Seq<FieldModel> {
    fields.map_values(|f: Field| f@)
}

/// A field of a record to be written. A floating-point number is written by its own text.
#[derive(Debug, PartialEq, Eq)]
pub enum Cell {
    Text(String),
    Float32(F32),
    Float64(F64),
}

pub enum CellModel {
    Text(Seq<char>),
    Float32(F32),
    Float64(F64),
}

impl View for Cell {
    type V = CellModel;

    open spec fn view(&self) -> CellModel {
        match self {
            Cell::Text(text) => CellModel::Text(text@),
            Cell::Float32(v) => CellModel::Float32(*v),
            Cell::Float64(v) => CellModel::Float64(*v),
        }
    }
}

/// Cells without regard to how they are stored.
pub open spec fn cell_models(cells: Seq<Cell>) -> Seq<CellModel> {
    cells.map_values(|c: Cell| c@)
}

/// Why a graph cannot be imported.
#[derive(Debug)]
pub enum ImportError {
    InvalidInteger(String),
    InvalidBoolean(String),
    InvalidFloat(String),
    /// A property without a type has a text.
    NotEmpty,
    NotImplemented(NotImplemented),
    /// A record does not have a field for each property; this is the number of its fields.
    RecordLength(usize),
    /// The end of an edge is no vertex that has been imported.
    UnknownVertex(u64),
    /// There are no vertices, or no edges, with a label.
    UnknownLabel(String),
    /// A label occurs twice.
    DuplicateLabel(String),
    /// There are more labels than numbers for them.
    TooManyLabels,
}

pub enum ImportFailure {
    InvalidInteger(Seq<char>),
    InvalidBoolean(Seq<char>),
    InvalidFloat(Seq<char>),
    NotEmpty,
    NotImplemented { feature: Seq<char>, issue: Option<u32> },
    RecordLength(nat),
    UnknownVertex(u64),
    UnknownLabel(Seq<char>),
    DuplicateLabel(Seq<char>),
    TooManyLabels,
}

/// What is not implemented has no name and no issue.
pub open spec fn not_implemented_failure() -> ImportFailure {
    ImportFailure::NotImplemented { feature: Seq::empty(), issue: None }
}

impl View for ImportError {
    type V = ImportFailure;

    open spec fn view(&self) -> ImportFailure {
        match self {
            ImportError::InvalidInteger(text) => ImportFailure::InvalidInteger(text@),
            ImportError::InvalidBoolean(text) => ImportFailure::InvalidBoolean(text@),
            ImportError::InvalidFloat(text) => ImportFailure::InvalidFloat(text@),
            ImportError::NotEmpty => ImportFailure::NotEmpty,
            ImportError::NotImplemented(e) => ImportFailure::NotImplemented {
                feature: e.feature@,
                issue: e.issue,
            },
            ImportError::RecordLength(n) => ImportFailure::RecordLength(*n as nat),
            ImportError::UnknownVertex(vid) => ImportFailure::UnknownVertex(*vid),
            ImportError::UnknownLabel(label) => ImportFailure::UnknownLabel(label@),
            ImportError::DuplicateLabel(label) => ImportFailure::DuplicateLabel(label@),
            ImportError::TooManyLabels => ImportFailure::TooManyLabels,
        }
    }
}

// ---------------------------------------------------------------------------------------------
// Reading
// ---------------------------------------------------------------------------------------------

/// The absent value of a type, where there is one.
pub open spec fn absent_value(ty: LogicalType) -> Option<ValueModel> {
    match ty {
        LogicalType::Int8 => Some(ValueModel::Int8(None)),
        LogicalType::Int16 => Some(ValueModel::Int16(None)),
        LogicalType::Int32 => Some(ValueModel::Int32(None)),
        LogicalType::Int64 => Some(ValueModel::Int64(None)),
        LogicalType::UInt8 => Some(ValueModel::UInt8(None)),
        LogicalType::UInt16 => Some(ValueModel::UInt16(None)),
        LogicalType::UInt32 => Some(ValueModel::UInt32(None)),
        LogicalType::UInt64 => Some(ValueModel::UInt64(None)),
        LogicalType::Boolean => Some(ValueModel::Boolean(None)),
        LogicalType::Float32 => Some(ValueModel::Float32(None)),
        LogicalType::Float64 => Some(ValueModel::Float64(None)),
        LogicalType::String => Some(ValueModel::String(None)),
        LogicalType::Null => Some(ValueModel::Null),
        _ => None,
    }
}

/// The value of a type that a field stands for.
pub open spec fn present_value(ty: LogicalType, field: FieldModel) -> Result<
    ValueModel,
    ImportFailure,
> {
    let text = field.text;
    let no_integer = Err(ImportFailure::InvalidInteger(text));
    match ty {
        LogicalType::Int8 => match integer_value(text, i8::MIN as int, i8::MAX as int) {
            Some(n) => Ok(ValueModel::Int8(Some(n as i8))),
            None => no_integer,
        },
        LogicalType::Int16 => match integer_value(text, i16::MIN as int, i16::MAX as int) {
            Some(n) => Ok(ValueModel::Int16(Some(n as i16))),
            None => no_integer,
        },
        LogicalType::Int32 => match integer_value(text, i32::MIN as int, i32::MAX as int) {
            Some(n) => Ok(ValueModel::Int32(Some(n as i32))),
            None => no_integer,
        },
        LogicalType::Int64 => match integer_value(text, i64::MIN as int, i64::MAX as int) {
            Some(n) => Ok(ValueModel::Int64(Some(n as i64))),
            None => no_integer,
        },
        LogicalType::UInt8 => match unsigned_value(text, u8::MAX as nat) {
            Some(n) => Ok(ValueModel::UInt8(Some(n as u8))),
            None => no_integer,
        },
        LogicalType::UInt16 => match unsigned_value(text, u16::MAX as nat) {
            Some(n) => Ok(ValueModel::UInt16(Some(n as u16))),
            None => no_integer,
        },
        LogicalType::UInt32 => match unsigned_value(text, u32::MAX as nat) {
            Some(n) => Ok(ValueModel::UInt32(Some(n as u32))),
            None => no_integer,
        },
        LogicalType::UInt64 => match unsigned_value(text, u64::MAX as nat) {
            Some(n) => Ok(ValueModel::UInt64(Some(n as u64))),
            None => no_integer,
        },
        LogicalType::Boolean => if text == "true"@ {
            Ok(ValueModel::Boolean(Some(true)))
        } else if text == "false"@ {
            Ok(ValueModel::Boolean(Some(false)))
        } else {
            Err(ImportFailure::InvalidBoolean(text))
        },
        LogicalType::Float32 => match field.float32 {
            Some(v) => Ok(ValueModel::Float32(Some(v))),
            None => Err(ImportFailure::InvalidFloat(text)),
        },
        LogicalType::Float64 => match field.float64 {
            Some(v) => Ok(ValueModel::Float64(Some(v))),
            None => Err(ImportFailure::InvalidFloat(text)),
        },
        LogicalType::String => Ok(ValueModel::String(Some(text))),
        LogicalType::Null => Err(ImportFailure::NotEmpty),
        _ => Err(not_implemented_failure()),
    }
}

/// The value of a property that a field stands for. An empty field is the absent value, where the
/// property may be absent.
pub open spec fn value_read(property: PropertyModel, field: FieldModel) -> Result<
    ValueModel,
    ImportFailure,
> {
    if field.text.len() == 0 && property.nullable {
        match absent_value(property.ty) {
            Some(value) => Ok(value),
            None => Err(not_implemented_failure()),
        }
    } else {
        present_value(property.ty, field)
    }
}

fn not_implemented() -> (r: ImportError)
    ensures
        r@ == not_implemented_failure(),
{
    ImportError::NotImplemented(NotImplemented { feature: String::new(), issue: None })
}

fn signed(field: &Field, min: i64, max: i64) -> (r: Result<i64, ImportError>)
    requires
        min <= 0 <= max,
    ensures
        match integer_value(field.text@, min as int, max as int) {
            Some(n) => r == Ok::<i64, ImportError>(n as i64) && min <= n <= max,
            None => r matches Err(e) && e@ == ImportFailure::InvalidInteger(field.text@),
        },
{
    match parse_integer(field.text.as_str(), min, max) {
        Some(n) => Ok(n),
        None => Err(ImportError::InvalidInteger(field.text.clone())),
    }
}

/// The number up to a limit that a field stands for.
pub fn unsigned(field: &Field, max: u64) -> (r: Result<u64, ImportError>)
    ensures
        match unsigned_value(field.text@, max as nat) {
            Some(n) => r == Ok::<u64, ImportError>(n as u64) && n <= max,
            None => r matches Err(e) && e@ == ImportFailure::InvalidInteger(field.text@),
        },
{
    match parse_unsigned(field.text.as_str(), max) {
        Some(n) => Ok(n),
        None => Err(ImportError::InvalidInteger(field.text.clone())),
    }
}

/// The value of a property that a field stands for.
pub fn property_to_scalar_value(property: &Property, field: &Field) -> (r: Result<
    ScalarValue,
    ImportError,
>)
    ensures
        value_read(property.model(), field@) == (match r {
            Ok(value) => Ok(value.model()),
            Err(e) => Err(e@),
        }),
{
    if field.text.as_str().unicode_len() == 0 && property.nullable {
        return match &property.ty {
            LogicalType::Int8 => Ok(ScalarValue::Int8(None)),
            LogicalType::Int16 => Ok(ScalarValue::Int16(None)),
            LogicalType::Int32 => Ok(ScalarValue::Int32(None)),
            LogicalType::Int64 => Ok(ScalarValue::Int64(None)),
            LogicalType::UInt8 => Ok(ScalarValue::UInt8(None)),
            LogicalType::UInt16 => Ok(ScalarValue::UInt16(None)),
            LogicalType::UInt32 => Ok(ScalarValue::UInt32(None)),
            LogicalType::UInt64 => Ok(ScalarValue::UInt64(None)),
            LogicalType::Boolean => Ok(ScalarValue::Boolean(None)),
            LogicalType::Float32 => Ok(ScalarValue::Float32(None)),
            LogicalType::Float64 => Ok(ScalarValue::Float64(None)),
            LogicalType::String => Ok(ScalarValue::String(None)),
            LogicalType::Null => Ok(ScalarValue::Null),
            _ => Err(not_implemented()),
        };
    }
    match &property.ty {
        LogicalType::Int8 => match signed(field, i8::MIN as i64, i8::MAX as i64) {
            Ok(n) => Ok(ScalarValue::Int8(Some(n as i8))),
            Err(e) => Err(e),
        },
        LogicalType::Int16 => match signed(field, i16::MIN as i64, i16::MAX as i64) {
            Ok(n) => Ok(ScalarValue::Int16(Some(n as i16))),
            Err(e) => Err(e),
        },
        LogicalType::Int32 => match signed(field, i32::MIN as i64, i32::MAX as i64) {
            Ok(n) => Ok(ScalarValue::Int32(Some(n as i32))),
            Err(e) => Err(e),
        },
        LogicalType::Int64 => match signed(field, i64::MIN, i64::MAX) {
            Ok(n) => Ok(ScalarValue::Int64(Some(n))),
            Err(e) => Err(e),
        },
        LogicalType::UInt8 => match unsigned(field, u8::MAX as u64) {
            Ok(n) => Ok(ScalarValue::UInt8(Some(n as u8))),
            Err(e) => Err(e),
        },
        LogicalType::UInt16 => match unsigned(field, u16::MAX as u64) {
            Ok(n) => Ok(ScalarValue::UInt16(Some(n as u16))),
            Err(e) => Err(e),
        },
        LogicalType::UInt32 => match unsigned(field, u32::MAX as u64) {
            Ok(n) => Ok(ScalarValue::UInt32(Some(n as u32))),
            Err(e) => Err(e),
        },
        LogicalType::UInt64 => match unsigned(field, u64::MAX) {
            Ok(n) => Ok(ScalarValue::UInt64(Some(n))),
            Err(e) => Err(e),
        },
        LogicalType::Boolean => if strings_equal(field.text.as_str(), "true") {
            Ok(ScalarValue::Boolean(Some(true)))
        } else if strings_equal(field.text.as_str(), "false") {
            Ok(ScalarValue::Boolean(Some(false)))
        } else {
            Err(ImportError::InvalidBoolean(field.text.clone()))
        },
        LogicalType::Float32 => match field.float32 {
            Some(v) => Ok(ScalarValue::Float32(Some(v))),
            None => Err(ImportError::InvalidFloat(field.text.clone())),
        },
        LogicalType::Float64 => match field.float64 {
            Some(v) => Ok(ScalarValue::Float64(Some(v))),
            None => Err(ImportError::InvalidFloat(field.text.clone())),
        },
        LogicalType::String => Ok(ScalarValue::String(Some(field.text.clone()))),
        LogicalType::Null => Err(ImportError::NotEmpty),
        _ => Err(not_implemented()),
    }
}

// ---------------------------------------------------------------------------------------------
// Writing
// ---------------------------------------------------------------------------------------------

/// The cell of a value. An absent value, and one that has no text, is an empty cell.
pub open spec fn value_cell(value: ValueModel) -> CellModel {
    match value {
        ValueModel::Boolean(Some(v)) => CellModel::Text(
            if v {
                "true"@
            } else {
                "false"@
            },
        ),
        ValueModel::Int8(Some(n)) => CellModel::Text(integer_decimal(n as int)),
        ValueModel::Int16(Some(n)) => CellModel::Text(integer_decimal(n as int)),
        ValueModel::Int32(Some(n)) => CellModel::Text(integer_decimal(n as int)),
        ValueModel::Int64(Some(n)) => CellModel::Text(integer_decimal(n as int)),
        ValueModel::UInt8(Some(n)) => CellModel::Text(decimal(n as nat)),
        ValueModel::UInt16(Some(n)) => CellModel::Text(decimal(n as nat)),
        ValueModel::UInt32(Some(n)) => CellModel::Text(decimal(n as nat)),
        ValueModel::UInt64(Some(n)) => CellModel::Text(decimal(n as nat)),
        ValueModel::Float32(Some(v)) => CellModel::Float32(v),
        ValueModel::Float64(Some(v)) => CellModel::Float64(v),
        ValueModel::String(Some(text)) => CellModel::Text(text),
        _ => CellModel::Text(Seq::empty()),
    }
}

/// The cell of a value.
pub fn scalar_value_to_cell(value: &ScalarValue) -> (r: Cell)
    ensures
        r@ == value_cell(value.model()),
{
    match value {
        ScalarValue::Boolean(Some(v)) => Cell::Text(
            if *v {
                "true".to_owned()
            } else {
                "false".to_owned()
            },
        ),
        ScalarValue::Int8(Some(n)) => Cell::Text(integer_text(*n as i64)),
        ScalarValue::Int16(Some(n)) => Cell::Text(integer_text(*n as i64)),
        ScalarValue::Int32(Some(n)) => Cell::Text(integer_text(*n as i64)),
        ScalarValue::Int64(Some(n)) => Cell::Text(integer_text(*n)),
        ScalarValue::UInt8(Some(n)) => Cell::Text(decimal_text(*n as u64)),
        ScalarValue::UInt16(Some(n)) => Cell::Text(decimal_text(*n as u64)),
        ScalarValue::UInt32(Some(n)) => Cell::Text(decimal_text(*n as u64)),
        ScalarValue::UInt64(Some(n)) => Cell::Text(decimal_text(*n)),
        ScalarValue::Float32(Some(v)) => Cell::Float32(*v),
        ScalarValue::Float64(Some(v)) => Cell::Float64(*v),
        ScalarValue::String(Some(text)) => Cell::Text(text.clone()),
        _ => {
            let text = String::new();
            assert(text@ =~= Seq::<char>::empty());
            Cell::Text(text)
        },
    }
}

// ---------------------------------------------------------------------------------------------
// Laws
// ---------------------------------------------------------------------------------------------

/// A field is what comes back of a cell: its text, and for a floating-point number the number
/// itself behind a text that is not empty.
pub open spec fn is_read_of(field: FieldModel, cell: CellModel) -> bool {
    match cell {
        CellModel::Text(text) => field.text == text,
        CellModel::Float32(v) => field.text.len() > 0 && field.float32 == Some(v),
        CellModel::Float64(v) => field.text.len() > 0 && field.float64 == Some(v),
    }
}

/// A value that a property can have.
pub open spec fn has_type(value: ValueModel, ty: LogicalType) -> bool {
    match value {
        ValueModel::Null => ty == LogicalType::Null,
        ValueModel::Boolean(_) => ty == LogicalType::Boolean,
        ValueModel::Int8(_) => ty == LogicalType::Int8,
        ValueModel::Int16(_) => ty == LogicalType::Int16,
        ValueModel::Int32(_) => ty == LogicalType::Int32,
        ValueModel::Int64(_) => ty == LogicalType::Int64,
        ValueModel::UInt8(_) => ty == LogicalType::UInt8,
        ValueModel::UInt16(_) => ty == LogicalType::UInt16,
        ValueModel::UInt32(_) => ty == LogicalType::UInt32,
        ValueModel::UInt64(_) => ty == LogicalType::UInt64,
        ValueModel::Float32(_) => ty == LogicalType::Float32,
        ValueModel::Float64(_) => ty == LogicalType::Float64,
        ValueModel::String(_) => ty == LogicalType::String,
        ValueModel::Vector(_) => false,
    }
}

/// The value is absent.
pub open spec fn is_absent(value: ValueModel) -> bool {
    match value {
        ValueModel::Null => true,
        ValueModel::Boolean(v) => v is None,
        ValueModel::Int8(v) => v is None,
        ValueModel::Int16(v) => v is None,
        ValueModel::Int32(v) => v is None,
        ValueModel::Int64(v) => v is None,
        ValueModel::UInt8(v) => v is None,
        ValueModel::UInt16(v) => v is None,
        ValueModel::UInt32(v) => v is None,
        ValueModel::UInt64(v) => v is None,
        ValueModel::Float32(v) => v is None,
        ValueModel::Float64(v) => v is None,
        ValueModel::String(v) => v is None,
        ValueModel::Vector(v) => v is None,
    }
}

/// A value is read back from the cell that was written for it, provided that it has the type of
/// its property, that it is absent only where the property may be, and that it is no empty text
/// of a property that may be absent.
pub proof fn written_values_are_read_back(
    value: ValueModel,
    property: PropertyModel,
    field: FieldModel,
)
    requires
        has_type(value, property.ty),
        is_absent(value) ==> property.nullable,
        property.nullable ==> (value matches ValueModel::String(Some(text)) ==> text.len() > 0),
        is_read_of(field, value_cell(value)),
    ensures
        value_read(property, field) == Ok::<ValueModel, ImportFailure>(value),
{
    reveal_strlit("true");
    reveal_strlit("false");
    match value {
        ValueModel::Int8(Some(n)) => {
            integer_text_is_read_back(n as int, i8::MIN as int, i8::MAX as int);
        },
        ValueModel::Int16(Some(n)) => {
            integer_text_is_read_back(n as int, i16::MIN as int, i16::MAX as int);
        },
        ValueModel::Int32(Some(n)) => {
            integer_text_is_read_back(n as int, i32::MIN as int, i32::MAX as int);
        },
        ValueModel::Int64(Some(n)) => {
            integer_text_is_read_back(n as int, i64::MIN as int, i64::MAX as int);
        },
        ValueModel::UInt8(Some(n)) => {
            unsigned_text_is_read_back(n as nat, u8::MAX as nat);
        },
        ValueModel::UInt16(Some(n)) => {
            unsigned_text_is_read_back(n as nat, u16::MAX as nat);
        },
        ValueModel::UInt32(Some(n)) => {
            unsigned_text_is_read_back(n as nat, u32::MAX as nat);
        },
        ValueModel::UInt64(Some(n)) => {
            unsigned_text_is_read_back(n as nat, u64::MAX as nat);
        },
        _ => {},
    }
}

} // verus!
