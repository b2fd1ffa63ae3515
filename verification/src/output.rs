//! Results as text and as JSON values.

use vstd::prelude::*;
use std::sync::Arc;
use crate::common::data_type::{DataField, DataSchema};
use crate::common::text::{decimal, decimal_text, integer_decimal, integer_text};
use crate::common::value::F64;

verus! {

/// A value in a row of a result.
#[derive(Debug)]
pub enum Value {
    Null,
    Text(String),
    Int(i64),
    UInt(u64),
    /// A floating-point number in double precision, and its text in its own precision.
    Float { number: F64, text: String },
    Bool(bool),
    /// Named values, and the text of all of them.
    Struct { fields: Vec<(String, Value)>, text: String },
    /// A value of another kind: the text of its data, and the text of its column.
    Other { data: String, column: String },
}

/// Rows, by column.
#[derive(Debug)]
pub struct Chunk {
    pub cardinality: usize,
    pub columns: Vec<Vec<Value>>,
}

impl Chunk {
    /// Every column has a value for every row.
    pub open spec fn wf(&self) -> bool {
        forall|c: int|
            0 <= c < self.columns@.len() ==> (#[trigger] self.columns@[c])@.len()
                >= self.cardinality
    }
}

/// A result: its columns, where it has a schema, and its rows.
#[derive(Debug)]
pub struct QueryResult {
    pub schema: Option<Arc<DataSchema>>,
    pub chunks: Vec<Chunk>,
}

impl QueryResult {
    pub open spec fn wf(&self) -> bool {
        &&& forall|i: int| 0 <= i < self.chunks@.len() ==> (#[trigger] self.chunks@[i]).wf()
        &&& row_count(self.chunks@, self.chunks@.len() as int) <= u64::MAX
    }
}

/// The number of rows in the first `n` chunks.
pub open spec fn row_count(chunks: Seq<Chunk>, n: int) -> int
    decreases n,
{
    if n <= 0 {
        0
    } else {
        row_count(chunks, n - 1) + chunks[n - 1].cardinality
    }
}

proof fn lemma_row_count(chunks: Seq<Chunk>, i: int, n: int)
    requires
        0 <= i <= n <= chunks.len(),
    ensures
        0 <= row_count(chunks, i) <= row_count(chunks, n),
    decreases n,
{
    if i < n {
        lemma_row_count(chunks, i, n - 1);
    } else if n > 0 {
        lemma_row_count(chunks, n - 1, n - 1);
    }
}

// ---------------------------------------------------------------------------------------------
// Text
// ---------------------------------------------------------------------------------------------

/// The text of a value; a missing one has none.
pub open spec fn value_text(value: Value) -> Seq<char> {
    match value {
        Value::Null => Seq::empty(),
        Value::Text(text) => text@,
        Value::Int(n) => integer_decimal(n as int),
        Value::UInt(n) => decimal(n as nat),
        Value::Float { text, .. } => text@,
        Value::Bool(b) => if b {
            "true"@
        } else {
            "false"@
        },
        Value::Struct { text, .. } => text@,
        Value::Other { data, .. } => data@,
    }
}

/// The text of a value.
pub fn extract_string_value(value: &Value) -> (r: String)
    ensures
        r@ == value_text(*value),
{
    match value {
        Value::Null => {
            let text = String::new();
            assert(text@ =~= Seq::<char>::empty());
            text
        },
        Value::Text(text) => text.clone(),
        Value::Int(n) => integer_text(*n),
        Value::UInt(n) => decimal_text(*n),
        Value::Float { text, .. } => text.clone(),
        Value::Bool(b) => if *b {
            "true".to_owned()
        } else {
            "false".to_owned()
        },
        Value::Struct { text, .. } => text.clone(),
        Value::Other { data, .. } => data.clone(),
    }
}

/// The values of the first `n` columns in a row, with tabulators between them.
pub open spec fn row_prefix(columns: Seq<Vec<Value>>, row: int, n: int) -> Seq<char>
    decreases n,
{
    if n <= 0 {
        Seq::empty()
    } else if n == 1 {
        value_text(columns[0]@[row])
    } else {
        row_prefix(columns, row, n - 1) + "\t"@ + value_text(columns[n - 1]@[row])
    }
}

/// A row on a line of its own.
pub open spec fn row_line(chunk: Chunk, row: int) -> Seq<char> {
    row_prefix(chunk.columns@, row, chunk.columns@.len() as int) + "\n"@
}

/// The lines of the first `n` rows of a chunk.
pub open spec fn chunk_lines(chunk: Chunk, n: int) -> Seq<char>
    decreases n,
{
    if n <= 0 {
        Seq::empty()
    } else {
        chunk_lines(chunk, n - 1) + row_line(chunk, n - 1)
    }
}

/// The lines of the first `n` chunks.
pub open spec fn result_lines(chunks: Seq<Chunk>, n: int) -> Seq<char>
    decreases n,
{
    if n <= 0 {
        Seq::empty()
    } else {
        result_lines(chunks, n - 1) + chunk_lines(chunks[n - 1], chunks[n - 1].cardinality as int)
    }
}

/// A result as a table. One with a schema is the table that was drawn for it, and the number of
/// its rows; one without is its rows, or a message where there are none.
pub open spec fn table_text(result: QueryResult, drawn: Seq<char>) -> Seq<char> {
    let n = result.chunks@.len() as int;
    if result.schema is Some {
        drawn + "\n"@ + decimal(row_count(result.chunks@, n) as nat) + " rows\n"@
    } else if row_count(result.chunks@, n) == 0 {
        "Statement OK. No results"@
    } else {
        result_lines(result.chunks@, n)
    }
}

fn append_row(out: &mut String, chunk: &Chunk, row: usize)
    requires
        chunk.wf(),
        row < chunk.cardinality,
    ensures
        final(out)@ == old(out)@ + row_line(*chunk, row as int),
{
    let ghost start = out@;
    let ghost columns = chunk.columns@;
    let mut c: usize = 0;
    assert(start + row_prefix(columns, row as int, 0) =~= start);
    while c < chunk.columns.len()
        invariant
            c <= chunk.columns@.len(),
            columns == chunk.columns@,
            chunk.wf(),
            row < chunk.cardinality,
            out@ == start + row_prefix(columns, row as int, c as int),
        decreases chunk.columns.len() - c,
    {
        assert(chunk.columns@[c as int]@.len() >= chunk.cardinality);
        let text = extract_string_value(&chunk.columns[c][row]);
        if c > 0 {
            out.append("\t");
        }
        out.append(text.as_str());
        c = c + 1;
        assert(out@ =~= start + row_prefix(columns, row as int, c as int));
    }
    out.append("\n");
    assert(out@ =~= start + row_line(*chunk, row as int));
}

/// A result as a table. The table of a result with a schema comes drawn.
pub fn result_to_table_string(result: &QueryResult, drawn: &str) -> (r: String)
    requires
        result.wf(),
    ensures
        r@ == table_text(*result, drawn@),
{
    let ghost chunks = result.chunks@;
    let ghost total = chunks.len() as int;
    let mut num_rows: u64 = 0;
    let mut out = String::new();
    let mut i: usize = 0;
    assert(out@ =~= result_lines(chunks, 0));
    while i < result.chunks.len()
        invariant
            i <= result.chunks@.len(),
            chunks == result.chunks@,
            total == chunks.len(),
            result.wf(),
            num_rows == row_count(chunks, i as int),
            out@ == result_lines(chunks, i as int),
        decreases result.chunks.len() - i,
    {
        let chunk = &result.chunks[i];
        proof {
            lemma_row_count(chunks, i + 1, total);
            assert(chunks[i as int].wf());
        }
        let ghost start = out@;
        let mut row: usize = 0;
        assert(start + chunk_lines(*chunk, 0) =~= start);
        while row < chunk.cardinality
            invariant
                row <= chunk.cardinality,
                chunk.wf(),
                out@ == start + chunk_lines(*chunk, row as int),
            decreases chunk.cardinality - row,
        {
            append_row(&mut out, chunk, row);
            row = row + 1;
            assert(out@ =~= start + chunk_lines(*chunk, row as int));
        }
        num_rows = num_rows + chunk.cardinality as u64;
        i = i + 1;
    }
    if result.schema.is_some() {
        let mut text = drawn.to_owned();
        text.append("\n");
        let count = decimal_text(num_rows);
        text.append(count.as_str());
        text.append(" rows\n");
        return text;
    }
    if num_rows == 0 {
        return "Statement OK. No results".to_owned();
    }
    out
}

// ---------------------------------------------------------------------------------------------
// JSON
// ---------------------------------------------------------------------------------------------

/// A JSON value.
#[derive(Debug)]
pub enum Json {
    Null,
    Bool(bool),
    Int(i64),
    UInt(u64),
    /// A floating-point number, which is finite.
    Float(F64),
    Text(String),
    Array(Vec<Json>),
    /// Named values, in order.
    Object(Vec<(String, Json)>),
}

/// A floating-point number is finite unless all bits of its exponent are set.
pub open spec fn is_finite(number: F64) -> bool {
    (number.bits >> 52u64) & 0x7ffu64 != 0x7ffu64
}

/// A number as JSON; JSON has no infinite ones.
pub open spec fn number_json(number: F64) -> Json {
    if is_finite(number) {
        Json::Float(number)
    } else {
        Json::Null
    }
}

/// A value as JSON.
pub open spec fn is_json_of(json: Json, value: Value) -> bool
    decreases value,
{
    match value {
        Value::Null => json is Null,
        Value::Text(text) => (json matches Json::Text(t) && t@ == text@),
        Value::Int(n) => json == Json::Int(n),
        Value::UInt(n) => json == Json::UInt(n),
        Value::Float { number, .. } => json == number_json(number),
        Value::Bool(b) => json == Json::Bool(b),
        Value::Struct { fields, .. } => (json matches Json::Object(members) && members@.len()
            == fields@.len() && forall|i: int|
            0 <= i < fields@.len() ==> {
                &&& (#[trigger] members@[i]).0@ == fields@[i].0@
                &&& decreases_to!(value => fields@[i].1)
                &&& is_json_of(members@[i].1, fields@[i].1)
            }),
        Value::Other { column, .. } => (json matches Json::Text(t) && t@ == column@),
    }
}

fn json_number(number: F64) -> (r: Json)
    ensures
        r == number_json(number),
{
    if (number.bits >> 52u64) & 0x7ffu64 != 0x7ffu64 {
        Json::Float(number)
    } else {
        Json::Null
    }
}

/// A value as JSON.
pub fn extract_json_value(value: &Value) -> (r: Json)
    ensures
        is_json_of(r, *value),
    decreases *value,
{
    match value {
        Value::Null => Json::Null,
        Value::Text(text) => Json::Text(text.clone()),
        Value::Int(n) => Json::Int(*n),
        Value::UInt(n) => Json::UInt(*n),
        Value::Float { number, .. } => json_number(*number),
        Value::Bool(b) => Json::Bool(*b),
        Value::Struct { fields, .. } => {
            let mut members: Vec<(String, Json)> = Vec::new();
            let mut i: usize = 0;
            while i < fields.len()
                invariant
                    i <= fields@.len(),
                    *value matches Value::Struct { fields: f, .. } && f == *fields,
                    members@.len() == i,
                    forall|k: int|
                        0 <= k < i ==> (#[trigger] members@[k]).0@ == fields@[k].0@ && is_json_of(
                            members@[k].1,
                            fields@[k].1,
                        ),
                decreases fields.len() - i,
            {
                assert(decreases_to!(*value => fields@[i as int].1));
                let member = extract_json_value(&fields[i].1);
                members.push((fields[i].0.clone(), member));
                i = i + 1;
            }
            proof {
                assert forall|k: int| 0 <= k < fields@.len() implies {
                    &&& (#[trigger] members@[k]).0@ == fields@[k].0@
                    &&& decreases_to!(*value => fields@[k].1)
                    &&& is_json_of(members@[k].1, fields@[k].1)
                } by {
                    assert(decreases_to!(*value => fields@[k].1));
                }
            }
            Json::Object(members)
        },
        Value::Other { column, .. } => Json::Text(column.clone()),
    }
}

/// A row as JSON: the values of the columns.
pub open spec fn is_json_row(json: Json, chunk: Chunk, row: int) -> bool {
    json matches Json::Array(values) && values@.len() == chunk.columns@.len() && forall|c: int|
        0 <= c < values@.len() ==> is_json_of(#[trigger] values@[c], chunk.columns@[c]@[row])
}

/// All rows as JSON, chunk by chunk.
pub open spec fn are_json_rows(rows: Seq<Json>, chunks: Seq<Chunk>, n: int) -> bool
    decreases n,
{
    if n <= 0 {
        rows.len() == 0
    } else {
        let chunk = chunks[n - 1];
        let before = rows.len() - chunk.cardinality;
        &&& before >= 0
        &&& are_json_rows(rows.take(before), chunks, n - 1)
        &&& forall|r: int|
            before <= r < rows.len() ==> is_json_row(#[trigger] rows[r], chunk, r - before)
    }
}

fn json_row(chunk: &Chunk, row: usize) -> (r: Json)
    requires
        chunk.wf(),
        row < chunk.cardinality,
    ensures
        is_json_row(r, *chunk, row as int),
{
    let mut values: Vec<Json> = Vec::new();
    let mut c: usize = 0;
    while c < chunk.columns.len()
        invariant
            c <= chunk.columns@.len(),
            chunk.wf(),
            row < chunk.cardinality,
            values@.len() == c,
            forall|k: int|
                0 <= k < c ==> is_json_of(#[trigger] values@[k], chunk.columns@[k]@[row as int]),
        decreases chunk.columns.len() - c,
    {
        assert(chunk.columns@[c as int]@.len() >= chunk.cardinality);
        values.push(extract_json_value(&chunk.columns[c][row]));
        c = c + 1;
    }
    Json::Array(values)
}

/// All rows of a result as JSON.
pub fn rows_to_json(result: &QueryResult) -> (r: Vec<Json>)
    requires
        result.wf(),
    ensures
        are_json_rows(r@, result.chunks@, result.chunks@.len() as int),
{
    let ghost chunks = result.chunks@;
    let mut rows: Vec<Json> = Vec::new();
    let mut i: usize = 0;
    while i < result.chunks.len()
        invariant
            i <= result.chunks@.len(),
            chunks == result.chunks@,
            result.wf(),
            are_json_rows(rows@, chunks, i as int),
        decreases result.chunks.len() - i,
    {
        let chunk = &result.chunks[i];
        assert(chunks[i as int].wf());
        let ghost start = rows@;
        let mut row: usize = 0;
        while row < chunk.cardinality
            invariant
                row <= chunk.cardinality,
                chunk.wf(),
                rows@.len() == start.len() + row,
                forall|k: int| 0 <= k < start.len() ==> #[trigger] rows@[k] == start[k],
                forall|k: int|
                    start.len() <= k < rows@.len() ==> is_json_row(
                        #[trigger] rows@[k],
                        *chunk,
                        k - start.len(),
                    ),
            decreases chunk.cardinality - row,
        {
            rows.push(json_row(chunk, row));
            row = row + 1;
        }
        assert(rows@.take(start.len() as int) =~= start);
        i = i + 1;
    }
    rows
}

/// A column of a schema as JSON: its name, its type and whether it may be null.
pub open spec fn is_json_field(json: Json, field: DataField, ty: Seq<char>) -> bool {
    json matches Json::Object(members) && members@.len() == 3 && members@[0].0@ == "name"@ && (
    members@[0].1 matches Json::Text(name) && name@ == field.name@) && members@[1].0@ == "type"@ && (
    members@[1].1 matches Json::Text(text) && text@ == ty) && members@[2].0@ == "nullable"@
        && members@[2].1 == Json::Bool(field.nullable)
}

fn json_field(field: &DataField, ty: &str) -> (r: Json)
    ensures
        is_json_field(r, *field, ty@),
{
    let mut members: Vec<(String, Json)> = Vec::new();
    members.push(("name".to_owned(), Json::Text(field.name.clone())));
    members.push(("type".to_owned(), Json::Text(ty.to_owned())));
    members.push(("nullable".to_owned(), Json::Bool(field.nullable)));
    Json::Object(members)
}

/// A schema as JSON. The texts of the types are given.
pub open spec fn is_json_schema(
    json: Json,
    schema: Option<Arc<DataSchema>>,
    types: Seq<String>,
) -> bool {
    match schema {
        None => json is Null,
        Some(schema) => (json matches Json::Array(fields) && fields@.len() == schema.fields@.len()
            && forall|i: int|
            0 <= i < fields@.len() ==> is_json_field(
                #[trigger] fields@[i],
                schema.fields@[i],
                types[i]@,
            )),
    }
}

/// A schema as JSON.
pub fn schema_to_json(schema: &Option<Arc<DataSchema>>, types: &Vec<String>) -> (r: Json)
    requires
        *schema matches Some(s) ==> s.fields@.len() == types@.len(),
    ensures
        is_json_schema(r, *schema, types@),
{
    match schema {
        None => Json::Null,
        Some(schema) => {
            let mut fields: Vec<Json> = Vec::new();
            let mut i: usize = 0;
            while i < schema.fields.len()
                invariant
                    i <= schema.fields@.len() == types@.len(),
                    fields@.len() == i,
                    forall|k: int|
                        0 <= k < i ==> is_json_field(
                            #[trigger] fields@[k],
                            schema.fields@[k],
                            types@[k]@,
                        ),
                decreases schema.fields.len() - i,
            {
                fields.push(json_field(&schema.fields[i], types[i].as_str()));
                i = i + 1;
            }
            Json::Array(fields)
        },
    }
}

/// How long the stages of a query took, in milliseconds.
#[derive(Clone, Copy, Debug)]
pub struct MetricsMs {
    pub parsing: F64,
    pub planning: F64,
    pub compiling: F64,
    pub execution: F64,
    pub total: F64,
}

/// Times as JSON.
pub open spec fn is_json_metrics(json: Json, metrics: MetricsMs) -> bool {
    json matches Json::Object(members) && members@.len() == 5 && members@[0].0@ == "parsing"@
        && members@[0].1 == number_json(metrics.parsing) && members@[1].0@ == "planning"@
        && members@[1].1 == number_json(metrics.planning) && members@[2].0@ == "compiling"@
        && members@[2].1 == number_json(metrics.compiling) && members@[3].0@ == "execution"@
        && members@[3].1 == number_json(metrics.execution) && members@[4].0@ == "total"@
        && members@[4].1 == number_json(metrics.total)
}

fn metrics_to_json(metrics: MetricsMs) -> (r: Json)
    ensures
        is_json_metrics(r, metrics),
{
    let mut members: Vec<(String, Json)> = Vec::new();
    members.push(("parsing".to_owned(), json_number(metrics.parsing)));
    members.push(("planning".to_owned(), json_number(metrics.planning)));
    members.push(("compiling".to_owned(), json_number(metrics.compiling)));
    members.push(("execution".to_owned(), json_number(metrics.execution)));
    members.push(("total".to_owned(), json_number(metrics.total)));
    Json::Object(members)
}

/// A result as JSON: its schema, its rows and its times.
pub fn result_to_json(result: &QueryResult, types: &Vec<String>, metrics: MetricsMs) -> (r: Json)
    requires
        result.wf(),
        result.schema matches Some(s) ==> s.fields@.len() == types@.len(),
    ensures
        r matches Json::Object(members) && members@.len() == 3 && members@[0].0@ == "schema"@
            && is_json_schema(members@[0].1, result.schema, types@) && members@[1].0@ == "rows"@
            && (members@[1].1 matches Json::Array(rows) && are_json_rows(
            rows@,
            result.chunks@,
            result.chunks@.len() as int,
        )) && members@[2].0@ == "metrics_ms"@ && is_json_metrics(members@[2].1, metrics),
{
    let mut members: Vec<(String, Json)> = Vec::new();
    members.push(("schema".to_owned(), schema_to_json(&result.schema, types)));
    members.push(("rows".to_owned(), Json::Array(rows_to_json(result))));
    members.push(("metrics_ms".to_owned(), metrics_to_json(metrics)));
    Json::Object(members)
}

// ---------------------------------------------------------------------------------------------
// Laws
// ---------------------------------------------------------------------------------------------

/// There are as many rows in JSON as the chunks have.
pub proof fn json_has_every_row(rows: Seq<Json>, chunks: Seq<Chunk>, n: int)
    requires
        0 <= n <= chunks.len(),
        are_json_rows(rows, chunks, n),
    ensures
        rows.len() == row_count(chunks, n),
    decreases n,
{
    if n > 0 {
        json_has_every_row(rows.take(rows.len() - chunks[n - 1].cardinality), chunks, n - 1);
    }
}

} // verus!
