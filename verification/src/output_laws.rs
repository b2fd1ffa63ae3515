//! What results look like as text and as JSON: laws.

use vstd::prelude::*;
use std::sync::Arc;
use crate::common::data_type::DataSchema;
use crate::common::parse::{
    integer_text_is_read_back, integer_value, unsigned_text_is_read_back, unsigned_value,
};
use crate::common::text::decimal;
use crate::common::value::F64;
use crate::output::{
    are_json_rows, chunk_lines, is_finite, is_json_field, is_json_metrics, is_json_of, is_json_row,
    is_json_schema, json_has_every_row, number_json, result_lines, row_count, row_line,
    row_prefix, table_text, value_text, Chunk, Json, MetricsMs, QueryResult, Value,
};

verus! {

// ---------------------------------------------------------------------------------------------
// Text
// ---------------------------------------------------------------------------------------------

/// The text of a number is read as that number; a missing value has no text, and every other value
/// the text that it holds.
pub proof fn value_texts_say_what_they_stand_for(value: Value)
    ensures
        value matches Value::Int(n) ==> integer_value(
            value_text(value),
            i64::MIN as int,
            i64::MAX as int,
        ) == Some(n as int),
        value matches Value::UInt(n) ==> unsigned_value(value_text(value), u64::MAX as nat) == Some(
            n as nat,
        ),
        value is Null ==> value_text(value).len() == 0,
        value matches Value::Text(text) ==> value_text(value) == text@,
        value matches Value::Float { number, text } ==> value_text(value) == text@,
        value matches Value::Struct { fields, text } ==> value_text(value) == text@,
        value matches Value::Other { data, column } ==> value_text(value) == data@,
        value == Value::Bool(true) ==> value_text(value) == "true"@,
        value == Value::Bool(false) ==> value_text(value) == "false"@,
{
    if let Value::Int(n) = value {
        integer_text_is_read_back(n as int, i64::MIN as int, i64::MAX as int);
    }
    if let Value::UInt(n) = value {
        unsigned_text_is_read_back(n as nat, u64::MAX as nat);
    }
}

/// The text of a row without its newline.
pub open spec fn row_text(chunk: Chunk, row: int) -> Seq<char> {
    row_line(chunk, row).drop_last()
}

/// A row of one column is the text of its value on a line of its own. One more column adds a
/// tabulator and the text of its value to the line.
pub proof fn columns_are_set_apart_by_tabulators(
    chunk: Chunk,
    wider: Chunk,
    column: Vec<Value>,
    row: int,
)
    requires
        wider.columns@ == chunk.columns@.push(column),
    ensures
        chunk.columns@.len() == 0 ==> row_line(chunk, row) == seq!['\n'],
        chunk.columns@.len() == 0 ==> row_line(wider, row) == value_text(column@[row]) + seq!['\n'],
        chunk.columns@.len() > 0 ==> row_line(wider, row) == row_text(chunk, row) + seq!['\t']
            + value_text(column@[row]) + seq!['\n'],
{
    reveal_strlit("\n");
    reveal_strlit("\t");
    let n = chunk.columns@.len() as int;
    lemma_prefix_agrees(chunk.columns@, wider.columns@, row, n);
    let prefix = row_prefix(chunk.columns@, row, n);
    assert("\n"@ =~= seq!['\n']);
    assert("\t"@ =~= seq!['\t']);
    assert(row_line(chunk, row) =~= prefix.push('\n'));
    assert(row_text(chunk, row) =~= prefix);
    if n == 0 {
        assert(row_line(chunk, row) =~= seq!['\n']);
    }
}

proof fn lemma_prefix_agrees(a: Seq<Vec<Value>>, b: Seq<Vec<Value>>, row: int, n: int)
    requires
        n <= a.len() <= b.len(),
        forall|i: int| 0 <= i < a.len() ==> #[trigger] b[i] == a[i],
    ensures
        row_prefix(a, row, n) == row_prefix(b, row, n),
    decreases n,
{
    if n > 1 {
        lemma_prefix_agrees(a, b, row, n - 1);
    }
    if n >= 1 {
        assert(b[n - 1] == a[n - 1]);
        assert(b[0] == a[0]);
    }
}

/// The rows of a chunk come in order: first those up to a row, then that row.
pub proof fn rows_come_in_order(chunk: Chunk, n: int)
    requires
        n >= 0,
    ensures
        chunk_lines(chunk, 0).len() == 0,
        chunk_lines(chunk, n + 1) == chunk_lines(chunk, n) + row_line(chunk, n),
{
}

/// The lines of some chunks and further chunks are the lines of the first and then those of the
/// others; a chunk gives the lines of all its rows.
pub proof fn chunks_come_in_order(a: Seq<Chunk>, b: Seq<Chunk>)
    ensures
        result_lines(a + b, (a + b).len() as int) == result_lines(a, a.len() as int)
            + result_lines(b, b.len() as int),
        a.len() == 1 ==> result_lines(a, 1) == chunk_lines(a[0], a[0].cardinality as int),
        row_count(a + b, (a + b).len() as int) == row_count(a, a.len() as int) + row_count(
            b,
            b.len() as int,
        ),
        a.len() == 1 ==> row_count(a, 1) == a[0].cardinality,
{
    lemma_lines_join(a, b, b.len() as int);
    if a.len() == 1 {
        reveal_with_fuel(result_lines, 2);
        reveal_with_fuel(row_count, 2);
        assert(result_lines(a, 1) =~= chunk_lines(a[0], a[0].cardinality as int));
    }
}

proof fn lemma_lines_join(a: Seq<Chunk>, b: Seq<Chunk>, n: int)
    requires
        0 <= n <= b.len(),
    ensures
        result_lines(a + b, a.len() + n) == result_lines(a, a.len() as int) + result_lines(b, n),
        row_count(a + b, a.len() + n) == row_count(a, a.len() as int) + row_count(b, n),
    decreases n,
{
    let all = a + b;
    if n == 0 {
        lemma_lines_agree(a, all, a.len() as int);
        assert(result_lines(all, a.len() as int) =~= result_lines(a, a.len() as int)
            + result_lines(b, 0));
    } else {
        lemma_lines_join(a, b, n - 1);
        assert(all[a.len() + n - 1] == b[n - 1]);
        assert(result_lines(all, a.len() + n) =~= result_lines(a, a.len() as int) + result_lines(
            b,
            n,
        ));
    }
}

proof fn lemma_lines_agree(a: Seq<Chunk>, b: Seq<Chunk>, n: int)
    requires
        n <= a.len() <= b.len(),
        forall|i: int| 0 <= i < a.len() ==> #[trigger] b[i] == a[i],
    ensures
        result_lines(a, n) == result_lines(b, n),
        row_count(a, n) == row_count(b, n),
    decreases n,
{
    if n > 0 {
        lemma_lines_agree(a, b, n - 1);
        assert(b[n - 1] == a[n - 1]);
    }
}

/// The table of a result with a schema is what was drawn, and on the next line the number of its
/// rows; without a schema it is the lines of its rows, or a message where it has none.
pub proof fn tables_end_with_the_number_of_rows(result: QueryResult, drawn: Seq<char>, count: nat)
    requires
        row_count(result.chunks@, result.chunks@.len() as int) == count,
    ensures
        result.schema is Some ==> exists|digits: Seq<char>|
            unsigned_value(digits, count) == Some(count) && table_text(result, drawn)
                == #[trigger] (drawn + seq!['\n'] + digits) + " rows\n"@,
        result.schema is None && count == 0 ==> table_text(result, drawn)
            == "Statement OK. No results"@,
        result.schema is None && count > 0 ==> table_text(result, drawn) == result_lines(
            result.chunks@,
            result.chunks@.len() as int,
        ),
{
    reveal_strlit("\n");
    assert("\n"@ =~= seq!['\n']);
    let digits = decimal(count);
    unsigned_text_is_read_back(count, count);
    if result.schema is Some {
        assert(table_text(result, drawn) == (drawn + seq!['\n'] + digits) + " rows\n"@);
    }
}

// ---------------------------------------------------------------------------------------------
// JSON
// ---------------------------------------------------------------------------------------------

/// A number is finite unless its exponent, the eleven bits behind the sign, is the greatest one; a
/// finite number stays what it is, and another one is null.
pub proof fn infinite_numbers_are_null(number: F64)
    ensures
        is_finite(number) <==> (number.bits / 0x10_0000_0000_0000) % 0x800 != 0x7ff,
        is_finite(number) ==> number_json(number) == Json::Float(number),
        !is_finite(number) ==> number_json(number) is Null,
{
    let bits = number.bits;
    assert((bits >> 52u64) & 0x7ffu64 == (bits / 0x10_0000_0000_0000u64) % 0x800u64)
        by (bit_vector);
}

/// What every value is as JSON.
pub proof fn values_keep_their_sort_in_json(json: Json, value: Value)
    requires
        is_json_of(json, value),
    ensures
        value is Null ==> json is Null,
        value matches Value::Text(text) ==> (json matches Json::Text(t) && t@ == text@),
        value matches Value::Int(n) ==> (json matches Json::Int(m) && m == n),
        value matches Value::UInt(n) ==> (json matches Json::UInt(m) && m == n),
        value matches Value::Bool(b) ==> (json matches Json::Bool(c) && c == b),
        value matches Value::Float { number, text } ==> {
            &&& (number.bits / 0x10_0000_0000_0000) % 0x800 != 0x7ff ==> (json matches Json::Float(
                f,
            ) && f == number)
            &&& (number.bits / 0x10_0000_0000_0000) % 0x800 == 0x7ff ==> json is Null
        },
        value matches Value::Other { data, column } ==> (json matches Json::Text(t) && t@ == column@),
        value matches Value::Struct { fields, text } ==> (json matches Json::Object(members)
            && members@.len() == fields@.len() && forall|i: int|
            0 <= i < fields@.len() ==> (#[trigger] members@[i]).0@ == fields@[i].0@ && is_json_of(
                members@[i].1,
                fields@[i].1,
            )),
{
    if let Value::Float { number, text } = value {
        infinite_numbers_are_null(number);
    }
}

/// The row of a chunk has a value for every column, in the order of the columns.
pub proof fn json_rows_hold_every_column(json: Json, chunk: Chunk, row: int, c: int)
    requires
        is_json_row(json, chunk, row),
        0 <= c < chunk.columns@.len(),
    ensures
        json matches Json::Array(values) && values@.len() == chunk.columns@.len() && is_json_of(
            values@[c],
            chunk.columns@[c]@[row],
        ),
{
    if let Json::Array(values) = json {
        let value = values@[c];
    }
}

/// The rows come chunk by chunk and in order: behind the rows of the chunks before it, a chunk has
/// its rows, one after the other.
pub proof fn json_rows_come_in_order(rows: Seq<Json>, chunks: Seq<Chunk>, n: int, i: int, row: int)
    requires
        0 <= i < n <= chunks.len(),
        are_json_rows(rows, chunks, n),
        0 <= row < chunks[i].cardinality,
    ensures
        0 <= row_count(chunks, i) + row < rows.len(),
        is_json_row(rows[row_count(chunks, i) + row], chunks[i], row),
    decreases n,
{
    let before = rows.len() - chunks[n - 1].cardinality;
    json_has_every_row(rows, chunks, n);
    json_has_every_row(rows.take(before), chunks, n - 1);
    if i < n - 1 {
        json_rows_come_in_order(rows.take(before), chunks, n - 1, i, row);
    } else {
        lemma_count_is_natural(chunks, i);
    }
}

proof fn lemma_count_is_natural(chunks: Seq<Chunk>, n: int)
    ensures
        row_count(chunks, n) >= 0,
    decreases n,
{
    if n > 0 {
        lemma_count_is_natural(chunks, n - 1);
    }
}

/// A schema is a list with the name, the type and whether it may be null of every column, in order;
/// no schema is null.
pub proof fn json_schemas_hold_every_column(
    json: Json,
    schema: Option<Arc<DataSchema>>,
    types: Seq<String>,
    i: int,
)
    requires
        is_json_schema(json, schema, types),
    ensures
        schema is None ==> json is Null,
        schema matches Some(s) ==> (json matches Json::Array(fields) && fields@.len()
            == s.fields@.len() && (0 <= i < fields@.len() ==> (fields@[i] matches Json::Object(
            members,
        ) && members@.len() == 3 && members@[0].0@ == "name"@ && (members@[0].1 matches Json::Text(
            name,
        ) && name@ == s.fields@[i].name@) && members@[1].0@ == "type"@ && (members@[1].1 matches
            Json::Text(ty) && ty@ == types[i]@) && members@[2].0@ == "nullable"@ && members@[2].1
            == Json::Bool(s.fields@[i].nullable)))),
{
    if let Some(s) = schema {
        if let Json::Array(fields) = json {
            if 0 <= i < fields@.len() {
                let field = fields@[i];
                assert(is_json_field(fields@[i], s.fields@[i], types[i]@));
            }
        }
    }
}

/// The times come under their names, each with its own number.
pub proof fn json_metrics_hold_every_time(json: Json, metrics: MetricsMs)
    requires
        is_json_metrics(json, metrics),
    ensures
        json matches Json::Object(members) && members@.len() == 5 && {
            &&& members@[0].0@ == "parsing"@ && members@[0].1 == number_json(metrics.parsing)
            &&& members@[1].0@ == "planning"@ && members@[1].1 == number_json(metrics.planning)
            &&& members@[2].0@ == "compiling"@ && members@[2].1 == number_json(metrics.compiling)
            &&& members@[3].0@ == "execution"@ && members@[3].1 == number_json(metrics.execution)
            &&& members@[4].0@ == "total"@ && members@[4].1 == number_json(metrics.total)
        },
{
}

} // verus!
