//! The tabular export of paired values: one record of two fields per row, no
//! header line. The values come as text; the records are written by the
//! `csv` crate into memory, and the caller puts the bytes where they belong.

use vstd::prelude::*;
use vstd::utf8::encode_utf8;

verus! {

/// A `csv::Writer` that writes into memory. Nothing of its inside is known
/// here: what it holds is spoken of through [`writer_bytes`].
#[verifier::external_body]
pub struct RecordWriter {
    inner: csv::Writer<Vec<u8>>,
}

/// `csv::Error`, the error of the `csv` crate's operations.
#[verifier::external_type_specification]
#[verifier::external_body]
pub struct ExCsvError(csv::Error);

/// The bytes that went through a writer so far, whether it still buffers
/// them or has handed them on.
pub uninterp spec fn writer_bytes(writer: RecordWriter) -> Seq<u8>;

/// The field needs no quotes: it holds no comma, no double quote, no
/// carriage return and no line feed.
pub open spec fn plain(field: Seq<char>) -> bool {
    forall|i: int|
        0 <= i < field.len() ==> {
            let c = #[trigger] field[i];
            c != ',' && c != '"' && c != '\r' && c != '\n'
        }
}

/// The record of two fields that need no quotes: the text of the first, a
/// comma, the text of the second, a line feed.
pub open spec fn plain_record(x: Seq<char>, y: Seq<char>) -> Seq<u8> {
    encode_utf8(x) + seq![0x2Cu8] + encode_utf8(y) + seq![0x0Au8]
}

/// The text with every double quote in it written twice.
pub open spec fn doubled(text: Seq<char>) -> Seq<char>
    decreases text.len(),
{
    if text.len() == 0 {
        Seq::empty()
    } else if text.last() == '"' {
        doubled(text.drop_last()) + seq!['"', '"']
    } else {
        doubled(text.drop_last()).push(text.last())
    }
}

/// The bytes of one field as a writer with the default configuration writes
/// it: the text as it is when it needs no quotes; otherwise a double quote,
/// the text with its own double quotes doubled, and a double quote.
pub open spec fn field_bytes(field: Seq<char>) -> Seq<u8> {
    if plain(field) {
        encode_utf8(field)
    } else {
        seq![0x22u8] + encode_utf8(doubled(field)) + seq![0x22u8]
    }
}

/// The bytes of one record of two fields: the first field, a comma, the
/// second field, a line feed.
pub open spec fn record_bytes(x: Seq<char>, y: Seq<char>) -> Seq<u8> {
    field_bytes(x) + seq![0x2Cu8] + field_bytes(y) + seq![0x0Au8]
}

/// Calls `csv::Writer::from_writer` on an empty vector. Trusted: nothing was
/// written through the new writer.
#[verifier::external_body]
fn writer_new() -> (writer: RecordWriter)
    ensures
        writer_bytes(writer) == Seq::<u8>::empty(),
{
    RecordWriter { inner: csv::Writer::from_writer(Vec::new()) }
}

/// Calls `csv::Writer::write_record` with the two fields `x` and `y`.
/// Trusted: the call succeeds, and the bytes of the record follow what was
/// written before. (The call fails only when the sink refuses a write or
/// when the record has another number of fields than the first one had.
/// The sink is a vector in memory, which takes every write, and a
/// [`RecordWriter`] is only ever handed records of two fields.)
#[verifier::external_body]
fn writer_record(writer: &mut RecordWriter, x: &str, y: &str) -> (r: Result<(), csv::Error>)
    ensures
        r is Ok,
        writer_bytes(*final(writer)) == writer_bytes(*old(writer)) + record_bytes(x@, y@),
{
    writer.inner.write_record([x, y])
}

/// Calls `csv::Writer::into_inner`, which flushes the writer and gives the
/// vector back. Trusted: the call succeeds, and the vector holds every byte
/// that was written through the writer, in order. (The call fails only when
/// the sink refuses the flush, which a vector in memory does not.)
#[verifier::external_body]
fn writer_finish(writer: RecordWriter) -> (r: Option<Vec<u8>>)
    ensures
        r is Some,
        r matches Some(bytes) ==> bytes@ == writer_bytes(writer),
{
    writer.inner.into_inner().ok()
}

/// What a writer's refusal is reported as.
#[derive(Clone, Copy, Debug, PartialEq, Eq, Structural)]
pub enum ExportError {
    /// The record of this row was not written.
    Record { row: usize },
    /// The writer could not be flushed.
    Flush,
}

/// The number of rows of an export: as many as the shorter column has.
pub open spec fn row_count(x_data: Seq<String>, y_data: Seq<String>) -> int {
    if x_data.len() <= y_data.len() {
        x_data.len() as int
    } else {
        y_data.len() as int
    }
}

/// The bytes of the first `rows` rows: the record of each row, one after the
/// other.
pub open spec fn table_bytes(x_data: Seq<String>, y_data: Seq<String>, rows: int) -> Seq<u8>
    decreases rows,
{
    if rows <= 0 {
        Seq::empty()
    } else {
        table_bytes(x_data, y_data, rows - 1) + record_bytes(
            x_data[rows - 1]@,
            y_data[rows - 1]@,
        )
    }
}

/// Neither field of row `i` needs quotes.
pub open spec fn row_plain(x_data: Seq<String>, y_data: Seq<String>, i: int) -> bool {
    plain(x_data[i]@) && plain(y_data[i]@)
}

/// No field of the first `rows` rows needs quotes.
pub open spec fn all_plain(x_data: Seq<String>, y_data: Seq<String>, rows: int) -> bool {
    forall|i: int| 0 <= i < rows ==> #[trigger] row_plain(x_data, y_data, i)
}

/// The bytes of the first `rows` rows when no field needs quotes: a line for
/// each row, the two texts with a comma between them.
pub open spec fn plain_table_bytes(x_data: Seq<String>, y_data: Seq<String>, rows: int) -> Seq<u8>
    decreases rows,
{
    if rows <= 0 {
        Seq::empty()
    } else {
        plain_table_bytes(x_data, y_data, rows - 1) + plain_record(
            x_data[rows - 1]@,
            y_data[rows - 1]@,
        )
    }
}

/// A table whose fields need no quotes is its lines, each the two texts with
/// a comma between them.
pub proof fn lemma_plain_table(x_data: Seq<String>, y_data: Seq<String>, rows: int)
    requires
        all_plain(x_data, y_data, rows),
    ensures
        table_bytes(x_data, y_data, rows) == plain_table_bytes(x_data, y_data, rows),
    decreases rows,
{
    if rows > 0 {
        lemma_plain_table(x_data, y_data, rows - 1);
        assert(row_plain(x_data, y_data, rows - 1));
    }
}

/// What an export makes of the writer's answer to the record of row `row`.
pub fn record_outcome<E>(row: usize, taken: Result<(), E>) -> (r: Result<(), ExportError>)
    ensures
        r == match taken {
            Ok(_) => Ok::<(), ExportError>(()),
            Err(_) => Err(ExportError::Record { row }),
        },
{
    match taken {
        Ok(_) => Ok(()),
        Err(_) => Err(ExportError::Record { row }),
    }
}

/// What an export makes of the writer's answer to the flush.
pub fn flush_outcome(flushed: Option<Vec<u8>>) -> (r: Result<Vec<u8>, ExportError>)
    ensures
        r == match flushed {
            Some(bytes) => Ok::<Vec<u8>, ExportError>(bytes),
            None => Err(ExportError::Flush),
        },
{
    match flushed {
        Some(bytes) => Ok(bytes),
        None => Err(ExportError::Flush),
    }
}

/// Writes `x_data` and `y_data` as a table of two columns, row `i` holding
/// `x_data[i]` and `y_data[i]`, and returns the bytes of the table. Values
/// beyond the length of the shorter column are left out. Writing into memory
/// does not fail: the result is always `Ok`.
pub fn write_to_csv(x_data: &Vec<String>, y_data: &Vec<String>) -> (r: Result<
    Vec<u8>,
    ExportError,
>)
    ensures
        r matches Ok(bytes) && {
            let rows = row_count(x_data@, y_data@);
            &&& bytes@ == table_bytes(x_data@, y_data@, rows)
            &&& all_plain(x_data@, y_data@, rows) ==> bytes@ == plain_table_bytes(
                x_data@,
                y_data@,
                rows,
            )
        },
{
    let rows = if x_data.len() <= y_data.len() { x_data.len() } else { y_data.len() };
    let mut writer = writer_new();
    let mut i: usize = 0;
    while i < rows
        invariant
            i <= rows,
            rows == row_count(x_data@, y_data@),
            writer_bytes(writer) == table_bytes(x_data@, y_data@, i as int),
        decreases rows - i,
    {
        let taken = writer_record(&mut writer, x_data[i].as_str(), y_data[i].as_str());
        match record_outcome(i, taken) {
            Ok(()) => {},
            Err(e) => {
                return Err(e);
            },
        }
        i += 1;
    }
    proof {
        if all_plain(x_data@, y_data@, rows as int) {
            lemma_plain_table(x_data@, y_data@, rows as int);
        }
    }
    flush_outcome(writer_finish(writer))
}

} // verus!
