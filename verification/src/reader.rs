//! Reading rows of numbers from delimited text.
//!
//! The text is split into records and fields by the `csv` crate. Every
//! field must write a decimal number: one broken record or one field that
//! is no number fails the whole read. No row is ever replaced by an empty
//! one.

use crate::decimal::{decimal_value, parse_decimal};
use crate::error::PipelineError;
use crate::fixed::Fixed;
use vstd::prelude::*;

verus! {

/// The records that the `csv` crate finds in `data`, in their order, each
/// with its fields as bytes; a record that the crate reports as broken
/// stands as `None`. With `has_header` the first record is taken for a
/// header and left out.
pub uninterp spec fn csv_records(data: Seq<u8>, has_header: bool) -> Seq<Option<Seq<Seq<u8>>>>;

/// Splits `data` with `csv::ReaderBuilder`: `has_headers` set as given,
/// everything else at its default, then `from_reader` and `records`. Each
/// record that comes as `Ok` is handed on as the bytes of its fields, each
/// that comes as `Err` as `None`. The contract only names the outcome.
#[verifier::external_body]
fn split_records(data: &[u8], has_header: bool) -> (records: Vec<Option<Vec<Vec<u8>>>>)
    ensures
        records.deep_view() == csv_records(data@, has_header),
{
    csv::ReaderBuilder::new()
        .has_headers(has_header)
        .from_reader(data)
        .records()
        .map(|read| read.ok().map(|r| r.iter().map(|field| field.as_bytes().to_vec()).collect()))
        .collect()
}

/// Every field of the record writes a number.
pub open spec fn record_parses(record: Option<Seq<Seq<u8>>>) -> bool {
    record is Some && forall|j: int|
        0 <= j < record->Some_0.len() ==> decimal_value(#[trigger] record->Some_0[j]) is Some
}

/// The row holds, field by field, the numbers that the record writes.
pub open spec fn row_holds(row: Seq<Fixed>, record: Seq<Seq<u8>>) -> bool {
    &&& row.len() == record.len()
    &&& forall|j: int|
        0 <= j < record.len() ==> decimal_value(record[j]) == Some(
            (#[trigger] row[j]).units as int,
        )
}

/// The rows hold, record by record, the numbers that the records write.
pub open spec fn rows_hold(rows: Seq<Vec<Fixed>>, records: Seq<Option<Seq<Seq<u8>>>>) -> bool {
    &&& rows.len() == records.len()
    &&& forall|i: int|
        0 <= i < records.len() ==> records[i] is Some && row_holds(
            (#[trigger] rows[i])@,
            records[i]->Some_0,
        )
}

/// Reads the fields of one record as numbers.
fn convert_record(fields: &Vec<Vec<u8>>) -> (row: Option<Vec<Fixed>>)
    ensures
        row is Some <==> record_parses(Some(fields.deep_view())),
        row is Some ==> row_holds(row->Some_0@, fields.deep_view()),
{
    let mut row: Vec<Fixed> = Vec::with_capacity(fields.len());
    let mut j: usize = 0;
    while j < fields.len()
        invariant
            j <= fields.len(),
            row@.len() == j,
            fields.deep_view().len() == fields.len(),
            forall|k: int| 0 <= k < j ==> decimal_value(#[trigger] fields.deep_view()[k]) is Some,
            forall|k: int|
                0 <= k < j ==> decimal_value(fields.deep_view()[k]) == Some(
                    (#[trigger] row@[k]).units as int,
                ),
        decreases fields.len() - j,
    {
        assert(fields.deep_view()[j as int] == fields@[j as int]@);
        match parse_decimal(fields[j].as_slice()) {
            Some(number) => {
                row.push(number);
            },
            None => {
                return None;
            },
        }
        j += 1;
    }
    Some(row)
}

/// Turns records into rows of numbers.
///
/// It succeeds exactly when no record is broken and every field writes a
/// number; otherwise the read fails as unparsed.
pub fn convert(records: &Vec<Option<Vec<Vec<u8>>>>) -> (rows: Result<
    Vec<Vec<Fixed>>,
    PipelineError,
>)
    ensures
        rows is Ok <==> forall|i: int|
            0 <= i < records@.len() ==> record_parses(#[trigger] records.deep_view()[i]),
        rows is Ok ==> rows_hold(rows->Ok_0@, records.deep_view()),
        rows is Err ==> rows->Err_0 == PipelineError::ParseError,
{
    let mut rows: Vec<Vec<Fixed>> = Vec::with_capacity(records.len());
    let mut i: usize = 0;
    while i < records.len()
        invariant
            i <= records.len(),
            rows@.len() == i,
            forall|k: int| 0 <= k < i ==> record_parses(#[trigger] records.deep_view()[k]),
            forall|k: int|
                0 <= k < i ==> row_holds((#[trigger] rows@[k])@, records.deep_view()[k]->Some_0),
        decreases records.len() - i,
    {
        assert(records.deep_view()[i as int] == records@[i as int].deep_view());
        match &records[i] {
            Some(fields) => match convert_record(fields) {
                Some(row) => {
                    rows.push(row);
                },
                None => {
                    return Err(PipelineError::ParseError);
                },
            },
            None => {
                return Err(PipelineError::ParseError);
            },
        }
        i += 1;
    }
    Ok(rows)
}

/// Reads delimited text into rows of numbers, the first record being left
/// out as a header where `has_header` says so.
///
/// It succeeds exactly when the `csv` crate finds no broken record and
/// every field writes a number; otherwise the read fails as unparsed.
pub fn read_csv(contents: &[u8], has_header: bool) -> (rows: Result<Vec<Vec<Fixed>>, PipelineError>)
    ensures
        rows is Ok <==> forall|i: int|
            0 <= i < csv_records(contents@, has_header).len() ==> record_parses(
                #[trigger] csv_records(contents@, has_header)[i],
            ),
        rows is Ok ==> rows_hold(rows->Ok_0@, csv_records(contents@, has_header)),
        rows is Err ==> rows->Err_0 == PipelineError::ParseError,
{
    let records = split_records(contents, has_header);
    convert(&records)
}

/// Lets a file name pass when it names a regular file, as `is_file`
/// reports, and refuses it as not found otherwise.
pub fn validate_file(filename: &str, is_file: bool) -> (checked: Result<&str, PipelineError>)
    ensures
        checked is Ok <==> is_file,
        checked is Ok ==> checked->Ok_0@ == filename@,
        checked is Err ==> checked->Err_0 == PipelineError::NotFound,
{
    if is_file {
        Ok(filename)
    } else {
        Err(PipelineError::NotFound)
    }
}

} // verus!
