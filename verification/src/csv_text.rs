//! The delimited text of the table, as the `csv` crate reads and writes it.
//!
//! Fields are separated by `;` and a record ends with a line feed. A field
//! that holds the delimiter, a double quote, a carriage return or a line feed
//! is written between double quotes, each double quote in it doubled. That
//! is the `csv` crate's convention and its work: this module gives what the
//! crate reads and writes a name, and nothing is proved here about either.
//! That a written table reads back as it was is therefore tested, not proved.

use vstd::prelude::*;

verus! {

/// The error type of the `csv` crate. Nothing is known of what a value of it
/// holds.
#[verifier::external_type_specification]
#[verifier::external_body]
pub struct ExCsvError(csv::Error);

/// The items that `csv::Reader::byte_records` yields for `data`, in order,
/// on a reader with `;` as the delimiter that yields the first record (the
/// header) too. Each is `Some` of a record's fields, or `None` where the
/// reader reports an error in place of a record, as it does for a record
/// that has not as many fields as the first.
pub uninterp spec fn csv_records(data: Seq<u8>) -> Seq<Option<Seq<Seq<u8>>>>;

/// The bytes that `csv::Writer::write_record` writes for one record of
/// these fields, on a writer with `;` as the delimiter: the fields, quoted
/// where need be, and the record terminator.
pub uninterp spec fn csv_line(fields: Seq<Seq<u8>>) -> Seq<u8>;

/// One item of what was read, without what the error holds.
pub open spec fn read_outcome(item: Result<Vec<Vec<u8>>, csv::Error>) -> Option<Seq<Seq<u8>>> {
    match item {
        Ok(fields) => Some(fields.deep_view()),
        Err(_) => None,
    }
}

/// What was read, without what the errors hold.
pub open spec fn read_outcomes(items: Seq<Result<Vec<Vec<u8>>, csv::Error>>) -> Seq<
    Option<Seq<Seq<u8>>>,
> {
    items.map_values(|item: Result<Vec<Vec<u8>>, csv::Error>| read_outcome(item))
}

/// Splits `data` into records with `csv::Reader::byte_records`, on a reader
/// built by `csv::ReaderBuilder` with delimiter `;` and `has_headers(false)`.
///
/// Believed, not proved: the items are what the reader yields, in order,
/// each record's fields copied out byte for byte, each error kept as it is.
#[verifier::external_body]
pub(crate) fn read_records(data: &[u8]) -> (items: Vec<Result<Vec<Vec<u8>>, csv::Error>>)
    ensures
        read_outcomes(items@) == csv_records(data@),
{
    let mut reader = csv::ReaderBuilder::new().delimiter(b';').has_headers(false).from_reader(data);
    let mut items = Vec::new();
    for record in reader.byte_records() {
        items.push(
            match record {
                Ok(fields) => Ok(fields.iter().map(<[u8]>::to_vec).collect()),
                Err(e) => Err(e),
            },
        );
    }
    items
}

/// Writes one record with `csv::Writer::write_record`, on a writer built by
/// `csv::WriterBuilder` with delimiter `;` over an empty buffer, and takes
/// the buffer back with `csv::Writer::into_inner`.
///
/// Believed, not proved: the writer reports no error, and the bytes are
/// what it wrote for these fields. The writer can fail in two places only:
/// when it hands its bytes on, which a buffer in memory always takes, and
/// when a record has not as many fields as the first, and here the record
/// is the writer's first.
#[verifier::external_body]
pub(crate) fn write_record(fields: &Vec<Vec<u8>>) -> (written: Result<Vec<u8>, csv::Error>)
    ensures
        written is Ok,
        written matches Ok(line) ==> line@ == csv_line(fields.deep_view()),
{
    let mut writer = csv::WriterBuilder::new().delimiter(b';').has_headers(false).from_writer(
        Vec::new(),
    );
    writer.write_record(fields)?;
    writer.into_inner().map_err(|e| csv::Error::from(e.into_error()))
}

/// The message of a `csv::Error`, from its `Display` impl. Nothing is
/// claimed of the text.
#[verifier::external_body]
pub(crate) fn error_text(error: &csv::Error) -> (text: String) {
    error.to_string()
}

} // verus!
