//! How a record is laid out in the fields of one line, and a table in the
//! lines of a text.
//!
//! A line has four fields, in this order: the id, the time of the last
//! update in seconds since the epoch, the text of the task in UTF-8, and
//! `true` or `false` for completion. The first line of a table names the
//! four fields.
//!
//! Reading is all or nothing: a text whose first line is another one, or in
//! which one line is not the line of a record, is no table, and nothing of
//! it is read.

use crate::csv_text::csv_line;
use crate::csv_text::csv_records;
use crate::csv_text::error_text;
use crate::csv_text::read_outcome;
use crate::csv_text::read_outcomes;
use crate::csv_text::read_records;
use crate::csv_text::write_record;
use crate::decimal::decimal;
use crate::decimal::format_i64;
use crate::decimal::format_u32;
use crate::decimal::i64_of_field;
use crate::decimal::parse_i64;
use crate::decimal::parse_u32;
use crate::decimal::signed_decimal;
use crate::decimal::u32_of_field;
use crate::models::DBError;
use crate::models::DBRow;
use crate::models::Record;
use crate::table::records_of;
use vstd::prelude::*;
use vstd::string::StringSliceAdditionalSpecFns;
use vstd::utf8::decode_utf8;
use vstd::utf8::encode_utf8;
use vstd::utf8::valid_utf8;

verus! {

/// The fields of the first line of every table.
pub open spec fn header_fields() -> Seq<Seq<u8>> {
    seq![
        "id".spec_bytes(),
        "updatedate".spec_bytes(),
        "task".spec_bytes(),
        "completed".spec_bytes(),
    ]
}

/// The field that stands for a completion flag.
pub open spec fn flag_field(completed: bool) -> Seq<u8> {
    if completed {
        "true".spec_bytes()
    } else {
        "false".spec_bytes()
    }
}

/// The completion flag that a field stands for.
pub open spec fn flag_of_field(field: Seq<u8>) -> Option<bool> {
    if field == "true".spec_bytes() {
        Some(true)
    } else if field == "false".spec_bytes() {
        Some(false)
    } else {
        None
    }
}

/// The four fields of a record's line.
pub open spec fn fields_of_record(r: Record) -> Seq<Seq<u8>> {
    seq![
        decimal(r.id as nat),
        signed_decimal(r.updatedate as int),
        encode_utf8(r.task),
        flag_field(r.completed),
    ]
}

/// The record that the fields of a line stand for, if they are well formed.
pub open spec fn record_of_fields(fields: Seq<Seq<u8>>) -> Option<Record> {
    if fields.len() == 4 && u32_of_field(fields[0]) is Some && i64_of_field(fields[1]) is Some
        && valid_utf8(fields[2]) && flag_of_field(fields[3]) is Some {
        Some(
            Record {
                id: u32_of_field(fields[0])->0,
                updatedate: i64_of_field(fields[1])->0,
                task: decode_utf8(fields[2]),
                completed: flag_of_field(fields[3])->0,
            },
        )
    } else {
        None
    }
}

/// The table that the records of a text stand for: the first record is the
/// header, every other one a well-formed line. A text without any record is
/// the empty table. `None` where the header is another one, or where any
/// record is in error or is not the line of a record.
pub open spec fn table_of_records(items: Seq<Option<Seq<Seq<u8>>>>) -> Option<Seq<Record>> {
    if items.len() == 0 {
        Some(Seq::empty())
    } else if items[0] != Some(header_fields()) {
        None
    } else if forall|i: int| 1 <= i < items.len() ==> is_line(#[trigger] items[i]) {
        Some(Seq::new((items.len() - 1) as nat, |i: int| record_of_fields(items[i + 1]->0)->0))
    } else {
        None
    }
}

/// The item is a record that was read without error and is the line of a
/// record.
pub open spec fn is_line(item: Option<Seq<Seq<u8>>>) -> bool {
    item matches Some(fields) && record_of_fields(fields) is Some
}

/// The table that a text stands for.
pub open spec fn table_of_text(data: Seq<u8>) -> Option<Seq<Record>> {
    table_of_records(csv_records(data))
}

/// The lines of the records of a table, one after the other.
pub open spec fn lines_of(rows: Seq<Record>) -> Seq<u8>
    decreases rows.len(),
{
    if rows.len() == 0 {
        Seq::empty()
    } else {
        lines_of(rows.drop_last()) + csv_line(fields_of_record(rows.last()))
    }
}

/// The text of a table: the header line, then the line of each record.
pub open spec fn text_of_table(rows: Seq<Record>) -> Seq<u8> {
    csv_line(header_fields()) + lines_of(rows)
}

/// The two flag fields are different texts.
pub proof fn lemma_flag_fields_differ()
    ensures
        "true".spec_bytes() != "false".spec_bytes(),
        flag_of_field(flag_field(true)) == Some(true),
        flag_of_field(flag_field(false)) == Some(false),
{
    broadcast use vstd::string::is_ascii_spec_bytes;

    reveal_strlit("true");
    reveal_strlit("false");
    assert(vstd::string::is_ascii("true"));
    assert(vstd::string::is_ascii("false"));
    assert("true".spec_bytes().len() == 4);
    assert("false".spec_bytes().len() == 5);
}

/// Whether two byte strings are the same.
pub fn same_bytes(a: &[u8], b: &[u8]) -> (same: bool)
    ensures
        same == (a@ == b@),
{
    if a.len() != b.len() {
        return false;
    }
    let mut i: usize = 0;
    while i < a.len()
        invariant
            a.len() == b.len(),
            i <= a.len(),
            forall|j: int| 0 <= j < i ==> a@[j] == b@[j],
        decreases a.len() - i,
    {
        if a[i] != b[i] {
            return false;
        }
        i += 1;
    }
    assert(a@ =~= b@);
    true
}

/// Turns the bytes of a field into text with `String::from_utf8`.
///
/// Believed, not proved: the text is returned when the bytes are valid UTF-8,
/// and only then, and its UTF-8 encoding is the bytes that were given.
#[verifier::external_body]
fn text_of_bytes(bytes: Vec<u8>) -> (text: Option<String>)
    ensures
        text is Some <==> valid_utf8(bytes@),
        text matches Some(s) ==> encode_utf8(s@) == bytes@,
{
    match String::from_utf8(bytes) {
        Ok(s) => Some(s),
        Err(_) => None,
    }
}

/// The fields of a row's line.
pub fn encode_row(row: &DBRow) -> (fields: Vec<Vec<u8>>)
    ensures
        fields.deep_view() == fields_of_record(row@),
{
    let mut fields: Vec<Vec<u8>> = Vec::new();
    fields.push(format_u32(row.id));
    fields.push(format_i64(row.updatedate));
    fields.push(row.task.as_str().as_bytes_vec());
    if row.completed {
        fields.push("true".as_bytes_vec());
    } else {
        fields.push("false".as_bytes_vec());
    }
    proof {
        let given = fields.deep_view();
        let wanted = fields_of_record(row@);
        assert(given.len() == 4);
        assert(given[0] =~= wanted[0]);
        assert(given[1] =~= wanted[1]);
        assert(given[2] =~= wanted[2]);
        assert(given[3] =~= wanted[3]);
        assert(given =~= wanted);
    }
    fields
}

/// The row that the fields of a line stand for, or `None` where they are
/// not the fields of any row.
pub fn decode_row(fields: &Vec<Vec<u8>>) -> (row: Option<DBRow>)
    ensures
        match row {
            Some(r) => record_of_fields(fields.deep_view()) == Some(r@),
            None => record_of_fields(fields.deep_view()) is None,
        },
{
    broadcast use vstd::utf8::encode_utf8_decode_utf8;

    if fields.len() != 4 {
        return None;
    }
    let ghost given = fields.deep_view();
    assert(given[0] =~= fields@[0]@ && given[1] =~= fields@[1]@ && given[2] =~= fields@[2]@
        && given[3] =~= fields@[3]@);
    let id: u32 = match parse_u32(fields[0].as_slice()) {
        Some(id) => id,
        None => {
            return None;
        },
    };
    let updatedate: i64 = match parse_i64(fields[1].as_slice()) {
        Some(t) => t,
        None => {
            return None;
        },
    };
    let completed: bool = if same_bytes(fields[3].as_slice(), "true".as_bytes()) {
        true
    } else if same_bytes(fields[3].as_slice(), "false".as_bytes()) {
        false
    } else {
        return None;
    };
    let task: String = match text_of_bytes(fields[2].clone()) {
        Some(s) => s,
        None => {
            return None;
        },
    };
    Some(DBRow { id, updatedate, task, completed })
}

/// The fields of the header line.
pub fn header_row() -> (fields: Vec<Vec<u8>>)
    ensures
        fields.deep_view() == header_fields(),
{
    let mut fields: Vec<Vec<u8>> = Vec::new();
    fields.push("id".as_bytes_vec());
    fields.push("updatedate".as_bytes_vec());
    fields.push("task".as_bytes_vec());
    fields.push("completed".as_bytes_vec());
    proof {
        let given = fields.deep_view();
        let wanted = header_fields();
        assert(given[0] =~= wanted[0]);
        assert(given[1] =~= wanted[1]);
        assert(given[2] =~= wanted[2]);
        assert(given[3] =~= wanted[3]);
        assert(given =~= wanted);
    }
    fields
}

/// Whether the fields are those of the header line.
pub fn is_header(fields: &Vec<Vec<u8>>) -> (same: bool)
    ensures
        same == (fields.deep_view() == header_fields()),
{
    if fields.len() != 4 {
        assert(header_fields().len() == 4);
        return false;
    }
    let ghost given = fields.deep_view();
    assert(given[0] =~= fields@[0]@ && given[1] =~= fields@[1]@ && given[2] =~= fields@[2]@
        && given[3] =~= fields@[3]@);
    let same = same_bytes(fields[0].as_slice(), "id".as_bytes()) && same_bytes(
        fields[1].as_slice(),
        "updatedate".as_bytes(),
    ) && same_bytes(fields[2].as_slice(), "task".as_bytes()) && same_bytes(
        fields[3].as_slice(),
        "completed".as_bytes(),
    );
    proof {
        if same {
            assert(given =~= header_fields());
        }
    }
    same
}

/// The rows of a table from the records that were read from its text.
///
/// The first record must be the header and every other one the line of a
/// row; the first that is not makes the whole table unreadable.
pub fn rows_from_records(items: &Vec<Result<Vec<Vec<u8>>, csv::Error>>) -> (r: Result<
    Vec<DBRow>,
    DBError,
>)
    ensures
        match r {
            Ok(rows) => table_of_records(read_outcomes(items@)) == Some(records_of(rows@)),
            Err(e) => e is ReadError && table_of_records(read_outcomes(items@)) is None,
        },
{
    let ghost outcomes = read_outcomes(items@);
    let mut rows: Vec<DBRow> = Vec::new();
    if items.len() == 0 {
        assert(records_of(rows@) =~= Seq::<Record>::empty());
        return Ok(rows);
    }
    assert(outcomes[0] == read_outcome(items@[0]));
    match &items[0] {
        Ok(fields) => {
            if !is_header(fields) {
                return Err(DBError::new_read_error("the first line does not name the fields"));
            }
        },
        Err(e) => {
            return Err(DBError::ReadError(error_text(e)));
        },
    }
    let mut i: usize = 1;
    while i < items.len()
        invariant
            1 <= i <= items.len(),
            outcomes == read_outcomes(items@),
            outcomes[0] == Some(header_fields()),
            rows.len() == i - 1,
            forall|j: int| 1 <= j < i ==> is_line(#[trigger] outcomes[j]),
            forall|j: int|
                0 <= j < i - 1 ==> (#[trigger] rows@[j])@ == record_of_fields(
                    outcomes[j + 1]->0,
                )->0,
        decreases items.len() - i,
    {
        assert(outcomes[i as int] == read_outcome(items@[i as int]));
        match &items[i] {
            Ok(fields) => {
                match decode_row(fields) {
                    Some(row) => {
                        rows.push(row);
                    },
                    None => {
                        assert(!is_line(outcomes[i as int]));
                        return Err(DBError::new_read_error("a line is not a task record"));
                    },
                }
            },
            Err(e) => {
                assert(!is_line(outcomes[i as int]));
                return Err(DBError::ReadError(error_text(e)));
            },
        }
        i += 1;
    }
    assert(records_of(rows@) =~= table_of_records(outcomes)->0);
    Ok(rows)
}

/// The rows of the table that a text stands for.
pub fn decode_table(data: &[u8]) -> (r: Result<Vec<DBRow>, DBError>)
    ensures
        match r {
            Ok(rows) => table_of_text(data@) == Some(records_of(rows@)),
            Err(e) => e is ReadError && table_of_text(data@) is None,
        },
{
    let items = read_records(data);
    rows_from_records(&items)
}

/// Puts a line that was written behind the text, or says why there is none.
pub fn push_line(text: &mut Vec<u8>, written: Result<Vec<u8>, csv::Error>) -> (r: Result<
    (),
    DBError,
>)
    ensures
        match written {
            Ok(line) => r is Ok && final(text)@ == old(text)@ + line@,
            Err(_) => r matches Err(DBError::WriteError(_)) && final(text)@ == old(text)@,
        },
{
    match written {
        Ok(mut line) => {
            text.append(&mut line);
            Ok(())
        },
        Err(e) => Err(DBError::WriteError(error_text(&e))),
    }
}

/// The text of a table: the header line, then one line for each row.
/// Every table has a text: there is no error.
pub fn encode_table(rows: &Vec<DBRow>) -> (r: Result<Vec<u8>, DBError>)
    ensures
        r matches Ok(text) && text@ == text_of_table(records_of(rows@)),
{
    let mut text: Vec<u8> = Vec::new();
    let header = header_row();
    match push_line(&mut text, write_record(&header)) {
        Ok(()) => {},
        Err(e) => {
            return Err(e);
        },
    }
    let mut i: usize = 0;
    assert(records_of(rows@).take(0) =~= Seq::<Record>::empty());
    assert(text@ =~= csv_line(header_fields()) + lines_of(Seq::<Record>::empty()));
    while i < rows.len()
        invariant
            i <= rows.len(),
            text@ == text_of_table(records_of(rows@).take(i as int)),
        decreases rows.len() - i,
    {
        let fields = encode_row(&rows[i]);
        proof {
            let seen = records_of(rows@).take(i as int);
            let next = records_of(rows@).take(i + 1);
            assert(next.drop_last() =~= seen);
            assert(next.last() == rows@[i as int]@);
            assert(text_of_table(next) =~= text_of_table(seen) + csv_line(
                fields_of_record(rows@[i as int]@),
            ));
        }
        match push_line(&mut text, write_record(&fields)) {
            Ok(()) => {},
            Err(e) => {
                return Err(e);
            },
        }
        i += 1;
    }
    assert(records_of(rows@).take(rows.len() as int) =~= records_of(rows@));
    Ok(text)
}

} // verus!
