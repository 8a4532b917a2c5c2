use vstd::prelude::*;
use crate::flatten::{flatten_document, flat_records, header_of, records_of, row_of, strings_view, Table};
use crate::json::JsonValue;

verus! {

/// A field must be quoted when it holds a comma, a quote, `\r` or `\n`.
pub open spec fn needs_quotes(field: Seq<char>) -> bool {
    exists|i: int| 0 <= i < field.len()
        && (field[i] == ',' || field[i] == '"' || field[i] == '\r' || field[i] == '\n')
}

/// A field with each quote doubled.
pub open spec fn double_quotes(field: Seq<char>) -> Seq<char>
    decreases field.len(),
{
    if field.len() == 0 {
        Seq::empty()
    } else {
        double_quotes(field.drop_last()) + if field.last() == '"' { seq!['"', '"'] } else { seq![field.last()] }
    }
}

/// A field as written: in quotes, with its quotes doubled, where it must be quoted.
pub open spec fn field_text(field: Seq<char>) -> Seq<char> {
    if needs_quotes(field) { seq!['"'] + double_quotes(field) + seq!['"'] } else { field }
}

/// The fields of a record as written, separated by commas.
pub open spec fn joined_fields(fields: Seq<Seq<char>>) -> Seq<char>
    decreases fields.len(),
{
    if fields.len() == 0 {
        Seq::empty()
    } else if fields.len() == 1 {
        field_text(fields[0])
    } else {
        joined_fields(fields.drop_last()) + seq![','] + field_text(fields.last())
    }
}

/// The bytes that the `csv` writer, with its default settings, emits for one
/// record: the fields separated by commas, a pair of quotes in place of a
/// record that would otherwise be empty, then a line feed; all in UTF-8.
pub open spec fn csv_record_bytes(fields: Seq<Seq<char>>) -> Seq<u8> {
    let body = joined_fields(fields);
    vstd::utf8::encode_utf8((if body.len() == 0 { seq!['"', '"'] } else { body }) + seq!['\n'])
}

/// The records that the `csv` reader finds in a text, read without a header row.
pub uninterp spec fn csv_records_of(text: Seq<u8>) -> Seq<Seq<Seq<char>>>;

/// The `csv` reader, without a header row, reads every record of the text
/// without error.
pub uninterp spec fn csv_readable(text: Seq<u8>) -> bool;

/// Relies on csv::Writer::write_record and csv::Writer::into_inner on a fresh
/// writer over memory with csv-core's default settings (comma, double quote,
/// quotes doubled, line feed, quoting only where necessary).
/// It succeeds: the field count check of a fresh writer only records the length
/// of its first record, and flushing into a `Vec<u8>` cannot fail.
#[verifier::external_body]
fn encode_record(fields: &Vec<String>) -> (r: Option<Vec<u8>>)
    ensures
        r is Some,
        r matches Some(b) ==> b@ == csv_record_bytes(strings_view(fields@)),
{
    let mut w = csv::Writer::from_writer(Vec::new());
    match w.write_record(fields) {
        Ok(()) => w.into_inner().ok(),
        Err(_) => None,
    }
}

/// Relies on csv::ReaderBuilder (without a header row) and csv::Reader::records:
/// every record of the text as a list of fields, or nothing where the reader fails.
#[verifier::external_body]
pub(crate) fn decode_records(text: &[u8]) -> (r: Option<Vec<Vec<String>>>)
    ensures
        r is Some <==> csv_readable(text@),
        r matches Some(rs) ==> rs@.map_values(|f: Vec<String>| strings_view(f@)) == csv_records_of(text@),
{
    let mut rdr = csv::ReaderBuilder::new().has_headers(false).from_reader(text);
    let read: Result<Vec<csv::StringRecord>, csv::Error> = rdr.records().collect();
    read.ok().map(|rs| rs.iter().map(|rec| rec.iter().map(String::from).collect()).collect())
}

/// The lines of a table as written: none for a table without records, else
/// the header followed by the rows.
pub open spec fn table_lines(header: Seq<Seq<char>>, rows: Seq<Seq<Seq<char>>>) -> Seq<Seq<Seq<char>>> {
    if rows.len() == 0 { Seq::empty() } else { seq![header] + rows }
}

/// The bytes of a list of records, each encoded in turn.
pub open spec fn records_bytes(lines: Seq<Seq<Seq<char>>>) -> Seq<u8>
    decreases lines.len(),
{
    if lines.len() == 0 {
        Seq::empty()
    } else {
        records_bytes(lines.drop_last()) + csv_record_bytes(lines.last())
    }
}

/// The tabular text of a JSON document: its flattened table, written record by record.
pub open spec fn document_csv(doc: JsonValue) -> Seq<u8> {
    let flats = flat_records(records_of(doc));
    let header = header_of(flats);
    records_bytes(table_lines(header, flats.map_values(|p: Seq<(Seq<char>, Seq<char>)>| row_of(header, p))))
}

/// Writes the lines of a table record by record.
pub fn encode_lines(lines: &Vec<Vec<String>>) -> (r: Vec<u8>)
    ensures
        r@ == records_bytes(lines@.map_values(|f: Vec<String>| strings_view(f@))),
{
    let ghost lv = lines@.map_values(|f: Vec<String>| strings_view(f@));
    let mut out: Vec<u8> = Vec::new();
    let mut i: usize = 0;
    while i < lines.len()
        invariant
            0 <= i <= lines.len(),
            lv == lines@.map_values(|f: Vec<String>| strings_view(f@)),
            out@ == records_bytes(lv.subrange(0, i as int)),
        decreases lines.len() - i,
    {
        match encode_record(&lines[i]) {
            Some(mut b) => {
                assert(lv.subrange(0, i + 1).drop_last() =~= lv.subrange(0, i as int));
                out.append(&mut b);
            },
            None => {
                assert(false);
                return out;
            },
        }
        i = i + 1;
    }
    assert(lv.subrange(0, lines.len() as int) =~= lv);
    out
}

/// Flattens a JSON document and writes its table as tabular text.
pub fn document_to_csv(doc: &JsonValue) -> (r: Vec<u8>)
    ensures
        r@ == document_csv(*doc),
{
    let t = flatten_document(doc);
    let Table { header, rows } = t;
    let ghost flats = flat_records(records_of(*doc));
    let ghost hv = header_of(flats);
    let ghost rv = flats.map_values(|p: Seq<(Seq<char>, Seq<char>)>| row_of(hv, p));
    let mut lines: Vec<Vec<String>> = Vec::new();
    if rows.len() > 0 {
        lines.push(header);
        let mut rows = rows;
        lines.append(&mut rows);
    }
    proof {
        let lv = lines@.map_values(|f: Vec<String>| strings_view(f@));
        assert(lv =~= table_lines(hv, rv));
    }
    encode_lines(&lines)
}

} // verus!
