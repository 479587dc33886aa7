//! Rows of the publication and resource spreadsheets, read from CSV text.
use crate::publication::PubRow;
use crate::resources::expiration_of;
use crate::resources::keywords_of;
use crate::resources::parse_expiration;
use crate::resources::parse_keywords;
use crate::resources::string_views;
use crate::resources::ResourceRow;
use vstd::prelude::*;

verus! {

/// The records of CSV text after its header row, each as its fields; records
/// that the reader cannot read are left out.
pub uninterp spec fn csv_records_of(text: Seq<char>) -> Seq<Seq<Seq<char>>>;

/// The fields of each record.
pub open spec fn records_view(v: Seq<Vec<String>>) -> Seq<Seq<Seq<char>>> {
    v.map_values(|r: Vec<String>| string_views(r@))
}

/// Relies on the csv crate's `ReaderBuilder` with `has_headers(true)`,
/// `Reader::records` and `StringRecord::iter`: the records after the header
/// row, each as its fields, without the records that fail to read.
#[verifier::external_body]
fn csv_records(text: &str) -> (r: Vec<Vec<String>>)
    ensures
        records_view(r@) == csv_records_of(text@),
{
    let mut reader = csv::ReaderBuilder::new().has_headers(true).from_reader(text.as_bytes());
    reader.records().filter_map(|rec| rec.ok()).map(|rec| rec.iter().map(|f| f.to_string()).collect()).collect()
}

/// Field `k` of a record, or nothing when the record is shorter.
pub open spec fn cell_of(record: Seq<Seq<char>>, k: int) -> Seq<char> {
    if 0 <= k < record.len() {
        record[k]
    } else {
        seq![]
    }
}

pub fn cell(record: &Vec<String>, k: usize) -> (r: String)
    ensures
        r@ == cell_of(string_views(record@), k as int),
{
    if k < record.len() {
        record[k].clone()
    } else {
        String::new()
    }
}

/// Whether a row holds the first six fields of a record, in the order
/// year, title, authors, journal, website, note.
pub open spec fn pub_row_matches(row: PubRow, record: Seq<Seq<char>>) -> bool {
    &&& row.year@ == cell_of(record, 0)
    &&& row.title@ == cell_of(record, 1)
    &&& row.authors@ == cell_of(record, 2)
    &&& row.journal@ == cell_of(record, 3)
    &&& row.website@ == cell_of(record, 4)
    &&& row.note@ == cell_of(record, 5)
}

/// One publication row per record.
pub fn publication_rows(records: &Vec<Vec<String>>) -> (r: Vec<PubRow>)
    ensures
        r@.len() == records@.len(),
        forall|i: int|
            0 <= i < r@.len() ==> pub_row_matches(#[trigger] r@[i], records_view(records@)[i]),
{
    let mut rows: Vec<PubRow> = Vec::new();
    let mut i: usize = 0;
    while i < records.len()
        invariant
            i <= records@.len(),
            rows@.len() == i,
            forall|k: int|
                0 <= k < i ==> pub_row_matches(#[trigger] rows@[k], records_view(records@)[k]),
        decreases records@.len() - i,
    {
        let rec = &records[i];
        let row = PubRow {
            year: cell(rec, 0),
            title: cell(rec, 1),
            authors: cell(rec, 2),
            journal: cell(rec, 3),
            website: cell(rec, 4),
            note: cell(rec, 5),
        };
        rows.push(row);
        i += 1;
    }
    rows
}

/// Reads the publication spreadsheet.
pub fn publication_rows_from_csv(text: &str) -> (r: Vec<PubRow>)
    ensures
        r@.len() == csv_records_of(text@).len(),
        forall|i: int|
            0 <= i < r@.len() ==> pub_row_matches(#[trigger] r@[i], csv_records_of(text@)[i]),
{
    let records = csv_records(text);
    publication_rows(&records)
}

/// Whether a row holds a record's fields: caption, expiration date,
/// keywords and link, in that order.
pub open spec fn resource_row_matches(row: ResourceRow, record: Seq<Seq<char>>) -> bool {
    &&& row.caption@ == cell_of(record, 0)
    &&& (match row.expiration_day {
        Some(d) => expiration_of(cell_of(record, 1)) == Some(d as int),
        None => expiration_of(cell_of(record, 1)) is None,
    })
    &&& string_views(row.keywords@) == keywords_of(cell_of(record, 2))
    &&& row.link@ == cell_of(record, 3)
}

/// One resource row per record.
pub fn resource_rows(records: &Vec<Vec<String>>) -> (r: Vec<ResourceRow>)
    ensures
        r@.len() == records@.len(),
        forall|i: int|
            0 <= i < r@.len() ==> resource_row_matches(#[trigger] r@[i], records_view(records@)[i]),
{
    let mut rows: Vec<ResourceRow> = Vec::new();
    let mut i: usize = 0;
    while i < records.len()
        invariant
            i <= records@.len(),
            rows@.len() == i,
            forall|k: int|
                0 <= k < i ==> resource_row_matches(#[trigger] rows@[k], records_view(records@)[k]),
        decreases records@.len() - i,
    {
        let rec = &records[i];
        let caption = cell(rec, 0);
        let expiration = cell(rec, 1);
        let keywords = cell(rec, 2);
        let row = ResourceRow {
            caption,
            link: cell(rec, 3),
            expiration_day: parse_expiration(expiration.as_str()),
            keywords: parse_keywords(keywords.as_str()),
        };
        rows.push(row);
        i += 1;
    }
    rows
}

/// Reads the resource spreadsheet.
pub fn resource_rows_from_csv(text: &str) -> (r: Vec<ResourceRow>)
    ensures
        r@.len() == csv_records_of(text@).len(),
        forall|i: int|
            0 <= i < r@.len() ==> resource_row_matches(#[trigger] r@[i], csv_records_of(text@)[i]),
{
    let records = csv_records(text);
    resource_rows(&records)
}

} // verus!
