//! Reading the list of targets.
//!
//! The list is comma-separated text with a header line. Each data row names
//! an account address in its first field and carries free metadata in its
//! second; further fields are ignored. The address is hexadecimal, with or
//! without a `0x` prefix, in either case. The first row that cannot be read
//! ends the reading with an error.

use crate::address::{address_bytes, is_address_text, Address};
use crate::registry::Target;
use vstd::prelude::*;

verus! {

/// Why a list of targets could not be read.
#[derive(Clone, Copy, Debug, PartialEq, Eq)]
pub enum InputError {
    /// The text is not well-formed comma-separated text.
    Unreadable,
    /// The data row with this index, counted from zero, has fewer than two
    /// fields.
    MissingField { row: usize },
    /// The first field of the data row with this index is no address.
    BadAddress { row: usize },
}

/// The data rows of comma-separated text, each a sequence of fields, the
/// header row left out; `None` where the reader reports an error.
pub uninterp spec fn csv_rows(input: Seq<u8>) -> Option<Seq<Seq<Seq<char>>>>;

/// Reads all records of `input` with a `csv::Reader` built as
/// `csv::ReaderBuilder::new().has_headers(true)` builds it, and copies the
/// fields of each. The rows are taken to be a function of the input bytes
/// alone; nothing else is claimed of them.
#[verifier::external_body]
pub(crate) fn read_rows(input: &[u8]) -> (rows: Option<Vec<Vec<String>>>)
    ensures
        match rows {
            Some(read) => csv_rows(input@) == Some(read.deep_view()),
            None => csv_rows(input@) is None,
        },
{
    let mut reader = csv::ReaderBuilder::new().has_headers(true).from_reader(input);
    let mut rows = Vec::new();
    for row in reader.records() {
        match row {
            Ok(record) => rows.push(record.iter().map(String::from).collect()),
            Err(_) => return None,
        }
    }
    Some(rows)
}

/// `text` in lower case.
pub uninterp spec fn lowercased(text: Seq<char>) -> Seq<char>;

/// Calls `str::to_lowercase`. The result is taken to be a function of the
/// text alone; nothing else is claimed of it.
#[verifier::external_body]
pub(crate) fn lowercase(text: &str) -> (lower: String)
    ensures
        lower@ == lowercased(text@),
{
    text.to_lowercase()
}

/// Whether `row` can be read as a target.
pub open spec fn row_ok(row: Seq<Seq<char>>) -> bool {
    row.len() >= 2 && is_address_text(lowercased(row[0]))
}

/// Whether `target` is what `row` says: the address of the first field, the
/// metadata of the second, and not yet resolved.
pub open spec fn reads_as(target: Target, row: Seq<Seq<char>>) -> bool {
    &&& target.address.bytes@ == address_bytes(lowercased(row[0]))
    &&& target.metadata@ == row[1]
    &&& target.resolution is Unresolved
}

/// Whether the first `count` rows can all be read.
pub open spec fn rows_ok(rows: Seq<Seq<Seq<char>>>, count: int) -> bool {
    forall|j: int| 0 <= j < count ==> row_ok(#[trigger] rows[j])
}

/// Whether `outcome` is what reading `rows` gives: all the targets, in
/// order, or the error of the first row that cannot be read.
pub open spec fn reading_of(
    rows: Seq<Seq<Seq<char>>>,
    outcome: Result<Vec<Target>, InputError>,
) -> bool {
    match outcome {
        Ok(targets) => {
            &&& rows_ok(rows, rows.len() as int)
            &&& targets@.len() == rows.len()
            &&& forall|i: int| 0 <= i < rows.len() ==> reads_as(#[trigger] targets@[i], rows[i])
        },
        Err(InputError::MissingField { row }) => {
            &&& row < rows.len()
            &&& rows_ok(rows, row as int)
            &&& rows[row as int].len() < 2
        },
        Err(InputError::BadAddress { row }) => {
            &&& row < rows.len()
            &&& rows_ok(rows, row as int)
            &&& rows[row as int].len() >= 2
            &&& !is_address_text(lowercased(rows[row as int][0]))
        },
        Err(InputError::Unreadable) => false,
    }
}

/// Reads the address in a field of the list: the field is put in lower case
/// and then read as hexadecimal text.
pub fn parse_address_field(field: &str) -> (parsed: Option<Address>)
    ensures
        parsed is Some <==> is_address_text(lowercased(field@)),
        parsed matches Some(a) ==> a.bytes@ == address_bytes(lowercased(field@)),
{
    let lower = lowercase(field);
    Address::parse(lower.as_str())
}

/// Turns data rows into targets. Each row gives one target, in order; the
/// first row with fewer than two fields, or with a first field that is no
/// address, gives the error.
pub fn targets_of_rows(rows: &Vec<Vec<String>>) -> (outcome: Result<Vec<Target>, InputError>)
    ensures
        reading_of(rows.deep_view(), outcome),
{
    let mut targets: Vec<Target> = Vec::new();
    let mut i: usize = 0;
    while i < rows.len()
        invariant
            i <= rows.len(),
            rows_ok(rows.deep_view(), i as int),
            targets@.len() == i,
            forall|j: int| 0 <= j < i ==> reads_as(#[trigger] targets@[j], rows.deep_view()[j]),
        decreases rows.len() - i,
    {
        let row = &rows[i];
        assert(rows.deep_view()[i as int] == row.deep_view());
        if row.len() < 2 {
            return Err(InputError::MissingField { row: i });
        }
        assert(row.deep_view()[0] == row@[0]@);
        assert(row.deep_view()[1] == row@[1]@);
        match parse_address_field(row[0].as_str()) {
            Some(address) => {
                targets.push(Target::new(address, row[1].clone()));
            },
            None => {
                return Err(InputError::BadAddress { row: i });
            },
        }
        i += 1;
    }
    Ok(targets)
}

/// Reads a list of targets from comma-separated text.
pub fn parse_targets(input: &[u8]) -> (outcome: Result<Vec<Target>, InputError>)
    ensures
        match csv_rows(input@) {
            Some(rows) => reading_of(rows, outcome),
            None => outcome == Err::<Vec<Target>, InputError>(InputError::Unreadable),
        },
{
    match read_rows(input) {
        Some(rows) => targets_of_rows(&rows),
        None => Err(InputError::Unreadable),
    }
}

} // verus!
