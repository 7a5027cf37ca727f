//! Reading tab-separated text into a header row and records.
use vstd::prelude::*;
use vstd::string::StringSliceAdditionalSpecFns;

verus! {

/// The header row and the records that the csv reader finds in the bytes of
/// a tab-separated text, each field as text; `None` where the reader reports
/// an error (records of unequal length, a field that is not UTF-8).
pub uninterp spec fn tsv_table(data: Seq<u8>) -> Option<(Seq<Seq<char>>, Seq<Seq<Seq<char>>>)>;

/// A table as the contracts see it: the view of each field.
pub open spec fn table_view(table: Option<(Vec<String>, Vec<Vec<String>>)>) -> Option<
    (Seq<Seq<char>>, Seq<Seq<Seq<char>>>),
> {
    match table {
        Some((headers, records)) => Some((headers.deep_view(), records.deep_view())),
        None => None,
    }
}

/// Reads `data` with a reader of the csv crate that `ReaderBuilder` makes
/// with the tab as delimiter and its other settings at their defaults: all
/// records (`records`), then the header row (`headers`), each field copied
/// into a `String`. The contract gives the outcome its name and claims
/// nothing else of it; an error of the reader becomes `None`.
#[verifier::external_body]
pub(crate) fn read_table(data: &[u8]) -> (table: Option<(Vec<String>, Vec<Vec<String>>)>)
    ensures
        table_view(table) == tsv_table(data@),
{
    let mut reader = csv::ReaderBuilder::new().delimiter(b'\t').from_reader(data);
    let records = reader.records().collect::<Result<Vec<csv::StringRecord>, csv::Error>>().ok()?;
    let headers = reader.headers().ok()?.iter().map(String::from).collect();
    Some((headers, records.iter().map(|r| r.iter().map(String::from).collect()).collect()))
}

/// The header row and the records of the tab-separated text `data`, or
/// `None` where it cannot be read as a table.
pub fn wrap_from_str(data: &str) -> (table: Option<(Vec<String>, Vec<Vec<String>>)>)
    ensures
        table_view(table) == tsv_table(data.spec_bytes()),
{
    read_table(data.as_bytes())
}

} // verus!
