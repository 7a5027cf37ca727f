//! The coverage table of a set of samples.
use crate::number::decimal_u64;
use crate::number::parse_u64;
use crate::tsv::read_table;
use crate::tsv::tsv_table;
use vstd::prelude::*;
use vstd::string::StringExecFns;
use vstd::string::StringSliceAdditionalSpecFns;

verus! {

/// The header of the first column that holds data; the columns before it
/// hold metadata.
pub open spec fn first_node() -> Seq<char> {
    "node.1"@
}

/// Column `c` is the first one whose header is [`first_node`].
pub open spec fn is_data_start(headers: Seq<Seq<char>>, c: int) -> bool {
    &&& 0 <= c < headers.len()
    &&& headers[c] == first_node()
    &&& forall|k: int| 0 <= k < c ==> #[trigger] headers[k] != first_node()
}

/// The first column whose header is [`first_node`], where there is one.
pub open spec fn data_start(headers: Seq<Seq<char>>) -> int {
    choose|c: int| is_data_start(headers, c)
}

/// The table can be turned into a coverage vector: one of its headers is
/// [`first_node`], and each field from that column on is an unsigned
/// decimal number of 64 bits.
pub open spec fn is_coverage_table(headers: Seq<Seq<char>>, records: Seq<Seq<Seq<char>>>) -> bool {
    &&& exists|c: int| is_data_start(headers, c)
    &&& forall|i: int, j: int|
        0 <= i < records.len() && data_start(headers) <= j < records[i].len() ==> decimal_u64(
            #[trigger] records[i][j],
        ) is Some
}

/// The fields of `record` before column `c`.
pub open spec fn metadata_of(record: Seq<Seq<char>>, c: int) -> Seq<Seq<char>> {
    if c <= record.len() {
        record.take(c)
    } else {
        record
    }
}

/// The numbers in the fields of `record` from column `c` on.
pub open spec fn data_of(record: Seq<Seq<char>>, c: int) -> Seq<u64> {
    if c <= record.len() {
        Seq::new((record.len() - c) as nat, |j: int| decimal_u64(record[c + j]).unwrap())
    } else {
        Seq::empty()
    }
}

/// What a [`CoverageVector`] holds, as the contracts see it.
pub struct CoverageVectorView {
    pub headers: Seq<Seq<char>>,
    pub data: Seq<Seq<u64>>,
    pub metadata: Seq<Seq<Seq<char>>>,
}

/// The coverage vector of a table: the headers as they are, and for each
/// record its metadata and its data, split at the first data column.
pub open spec fn coverage_of(
    headers: Seq<Seq<char>>,
    records: Seq<Seq<Seq<char>>>,
) -> CoverageVectorView {
    let c = data_start(headers);
    CoverageVectorView {
        headers,
        data: Seq::new(records.len(), |i: int| data_of(records[i], c)),
        metadata: Seq::new(records.len(), |i: int| metadata_of(records[i], c)),
    }
}

/// The coverage vector that the bytes of a tab-separated text denote, where
/// they can be read as a table and the table can be turned into one.
pub open spec fn coverage_of_bytes(data: Seq<u8>) -> Option<CoverageVectorView> {
    match tsv_table(data) {
        Some((headers, records)) => if is_coverage_table(headers, records) {
            Some(coverage_of(headers, records))
        } else {
            None
        },
        None => None,
    }
}

/// A coverage vector as the contracts see it, where there is one.
pub open spec fn optional_view(coverage: Option<CoverageVector>) -> Option<CoverageVectorView> {
    match coverage {
        Some(c) => Some(c@),
        None => None,
    }
}

/// The coverage of a set of samples: one row of counts per sample, with the
/// metadata of each sample beside it and the headers of all columns.
#[derive(Debug, PartialEq)]
pub struct CoverageVector {
    pub headers: Vec<String>,
    pub data: Vec<Vec<u64>>,
    pub metadata: Vec<Vec<String>>,
}

impl View for CoverageVector {
    type V = CoverageVectorView;

    open spec fn view(&self) -> CoverageVectorView {
        CoverageVectorView {
            headers: self.headers.deep_view(),
            data: self.data.deep_view(),
            metadata: self.metadata.deep_view(),
        }
    }
}

/// The first column whose header is the one that starts the data.
pub fn find_data_start(headers: &Vec<String>) -> (start: Option<usize>)
    ensures
        match start {
            Some(c) => is_data_start(headers.deep_view(), c as int),
            None => !exists|c: int| is_data_start(headers.deep_view(), c),
        },
{
    let first: String = String::from_str("node.1");
    let mut k: usize = 0;
    while k < headers.len()
        invariant
            k <= headers.len(),
            first@ == first_node(),
            forall|p: int| 0 <= p < k ==> #[trigger] headers.deep_view()[p] != first_node(),
        decreases headers.len() - k,
    {
        assert(headers.deep_view()[k as int] == headers[k as int]@);
        if headers[k] == first {
            return Some(k);
        }
        k = k + 1;
    }
    assert forall|c: int| !is_data_start(headers.deep_view(), c) by {
        if 0 <= c < headers.len() {
            assert(headers.deep_view()[c] != first_node());
        }
    }
    None
}

/// Whether each field of `record` from column `start` on is a number.
fn has_numbers_from(record: &Vec<String>, start: usize) -> (ok: bool)
    ensures
        ok == forall|j: int|
            start <= j < record.len() ==> decimal_u64(#[trigger] record.deep_view()[j]) is Some,
{
    let mut j: usize = start;
    while j < record.len()
        invariant
            start <= j,
            forall|p: int|
                start <= p < j && p < record.len() ==> decimal_u64(
                    #[trigger] record.deep_view()[p],
                ) is Some,
        decreases record.len() - j,
    {
        assert(record.deep_view()[j as int] == record[j as int]@);
        if parse_u64(record[j].as_str()).is_none() {
            return false;
        }
        j = j + 1;
    }
    true
}

/// The metadata and the data of one record, split at column `start`.
fn split_record(record: &Vec<String>, start: usize) -> (parts: (Vec<String>, Vec<u64>))
    requires
        forall|j: int|
            start <= j < record.len() ==> decimal_u64(#[trigger] record.deep_view()[j]) is Some,
    ensures
        parts.0.deep_view() == metadata_of(record.deep_view(), start as int),
        parts.1.deep_view() == data_of(record.deep_view(), start as int),
{
    let mut metadatum: Vec<String> = Vec::new();
    let mut datum: Vec<u64> = Vec::new();
    let mut j: usize = 0;
    while j < record.len()
        invariant
            j <= record.len(),
            forall|p: int|
                start <= p < record.len() ==> decimal_u64(#[trigger] record.deep_view()[p]) is Some,
            metadatum.len() == if j <= start {
                j
            } else {
                start
            },
            datum.len() == if j <= start {
                0
            } else {
                j - start
            },
            forall|p: int| 0 <= p < metadatum.len() ==> #[trigger] metadatum[p]@ == record[p]@,
            forall|p: int|
                0 <= p < datum.len() ==> #[trigger] datum[p] == decimal_u64(
                    record[start + p]@,
                ).unwrap(),
        decreases record.len() - j,
    {
        assert(record.deep_view()[j as int] == record[j as int]@);
        if j < start {
            metadatum.push(record[j].clone());
        } else {
            let value: Option<u64> = parse_u64(record[j].as_str());
            datum.push(value.unwrap());
        }
        j = j + 1;
    }
    proof {
        let fields = record.deep_view();
        assert forall|p: int| 0 <= p < metadatum.len() implies metadatum.deep_view()[p]
            == metadata_of(fields, start as int)[p] by {
            assert(metadatum.deep_view()[p] == metadatum[p]@);
            assert(fields[p] == record[p]@);
        }
        assert(metadatum.deep_view() =~= metadata_of(fields, start as int));
        assert forall|p: int| 0 <= p < datum.len() implies datum.deep_view()[p] == data_of(
            fields,
            start as int,
        )[p] by {
            assert(datum.deep_view()[p] == datum[p]);
            assert(fields[start + p] == record[start + p]@);
        }
        assert(datum.deep_view() =~= data_of(fields, start as int));
    }
    (metadatum, datum)
}

/// Whether the table can be turned into a coverage vector.
pub fn accepts(headers: &Vec<String>, records: &Vec<Vec<String>>) -> (ok: bool)
    ensures
        ok == is_coverage_table(headers.deep_view(), records.deep_view()),
{
    match find_data_start(headers) {
        None => false,
        Some(start) => {
            assert(data_start(headers.deep_view()) == start);
            let mut i: usize = 0;
            while i < records.len()
                invariant
                    i <= records.len(),
                    is_data_start(headers.deep_view(), start as int),
                    data_start(headers.deep_view()) == start,
                    forall|r: int, j: int|
                        0 <= r < i && start <= j < records.deep_view()[r].len() ==> decimal_u64(
                            #[trigger] records.deep_view()[r][j],
                        ) is Some,
                decreases records.len() - i,
            {
                assert(records.deep_view()[i as int] == records[i as int].deep_view());
                if !has_numbers_from(&records[i], start) {
                    proof {
                        let record = records[i as int].deep_view();
                        let j = choose|j: int|
                            start <= j < record.len() && !(decimal_u64(#[trigger] record[j])
                                is Some);
                        assert(decimal_u64(records.deep_view()[i as int][j]) is None);
                    }
                    return false;
                }
                i = i + 1;
            }
            true
        },
    }
}

/// The coverage vector of a table: for each record, the fields before the
/// first data column become its metadata and the fields from that column on
/// its data.
pub fn gen(headers: Vec<String>, records: Vec<Vec<String>>) -> (coverage: CoverageVector)
    requires
        is_coverage_table(headers.deep_view(), records.deep_view()),
    ensures
        coverage@ == coverage_of(headers.deep_view(), records.deep_view()),
{
    let found: Option<usize> = find_data_start(&headers);
    let counter: usize = found.unwrap();
    assert(data_start(headers.deep_view()) == counter);
    let mut metadata: Vec<Vec<String>> = Vec::new();
    let mut data: Vec<Vec<u64>> = Vec::new();
    let mut i: usize = 0;
    while i < records.len()
        invariant
            i <= records.len(),
            is_coverage_table(headers.deep_view(), records.deep_view()),
            data_start(headers.deep_view()) == counter,
            metadata.len() == i,
            data.len() == i,
            forall|r: int|
                0 <= r < i ==> #[trigger] metadata[r].deep_view() == metadata_of(
                    records[r].deep_view(),
                    counter as int,
                ),
            forall|r: int|
                0 <= r < i ==> #[trigger] data[r].deep_view() == data_of(
                    records[r].deep_view(),
                    counter as int,
                ),
        decreases records.len() - i,
    {
        assert(records.deep_view()[i as int] == records[i as int].deep_view());
        let (metadatum, datum) = split_record(&records[i], counter);
        metadata.push(metadatum);
        data.push(datum);
        i = i + 1;
    }
    let coverage = CoverageVector { headers, data, metadata };
    proof {
        let expected = coverage_of(headers.deep_view(), records.deep_view());
        assert forall|r: int| 0 <= r < records.len() implies coverage@.data[r]
            == expected.data[r] by {
            assert(coverage@.data[r] == data[r].deep_view());
            assert(records.deep_view()[r] == records[r].deep_view());
        }
        assert(coverage@.data =~= expected.data);
        assert forall|r: int| 0 <= r < records.len() implies coverage@.metadata[r]
            == expected.metadata[r] by {
            assert(coverage@.metadata[r] == metadata[r].deep_view());
            assert(records.deep_view()[r] == records[r].deep_view());
        }
        assert(coverage@.metadata =~= expected.metadata);
    }
    coverage
}

impl CoverageVector {
    /// The coverage vector of a table, where the table can be turned into
    /// one: where a header starts the data and each data field is a number.
    pub fn from_table(headers: Vec<String>, records: Vec<Vec<String>>) -> (coverage: Option<
        CoverageVector,
    >)
        ensures
            optional_view(coverage) == if is_coverage_table(
                headers.deep_view(),
                records.deep_view(),
            ) {
                Some(coverage_of(headers.deep_view(), records.deep_view()))
            } else {
                None
            },
    {
        if accepts(&headers, &records) {
            Some(gen(headers, records))
        } else {
            None
        }
    }

    /// The coverage vector that the contents of a tab-separated file hold;
    /// `None` where the bytes cannot be read as a table, where no header
    /// starts the data, or where a data field is not a number.
    pub fn from_file(contents: &[u8]) -> (coverage: Option<CoverageVector>)
        ensures
            optional_view(coverage) == coverage_of_bytes(contents@),
    {
        match read_table(contents) {
            Some((headers, records)) => CoverageVector::from_table(headers, records),
            None => None,
        }
    }

    /// The coverage vector that a tab-separated text holds; `None` where
    /// the text cannot be read as a table, where no header starts the data,
    /// or where a data field is not a number.
    pub fn from_str(data: &str) -> (coverage: Option<CoverageVector>)
        ensures
            optional_view(coverage) == coverage_of_bytes(data.spec_bytes()),
    {
        match read_table(data.as_bytes()) {
            Some((headers, records)) => CoverageVector::from_table(headers, records),
            None => None,
        }
    }

    /// The data as a matrix of another scalar type: each count is handed to
    /// `convert`, row by row and in the order of the columns.
    pub fn extract_data_matrix<T, C: Fn(u64) -> T>(&self, convert: &C) -> (matrix: Vec<Vec<T>>)
        requires
            forall|i: int, j: int|
                0 <= i < self.data.len() && 0 <= j < self.data[i].len() ==> convert.requires(
                    (#[trigger] self.data[i][j],),
                ),
        ensures
            matrix.len() == self.data.len(),
            forall|i: int|
                0 <= i < matrix.len() ==> (#[trigger] matrix[i]).len() == self.data[i].len(),
            forall|i: int, j: int|
                0 <= i < matrix.len() && 0 <= j < self.data[i].len() ==> convert.ensures(
                    (self.data[i][j],),
                    #[trigger] matrix[i][j],
                ),
    {
        let mut matrix: Vec<Vec<T>> = Vec::new();
        let mut i: usize = 0;
        while i < self.data.len()
            invariant
                i <= self.data.len(),
                matrix.len() == i,
                forall|r: int, j: int|
                    0 <= r < self.data.len() && 0 <= j < self.data[r].len() ==> convert.requires(
                        (#[trigger] self.data[r][j],),
                    ),
                forall|r: int|
                    0 <= r < i ==> (#[trigger] matrix[r]).len() == self.data[r].len(),
                forall|r: int, j: int|
                    0 <= r < i && 0 <= j < self.data[r].len() ==> convert.ensures(
                        (self.data[r][j],),
                        #[trigger] matrix[r][j],
                    ),
            decreases self.data.len() - i,
        {
            let counts: &Vec<u64> = &self.data[i];
            let mut row: Vec<T> = Vec::new();
            let mut j: usize = 0;
            while j < counts.len()
                invariant
                    j <= counts.len(),
                    row.len() == j,
                    forall|c: int| 0 <= c < counts.len() ==> convert.requires((#[trigger] counts[c],)),
                    forall|c: int|
                        0 <= c < j ==> convert.ensures((counts[c],), #[trigger] row[c]),
                decreases counts.len() - j,
            {
                row.push(convert(counts[j]));
                j = j + 1;
            }
            matrix.push(row);
            i = i + 1;
        }
        matrix
    }
}

} // verus!
