//! Assembling a parsed table into a document of typed records.
use vstd::prelude::*;
use crate::classify::{classify, matcher, CellView, OutType};
use crate::error::ConvertError;
use crate::table::Csvinput;

verus! {

/// One data row: each header label paired with the cell in its column, in
/// column order.
#[derive(Debug, Clone, PartialEq)]
pub struct OutRecord {
    pub entries: Vec<(String, OutType)>,
}

impl View for OutRecord {
    type V = Seq<(Seq<char>, CellView)>;

    open spec fn view(&self) -> Seq<(Seq<char>, CellView)> {
        Seq::new(self.entries@.len(), |j: int| (self.entries@[j].0@, self.entries@[j].1@))
    }
}

/// The converted table: one record per data row, in row order.
#[derive(Debug, Clone, PartialEq)]
pub struct Ronfile {
    pub content: Vec<OutRecord>,
}

impl View for Ronfile {
    type V = Seq<Seq<(Seq<char>, CellView)>>;

    open spec fn view(&self) -> Seq<Seq<(Seq<char>, CellView)>> {
        Seq::new(self.content@.len(), |i: int| self.content@[i]@)
    }
}

/// Every row has as many fields as the header.
pub open spec fn rows_match(header: Seq<Seq<char>>, rows: Seq<Seq<Seq<char>>>) -> bool {
    forall|i: int| 0 <= i < rows.len() ==> (#[trigger] rows[i]).len() == header.len()
}

/// A row zipped with the header, each field classified.
pub open spec fn record_of(header: Seq<Seq<char>>, row: Seq<Seq<char>>) -> Seq<(Seq<char>, CellView)> {
    Seq::new(row.len(), |j: int| (header[j], classify(row[j])))
}

/// The document of a table whose rows all match its header.
pub open spec fn document_of(header: Seq<Seq<char>>, rows: Seq<Seq<Seq<char>>>) -> Seq<Seq<(Seq<char>, CellView)>> {
    Seq::new(rows.len(), |i: int| record_of(header, rows[i]))
}

/// `row` is the first row whose length differs from the header's.
pub open spec fn first_mismatch(header: Seq<Seq<char>>, rows: Seq<Seq<Seq<char>>>, row: int) -> bool {
    &&& 0 <= row < rows.len()
    &&& rows[row].len() != header.len()
    &&& forall|j: int| 0 <= j < row ==> (#[trigger] rows[j]).len() == header.len()
}

/// What converting a table yields: the document where every row matches the
/// header, else the first mismatching row.
pub open spec fn convert_spec(header: Seq<Seq<char>>, rows: Seq<Seq<Seq<char>>>, r: Result<Ronfile, ConvertError>) -> bool {
    match r {
        Ok(doc) => rows_match(header, rows) && doc@ == document_of(header, rows),
        Err(ConvertError::Assembly { row, expected, found }) => {
            &&& first_mismatch(header, rows, row as int)
            &&& expected == header.len()
            &&& found == rows[row as int].len()
        },
        Err(_) => false,
    }
}

/// Pairs the fields of one row with the header labels and classifies them.
fn convert_row(header: &Vec<String>, row: &Vec<String>) -> (r: OutRecord)
    requires
        row@.len() == header@.len(),
    ensures
        r@ == record_of(header.deep_view(), row.deep_view()),
{
    let mut entries: Vec<(String, OutType)> = Vec::new();
    let mut j: usize = 0;
    while j < row.len()
        invariant
            row@.len() == header@.len(),
            j <= row@.len(),
            entries@.len() == j,
            forall|k: int|
                0 <= k < j ==> (#[trigger] entries@[k]).0@ == header@[k]@ && entries@[k].1@
                    == classify(row@[k]@),
        decreases row@.len() - j,
    {
        let label = header[j].clone();
        let cell = matcher(row[j].clone());
        entries.push((label, cell));
        j = j + 1;
    }
    let r = OutRecord { entries };
    assert(r@ =~= record_of(header.deep_view(), row.deep_view()));
    r
}

/// Turns each row into a record keyed by the header labels, in row order.
/// Fails at the first row whose field count differs from the header's: no
/// field is dropped and none is padded.
pub fn convert(csv: Csvinput) -> (r: Result<Ronfile, ConvertError>)
    ensures
        convert_spec(csv.header.deep_view(), csv.records.deep_view(), r),
        r is Ok <==> rows_match(csv.header.deep_view(), csv.records.deep_view()),
{
    let ghost h = csv.header.deep_view();
    let ghost rows = csv.records.deep_view();
    let mut i: usize = 0;
    while i < csv.records.len()
        invariant
            h == csv.header.deep_view(),
            rows == csv.records.deep_view(),
            i <= rows.len(),
            forall|j: int| 0 <= j < i ==> (#[trigger] rows[j]).len() == h.len(),
        decreases rows.len() - i,
    {
        if csv.records[i].len() != csv.header.len() {
            assert(rows[i as int].len() == csv.records@[i as int]@.len());
            return Err(
                ConvertError::Assembly {
                    row: i,
                    expected: csv.header.len(),
                    found: csv.records[i].len(),
                },
            );
        }
        i = i + 1;
    }
    let mut content: Vec<OutRecord> = Vec::new();
    let mut i: usize = 0;
    while i < csv.records.len()
        invariant
            h == csv.header.deep_view(),
            rows == csv.records.deep_view(),
            rows_match(h, rows),
            i <= rows.len(),
            content@.len() == i,
            forall|k: int| 0 <= k < i ==> (#[trigger] content@[k])@ == record_of(h, rows[k]),
        decreases rows.len() - i,
    {
        assert(rows[i as int].len() == csv.records@[i as int]@.len());
        let rec = convert_row(&csv.header, &csv.records[i]);
        content.push(rec);
        i = i + 1;
    }
    let doc = Ronfile { content };
    assert(doc@ =~= document_of(h, rows));
    Ok(doc)
}

/// A table of N rows that all match its M header labels becomes a document of
/// exactly N records, each with exactly M entries.
pub proof fn lemma_document_shape(header: Seq<Seq<char>>, rows: Seq<Seq<Seq<char>>>)
    requires
        rows_match(header, rows),
    ensures
        document_of(header, rows).len() == rows.len(),
        forall|i: int|
            0 <= i < rows.len() ==> (#[trigger] document_of(header, rows)[i]).len() == header.len(),
{
    assert forall|i: int| 0 <= i < rows.len() implies (#[trigger] document_of(header, rows)[i]).len()
        == header.len() by {
        assert(rows[i].len() == header.len());
    }
}

} // verus!
