//! Deciding what kind of row of the sheet a record is.
use vstd::prelude::*;
use csv::StringRecord;
use crate::record::record_fields;
use crate::text::{is_blank, trim, starts_with};
use crate::pattern::{Pattern, regex_compiles, regex_finds};

verus! {

/// Three Bengali digits, any text without a colon, a colon, then the words
/// for "Member of Parliament".
pub const CONSTITUENCY_REG: &'static str = "([০১২৩৪৫৬৭৮৯]){3}.[^:]*: (সংসদ সদস্য)";

/// The word for "Center" that opens the header row of a section.
pub const CENTER_TOKEN: &'static str = "কেন্দ্র";

/// The kinds of rows that the sheet interleaves.
#[derive(Debug, Clone, Copy, PartialEq, Eq, Structural)]
pub enum RowKind {
    ConstituencyLabel,
    CenterInfoHeader,
    SymbolList,
    DataRow,
    Empty,
}

/// Some non-blank cell holds a constituency label.
pub open spec fn is_label_cells(cells: Seq<Seq<char>>) -> bool {
    &&& regex_compiles(CONSTITUENCY_REG@)
    &&& exists|i: int|
        0 <= i < cells.len() && !is_blank(#[trigger] cells[i]) && regex_finds(
            CONSTITUENCY_REG@,
            cells[i],
        )
}

/// The first cell begins with the word for "Center".
pub open spec fn is_center_header_cells(cells: Seq<Seq<char>>) -> bool {
    &&& cells.len() > 0
    &&& CENTER_TOKEN@.len() <= cells[0].len()
    &&& cells[0].subrange(0, CENTER_TOKEN@.len() as int) == CENTER_TOKEN@
}

/// Every cell is blank.
pub open spec fn is_empty_cells(cells: Seq<Seq<char>>) -> bool {
    forall|i: int| 0 <= i < cells.len() ==> is_blank(#[trigger] cells[i])
}

/// The kind of a row, given whether the row before it was a center header.
pub open spec fn row_kind(cells: Seq<Seq<char>>, after_header: bool) -> RowKind {
    if is_label_cells(cells) {
        RowKind::ConstituencyLabel
    } else if is_center_header_cells(cells) {
        RowKind::CenterInfoHeader
    } else if after_header {
        RowKind::SymbolList
    } else if is_empty_cells(cells) {
        RowKind::Empty
    } else {
        RowKind::DataRow
    }
}

/// Whether some non-blank cell of the row holds a constituency label.
pub fn is_constituency_row(row: &StringRecord) -> (r: bool)
    ensures
        r == is_label_cells(record_fields(*row)),
{
    let pattern = match Pattern::compile(CONSTITUENCY_REG) {
        Some(p) => p,
        None => return false,
    };
    let n = row.len();
    let mut i: usize = 0;
    while i < n
        invariant
            n == record_fields(*row).len(),
            i <= n,
            pattern.source() == CONSTITUENCY_REG@,
            regex_compiles(CONSTITUENCY_REG@),
            forall|j: int|
                0 <= j < i ==> !(!is_blank(#[trigger] record_fields(*row)[j]) && regex_finds(
                    CONSTITUENCY_REG@,
                    record_fields(*row)[j],
                )),
        decreases n - i,
    {
        if let Some(cell) = row.get(i) {
            if !trim(cell).is_empty() && pattern.finds(cell) {
                return true;
            }
        }
        i += 1;
    }
    false
}

/// Whether the first cell of the row begins with the word for "Center".
pub fn is_center_information_row(row: &StringRecord) -> (r: bool)
    ensures
        r == is_center_header_cells(record_fields(*row)),
{
    match row.get(0) {
        Some(first) => starts_with(first, CENTER_TOKEN),
        None => false,
    }
}

/// Whether every cell of the row is blank.
pub fn is_empty_row(row: &StringRecord) -> (r: bool)
    ensures
        r == is_empty_cells(record_fields(*row)),
{
    let n = row.len();
    let mut i: usize = 0;
    while i < n
        invariant
            n == record_fields(*row).len(),
            i <= n,
            forall|j: int| 0 <= j < i ==> is_blank(#[trigger] record_fields(*row)[j]),
        decreases n - i,
    {
        if let Some(cell) = row.get(i) {
            if !trim(cell).is_empty() {
                return false;
            }
        }
        i += 1;
    }
    true
}

/// Classifies a row. `after_header` tells whether the row before it was a
/// center header, which makes this row the section's symbol list unless it
/// is a label or a header itself.
pub fn classify(row: &StringRecord, after_header: bool) -> (r: RowKind)
    ensures
        r == row_kind(record_fields(*row), after_header),
{
    if is_constituency_row(row) {
        RowKind::ConstituencyLabel
    } else if is_center_information_row(row) {
        RowKind::CenterInfoHeader
    } else if after_header {
        RowKind::SymbolList
    } else if is_empty_row(row) {
        RowKind::Empty
    } else {
        RowKind::DataRow
    }
}

} // verus!
