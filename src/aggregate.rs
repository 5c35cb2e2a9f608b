//! Reading one center's numbers out of a data row.
use vstd::prelude::*;
use csv::StringRecord;
use crate::record::record_fields;
use crate::text::texts;
use crate::text_map::TextMap;
use vstd::string::StrSliceExecFns;

verus! {

/// A polling center, within its constituency.
#[derive(Debug)]
pub struct CenterDetails {
    pub constituency: String,
    pub center: String,
}

impl CenterDetails {
    pub fn new(constituency: &str, center: &str) -> (r: CenterDetails)
        ensures
            r.constituency@ == constituency@,
            r.center@ == center@,
    {
        CenterDetails { constituency: constituency.to_owned(), center: center.to_owned() }
    }
}

/// The cell at `k`, or "0" where the row is shorter.
pub open spec fn cell_or_zero(cells: Seq<Seq<char>>, k: int) -> Seq<char> {
    if 0 <= k < cells.len() {
        cells[k]
    } else {
        "0"@
    }
}

/// A vote count: a non-empty run of ASCII digits.
pub open spec fn is_vote_count(s: Seq<char>) -> bool {
    &&& s.len() > 0
    &&& forall|i: int| 0 <= i < s.len() ==> '0' <= #[trigger] s[i] <= '9'
}

/// The cell at `k` where it holds a vote count, else "0".
pub open spec fn vote_or_zero(cells: Seq<Seq<char>>, k: int) -> Seq<char> {
    if 0 <= k < cells.len() && is_vote_count(cells[k]) {
        cells[k]
    } else {
        "0"@
    }
}

/// Each of `names` paired with the vote count at its position, counted
/// from `offset`.
pub open spec fn vote_pairs(cells: Seq<Seq<char>>, names: Seq<Seq<char>>, offset: int) -> Seq<
    (Seq<char>, Seq<char>),
> {
    Seq::new(names.len(), |i: int| (names[i], vote_or_zero(cells, offset + i)))
}

/// What is read for `names`: vote counts, or the cells as they stand.
pub open spec fn read_pairs(
    cells: Seq<Seq<char>>,
    names: Seq<Seq<char>>,
    offset: int,
    votes: bool,
) -> Seq<(Seq<char>, Seq<char>)> {
    if votes {
        vote_pairs(cells, names, offset)
    } else {
        column_pairs(cells, names, offset)
    }
}

/// Whether `s` is a vote count.
pub fn is_vote_count_text(s: &str) -> (r: bool)
    ensures
        r == is_vote_count(s@),
{
    let n = s.unicode_len();
    if n == 0 {
        return false;
    }
    let mut i: usize = 0;
    while i < n
        invariant
            n == s@.len(),
            i <= n,
            forall|j: int| 0 <= j < i ==> '0' <= #[trigger] s@[j] <= '9',
        decreases n - i,
    {
        let c = s.get_char(i);
        if !('0' <= c && c <= '9') {
            return false;
        }
        i += 1;
    }
    true
}

/// The cell at `k` where it holds a vote count, else "0".
pub(crate) fn read_vote(record: &StringRecord, k: usize) -> (r: String)
    ensures
        r@ == vote_or_zero(record_fields(*record), k as int),
{
    match record.get(k) {
        Some(c) => if is_vote_count_text(c) {
            c.to_owned()
        } else {
            "0".to_owned()
        },
        None => "0".to_owned(),
    }
}

/// Each of `names` paired with the cell at its position, counted from `offset`.
pub open spec fn column_pairs(cells: Seq<Seq<char>>, names: Seq<Seq<char>>, offset: int) -> Seq<
    (Seq<char>, Seq<char>),
> {
    Seq::new(names.len(), |i: int| (names[i], cell_or_zero(cells, offset + i)))
}

/// Sets each of `names` in `results` to the cell at its position, counted
/// from `offset`, or to "0" where the row is shorter; where `votes` is set,
/// also to "0" where the cell is no vote count.
fn read_columns(
    record: &StringRecord,
    names: &Vec<String>,
    offset: usize,
    votes: bool,
    results: &mut TextMap,
)
    ensures
        final(results).pairs() == old(results).pairs() + read_pairs(
            record_fields(*record),
            texts(names@),
            offset as int,
            votes,
        ),
{
    let ghost cells = record_fields(*record);
    let ghost start = results.pairs();
    let n = record.len();
    let mut i: usize = 0;
    while i < names.len()
        invariant
            cells == record_fields(*record),
            n == cells.len(),
            i <= names@.len(),
            results.pairs() =~= start + read_pairs(cells, texts(names@), offset as int, votes).take(
                i as int,
            ),
        decreases names@.len() - i,
    {
        let value = if offset < n && i < n - offset {
            if votes {
                read_vote(record, offset + i)
            } else {
                match record.get(offset + i) {
                    Some(c) => c.to_owned(),
                    None => "0".to_owned(),
                }
            }
        } else {
            "0".to_owned()
        };
        results.insert(names[i].clone(), value);
        i += 1;
    }
    proof {
        assert(read_pairs(cells, texts(names@), offset as int, votes).take(i as int) =~= read_pairs(
            cells,
            texts(names@),
            offset as int,
            votes,
        ));
    }
}

/// Sets the votes of each symbol of the section from the cells after the
/// first two (the center and its number of voters); a cell that holds no
/// vote count, or is missing, counts as "0".
pub fn get_result(record: &StringRecord, symbol_positions: &Vec<String>, results: &mut TextMap)
    ensures
        final(results).pairs() == old(results).pairs() + vote_pairs(
            record_fields(*record),
            texts(symbol_positions@),
            2,
        ),
{
    read_columns(record, symbol_positions, 2, true, results);
}

/// Sets each summary column from the cells from `offset` on, as they stand
/// (a turnout keeps its percent sign), or "0" where the row is shorter.
pub fn get_other_columns(
    record: &StringRecord,
    other_columns: &Vec<String>,
    offset: usize,
    results: &mut TextMap,
)
    ensures
        final(results).pairs() == old(results).pairs() + column_pairs(
            record_fields(*record),
            texts(other_columns@),
            offset as int,
        ),
{
    read_columns(record, other_columns, offset, false, results);
}

} // verus!
