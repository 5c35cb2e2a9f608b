//! Constituency names: reading them off label rows and translating them.
use vstd::prelude::*;
use csv::StringRecord;
use crate::errors::{InvalidConstituencyName, UnpairedTranslation};
use crate::record::record_fields;
use crate::text::{before_colon, trimmed, trim, split_at_colon, lemma_before_colon};
use crate::text_map::TextMap;

verus! {

/// The trimmed text before the first colon of the first cell that holds one.
pub open spec fn colon_name(cells: Seq<Seq<char>>) -> Option<Seq<char>>
    decreases cells.len(),
{
    if cells.len() == 0 {
        None
    } else if cells[0].contains(':') {
        Some(trimmed(before_colon(cells[0])))
    } else {
        colon_name(cells.drop_first())
    }
}

/// The name a label row gives, translated through `table` when there is one.
pub open spec fn extracted_name(
    cells: Seq<Seq<char>>,
    table: Option<Map<Seq<char>, Seq<char>>>,
) -> Option<Seq<char>> {
    match colon_name(cells) {
        None => None,
        Some(n) => match table {
            None => Some(n),
            Some(m) => if m.contains_key(n) {
                Some(m[n])
            } else {
                None
            },
        },
    }
}

/// The table's view, where there is a table.
pub open spec fn table_view(t: Option<&TextMap>) -> Option<Map<Seq<char>, Seq<char>>> {
    match t {
        None => None,
        Some(m) => Some(m@),
    }
}

/// Reads the constituency name off a label row, and translates it when a
/// table is given.
pub fn get_constituency_name(line: &StringRecord, const_translated: Option<&TextMap>) -> (r:
    Result<String, InvalidConstituencyName>)
    ensures
        r is Ok <==> extracted_name(record_fields(*line), table_view(const_translated)) is Some,
        r matches Ok(s) ==> extracted_name(record_fields(*line), table_view(const_translated))
            == Some(s@),
{
    let ghost cells = record_fields(*line);
    let n = line.len();
    let mut i: usize = 0;
    assert(cells.subrange(0, n as int) =~= cells);
    while i < n
        invariant
            cells == record_fields(*line),
            n == cells.len(),
            i <= n,
            colon_name(cells) == colon_name(cells.subrange(i as int, n as int)),
        decreases n - i,
    {
        let cell = match line.get(i) {
            Some(c) => c,
            None => return Err(InvalidConstituencyName),
        };
        proof {
            let rest = cells.subrange(i as int, n as int);
            assert(rest[0] == cells[i as int]);
            assert(rest.drop_first() =~= cells.subrange(i + 1, n as int));
            assert(cell@ == rest[0]);
        }
        if let Some(parts) = split_at_colon(cell) {
            proof {
                lemma_before_colon(parts.0@, parts.1@);
                assert(cell@.contains(':'));
                assert(colon_name(cells) == Some(trimmed(parts.0@)));
            }
            let name = trim(parts.0);
            return match const_translated {
                None => Ok(name.to_owned()),
                Some(table) => match table.get(name) {
                    Some(t) => Ok(t.clone()),
                    None => Err(InvalidConstituencyName),
                },
            };
        }
        i += 1;
    }
    Err(InvalidConstituencyName)
}

/// The first cell of a row, or nothing for a row without cells.
pub open spec fn first_cell(cells: Seq<Seq<char>>) -> Seq<char> {
    if cells.len() > 0 {
        cells[0]
    } else {
        Seq::empty()
    }
}

/// The (name, translation) pairs of a table's rows: the first cell of each
/// odd row is a name, that of the row after it its translation.
pub open spec fn translation_pairs(rows: Seq<Seq<Seq<char>>>) -> Seq<(Seq<char>, Seq<char>)> {
    Seq::new((rows.len() / 2) as nat, |k: int| (first_cell(rows[2 * k]), first_cell(rows[2 * k + 1])))
}

/// The cells of each row.
pub open spec fn rows_view(rows: Seq<StringRecord>) -> Seq<Seq<Seq<char>>> {
    rows.map_values(|r: StringRecord| record_fields(r))
}

/// Reads a translation table from its rows, which alternate between a name
/// and its translation. A name without a translation after it is an error.
pub fn translations_from_rows(rows: &Vec<StringRecord>) -> (r: Result<TextMap, UnpairedTranslation>)
    ensures
        r is Err <==> rows@.len() % 2 == 1,
        r matches Ok(m) ==> m.pairs() == translation_pairs(rows_view(rows@)),
{
    if rows.len() % 2 == 1 {
        return Err(UnpairedTranslation);
    }
    let ghost cells = rows_view(rows@);
    let mut table = TextMap::new();
    let mut k: usize = 0;
    while k < rows.len() / 2
        invariant
            rows@.len() % 2 == 0,
            k <= rows@.len() / 2,
            cells == rows_view(rows@),
            table.pairs() =~= translation_pairs(cells).take(k as int),
        decreases rows@.len() / 2 - k,
    {
        let name = first_cell_of(&rows[2 * k]);
        let translated = first_cell_of(&rows[2 * k + 1]);
        table.insert(name, translated);
        k += 1;
    }
    proof {
        assert(translation_pairs(cells).take(k as int) =~= translation_pairs(cells));
    }
    Ok(table)
}

fn first_cell_of(row: &StringRecord) -> (r: String)
    ensures
        r@ == first_cell(record_fields(*row)),
{
    match row.get(0) {
        Some(c) => c.to_owned(),
        None => String::new(),
    }
}

} // verus!
