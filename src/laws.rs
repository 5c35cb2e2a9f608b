//! Properties of the classifier, the name reader, the symbol tracker and
//! the output table, each proved for all inputs.
use vstd::prelude::*;
use crate::aggregate::{column_pairs, is_vote_count, vote_pairs};
use crate::aggregator::{
    Key, Model, Phase, Votes, initial_model, next_model, output_row, run_model, value_or_zero,
};
use crate::classify::{CENTER_TOKEN, CONSTITUENCY_REG, RowKind, is_empty_cells, row_kind};
use crate::names::{colon_name, extracted_name};
use crate::pattern::regex_finds;
use crate::symbols::{recorded, record_cell, sorted_list};
use crate::text::{before_colon, is_blank, is_white_space, lemma_blank, trimmed};

verus! {

/// Recording cells that are all blank leaves the list as it was.
proof fn lemma_record_blank(list: Seq<Seq<char>>, cells: Seq<Seq<char>>)
    requires
        is_empty_cells(cells),
    ensures
        recorded(list, cells) == list,
    decreases cells.len(),
{
    if cells.len() > 0 {
        assert(is_blank(cells[cells.len() - 1]));
        lemma_record_blank(list, cells.drop_last());
    }
}

/// A row whose cells are all blank is an empty row, unless it directly
/// follows a center header; in every state it leaves the table and the
/// symbols as they were.
pub proof fn lemma_blank_row(
    m: Model,
    cells: Seq<Seq<char>>,
    translations: Option<Map<Seq<char>, Seq<char>>>,
    summary: Seq<Seq<char>>,
)
    requires
        is_empty_cells(cells),
    ensures
        row_kind(cells, false) == RowKind::Empty,
        next_model(m, cells, translations, summary) is Some,
        next_model(m, cells, translations, summary)->0.table == m.table,
        next_model(m, cells, translations, summary)->0.symbols == m.symbols,
        m.phase != Phase::AwaitingSymbolList ==> next_model(m, cells, translations, summary) == Some(
            m,
        ),
{
    if cells.len() > 0 {
        let c = cells[0];
        assert(is_blank(c));
        lemma_blank(c);
        reveal_strlit("কেন্দ্র");
        if CENTER_TOKEN@.len() <= c.len() && c.subrange(0, CENTER_TOKEN@.len() as int)
            == CENTER_TOKEN@ {
            assert(c[0] == CENTER_TOKEN@[0]);
            assert(!is_white_space(CENTER_TOKEN@[0]));
        }
    }
    lemma_record_blank(m.symbols, cells);
}

/// Running `a` and then `b` goes on from where `a` stopped.
proof fn lemma_run_concat(
    m: Model,
    a: Seq<Seq<Seq<char>>>,
    b: Seq<Seq<Seq<char>>>,
    translations: Option<Map<Seq<char>, Seq<char>>>,
    summary: Seq<Seq<char>>,
)
    ensures
        run_model(m, a + b, translations, summary) == (match run_model(m, a, translations, summary) {
            None => None,
            Some(p) => run_model(p, b, translations, summary),
        }),
    decreases b.len(),
{
    if b.len() == 0 {
        assert(a + b =~= a);
    } else {
        assert((a + b).drop_last() =~= a + b.drop_last());
        assert((a + b).last() == b.last());
        lemma_run_concat(m, a, b.drop_last(), translations, summary);
    }
}

/// A blank row that is not read as a section's symbol list (no center
/// header comes right before it) changes nothing: the whole run ends where
/// it would have ended without that row, so the output table is the same.
pub proof fn lemma_blank_row_in_run(
    before: Seq<Seq<Seq<char>>>,
    blank: Seq<Seq<char>>,
    after: Seq<Seq<Seq<char>>>,
    translations: Option<Map<Seq<char>, Seq<char>>>,
    summary: Seq<Seq<char>>,
)
    requires
        is_empty_cells(blank),
        run_model(initial_model(), before, translations, summary) is Some ==> run_model(
            initial_model(),
            before,
            translations,
            summary,
        )->0.phase != Phase::AwaitingSymbolList,
    ensures
        run_model(initial_model(), before + seq![blank] + after, translations, summary)
            == run_model(initial_model(), before + after, translations, summary),
{
    let m0 = initial_model();
    lemma_run_concat(m0, before + seq![blank], after, translations, summary);
    lemma_run_concat(m0, before, after, translations, summary);
    lemma_run_concat(m0, before, seq![blank], translations, summary);
    if let Some(m) = run_model(m0, before, translations, summary) {
        assert(seq![blank].drop_last() =~= Seq::<Seq<Seq<char>>>::empty());
        assert(seq![blank].last() == blank);
        assert(run_model(m, Seq::<Seq<Seq<char>>>::empty(), translations, summary) == Some(m));
        assert(run_model(m, seq![blank], translations, summary) == next_model(
            m,
            blank,
            translations,
            summary,
        ));
        lemma_blank_row(m, blank, translations, summary);
    }
}

/// Cells before the label cell that hold no colon do not change the name.
proof fn lemma_colon_name_skips(lead: Seq<Seq<char>>, tail: Seq<Seq<char>>)
    requires
        forall|i: int| 0 <= i < lead.len() ==> !(#[trigger] lead[i]).contains(':'),
    ensures
        colon_name(lead + tail) == colon_name(tail),
    decreases lead.len(),
{
    if lead.len() > 0 {
        assert((lead + tail)[0] == lead[0]);
        assert((lead + tail).drop_first() =~= lead.drop_first() + tail);
        assert forall|i: int| 0 <= i < lead.drop_first().len() implies !(
        #[trigger] lead.drop_first()[i]).contains(':') by {
            assert(lead.drop_first()[i] == lead[i + 1]);
        }
        lemma_colon_name_skips(lead.drop_first(), tail);
    } else {
        assert(lead + tail =~= tail);
    }
}

/// The name read off a row whose label cell matches the constituency
/// pattern is the trimmed text before the first colon of that cell, however
/// many empty cells come before it.
pub proof fn lemma_label_name(lead: Seq<Seq<char>>, cell: Seq<char>, rest: Seq<Seq<char>>)
    requires
        forall|i: int| 0 <= i < lead.len() ==> (#[trigger] lead[i]).len() == 0,
        regex_finds(CONSTITUENCY_REG@, cell),
        cell.contains(':'),
    ensures
        colon_name(lead + seq![cell] + rest) == Some(trimmed(before_colon(cell))),
        extracted_name(lead + seq![cell] + rest, None) == Some(trimmed(before_colon(cell))),
{
    assert forall|i: int| 0 <= i < lead.len() implies !(#[trigger] lead[i]).contains(':') by {
        if lead[i].contains(':') {
            let j = choose|j: int| 0 <= j < lead[i].len() && lead[i][j] == ':';
        }
    }
    assert(lead + seq![cell] + rest =~= lead + (seq![cell] + rest));
    lemma_colon_name_skips(lead, seq![cell] + rest);
    assert((seq![cell] + rest)[0] == cell);
}

/// What recording gives: it keeps the list in front, adds each new symbol
/// of the row once, and adds nothing else.
proof fn lemma_recorded_contents(list: Seq<Seq<char>>, cells: Seq<Seq<char>>)
    ensures
        recorded(list, cells).len() >= list.len(),
        recorded(list, cells).take(list.len() as int) == list,
        forall|i: int|
            0 <= i < cells.len() && trimmed(#[trigger] cells[i]).len() > 0 ==> recorded(
                list,
                cells,
            ).contains(trimmed(cells[i])),
        forall|x: Seq<char>|
            #[trigger] recorded(list, cells).contains(x) ==> list.contains(x) || (x.len() > 0
                && exists|i: int| 0 <= i < cells.len() && trimmed(#[trigger] cells[i]) == x),
        list.no_duplicates() ==> recorded(list, cells).no_duplicates(),
    decreases cells.len(),
{
    if cells.len() > 0 {
        let prev = recorded(list, cells.drop_last());
        lemma_recorded_contents(list, cells.drop_last());
        let t = trimmed(cells.last());
        let r = recorded(list, cells);
        assert(r == record_cell(prev, cells.last()));
        if !(t.len() == 0 || prev.contains(t)) {
            assert(r == prev.push(t));
            assert(r.take(list.len() as int) =~= prev.take(list.len() as int));
            assert(r[prev.len() as int] == t);
        }
        assert forall|i: int|
            0 <= i < cells.len() && trimmed(#[trigger] cells[i]).len() > 0 implies r.contains(
            trimmed(cells[i]),
        ) by {
            if i < cells.len() - 1 {
                assert(cells.drop_last()[i] == cells[i]);
                let j = choose|j: int| 0 <= j < prev.len() && prev[j] == trimmed(cells[i]);
                assert(r[j] == prev[j]);
            } else if prev.contains(t) {
                let j = choose|j: int| 0 <= j < prev.len() && prev[j] == t;
                assert(r[j] == prev[j]);
            }
        }
        assert forall|x: Seq<char>| #[trigger] r.contains(x) implies list.contains(x) || (x.len()
            > 0 && exists|i: int| 0 <= i < cells.len() && trimmed(#[trigger] cells[i]) == x) by {
            let j = choose|j: int| 0 <= j < r.len() && r[j] == x;
            if j < prev.len() {
                assert(prev.contains(x));
                if !list.contains(x) {
                    let i = choose|i: int|
                        0 <= i < cells.drop_last().len() && trimmed(
                            #[trigger] cells.drop_last()[i],
                        ) == x;
                    assert(cells[i] == cells.drop_last()[i]);
                }
            } else {
                assert(trimmed(cells[cells.len() - 1]) == x);
            }
        }
    }
}

/// Recording a row whose symbols the list holds already changes nothing.
pub proof fn lemma_record_known_symbols(list: Seq<Seq<char>>, cells: Seq<Seq<char>>)
    requires
        forall|i: int|
            0 <= i < cells.len() && trimmed(#[trigger] cells[i]).len() > 0 ==> list.contains(
                trimmed(cells[i]),
            ),
    ensures
        recorded(list, cells) == list,
    decreases cells.len(),
{
    if cells.len() > 0 {
        assert forall|i: int|
            0 <= i < cells.drop_last().len() && trimmed(#[trigger] cells.drop_last()[i]).len()
                > 0 implies list.contains(trimmed(cells.drop_last()[i])) by {
            assert(cells.drop_last()[i] == cells[i]);
        }
        lemma_record_known_symbols(list, cells.drop_last());
        assert(trimmed(cells[cells.len() - 1]).len() > 0 ==> list.contains(
            trimmed(cells[cells.len() - 1]),
        ));
    }
}

/// The symbols of a row that the list does not hold yet.
pub open spec fn new_symbols(list: Seq<Seq<char>>, cells: Seq<Seq<char>>) -> Set<Seq<char>> {
    Set::new(
        |t: Seq<char>|
            t.len() > 0 && !list.contains(t) && exists|i: int|
                0 <= i < cells.len() && trimmed(#[trigger] cells[i]) == t,
    )
}

/// Recording a row grows a list without repeats by exactly the number of
/// its symbols that the list lacked: a symbol already tracked, or repeated
/// within the row, adds nothing.
pub proof fn lemma_record_count(list: Seq<Seq<char>>, cells: Seq<Seq<char>>)
    requires
        list.no_duplicates(),
    ensures
        recorded(list, cells).len() == list.len() + new_symbols(list, cells).len(),
        recorded(list, cells).no_duplicates(),
{
    lemma_recorded_contents(list, cells);
    let r = recorded(list, cells);
    let n = list.len() as int;
    let added = r.skip(n);
    assert(r =~= list + added) by {
        assert(r.take(n) == list);
    }
    assert(added.no_duplicates()) by {
        assert forall|i: int, j: int| 0 <= i < added.len() && 0 <= j < added.len() && i != j
            implies added[i] != added[j] by {
            assert(added[i] == r[n + i]);
            assert(added[j] == r[n + j]);
        }
    }
    assert forall|x: Seq<char>| added.to_set().contains(x) implies new_symbols(list, cells).contains(
        x,
    ) by {
        let j = choose|j: int| 0 <= j < added.len() && added[j] == x;
        assert(r[n + j] == x);
        assert(r.contains(x));
        if list.contains(x) {
            let k = choose|k: int| 0 <= k < list.len() && list[k] == x;
            assert(r[k] == x);
        }
    }
    assert forall|x: Seq<char>| new_symbols(list, cells).contains(x) implies added.to_set().contains(
        x,
    ) by {
        let i = choose|i: int| 0 <= i < cells.len() && trimmed(#[trigger] cells[i]) == x;
        assert(r.contains(trimmed(cells[i])));
        let j = choose|j: int| 0 <= j < r.len() && r[j] == x;
        if j < n {
            assert(list[j] == x);
        } else {
            assert(added[j - n] == x);
        }
    }
    assert(added.to_set() =~= new_symbols(list, cells));
    added.unique_seq_to_set();
}

/// Recording the same row twice gives what recording it once gave.
pub proof fn lemma_record_idempotent(list: Seq<Seq<char>>, cells: Seq<Seq<char>>)
    ensures
        recorded(recorded(list, cells), cells) == recorded(list, cells),
{
    lemma_recorded_contents(list, cells);
    lemma_record_known_symbols(recorded(list, cells), cells);
}

/// The symbols tracked after each of `rows` in turn, from none.
pub open spec fn seen_symbols(rows: Seq<Seq<Seq<char>>>) -> Seq<Seq<char>>
    decreases rows.len(),
{
    if rows.len() == 0 {
        Seq::empty()
    } else {
        recorded(seen_symbols(rows.drop_last()), rows.last())
    }
}

/// Every trimmed, non-empty cell of any of the rows.
pub open spec fn symbols_of_rows(rows: Seq<Seq<Seq<char>>>) -> Set<Seq<char>> {
    Set::new(
        |t: Seq<char>|
            t.len() > 0 && exists|r: int, i: int|
                0 <= r < rows.len() && 0 <= i < rows[r].len() && trimmed(#[trigger] rows[r][i])
                    == t,
    )
}

/// The seen_symbols symbols are the symbols of all the rows, each once.
pub proof fn lemma_tracked_symbols(rows: Seq<Seq<Seq<char>>>)
    ensures
        seen_symbols(rows).no_duplicates(),
        seen_symbols(rows).to_set() == symbols_of_rows(rows),
    decreases rows.len(),
{
    if rows.len() > 0 {
        let before = rows.drop_last();
        let last = rows.last();
        lemma_tracked_symbols(before);
        lemma_recorded_contents(seen_symbols(before), last);
        let t = seen_symbols(rows);
        assert forall|x: Seq<char>| t.to_set().contains(x) implies symbols_of_rows(rows).contains(
            x,
        ) by {
            assert(t.contains(x));
            if seen_symbols(before).contains(x) {
                assert(seen_symbols(before).to_set().contains(x));
                let (r, i) = choose|r: int, i: int|
                    0 <= r < before.len() && 0 <= i < before[r].len() && trimmed(
                        #[trigger] before[r][i],
                    ) == x;
                assert(rows[r][i] == before[r][i]);
            } else {
                let i = choose|i: int| 0 <= i < last.len() && trimmed(#[trigger] last[i]) == x;
                assert(rows[rows.len() - 1][i] == last[i]);
            }
        }
        assert forall|x: Seq<char>| symbols_of_rows(rows).contains(x) implies t.to_set().contains(
            x,
        ) by {
            let (r, i) = choose|r: int, i: int|
                0 <= r < rows.len() && 0 <= i < rows[r].len() && trimmed(#[trigger] rows[r][i])
                    == x;
            if r < rows.len() - 1 {
                assert(before[r][i] == rows[r][i]);
                assert(symbols_of_rows(before).contains(x));
                assert(seen_symbols(before).to_set().contains(x));
                let j = choose|j: int| 0 <= j < seen_symbols(before).len() && seen_symbols(before)[j] == x;
                assert(t.take(seen_symbols(before).len() as int)[j] == x);
                assert(t[j] == x);
            } else {
                assert(last[i] == rows[r][i]);
                assert(t.contains(trimmed(last[i])));
            }
        }
        assert(t.to_set() =~= symbols_of_rows(rows));
    } else {
        assert(seen_symbols(rows).to_set() =~= symbols_of_rows(rows));
    }
}

/// The final symbol list is the sorted list of the symbols of all the rows,
/// whatever their order: rows given in any other order, or with repeats,
/// give the same list.
pub proof fn lemma_final_symbol_list(rows: Seq<Seq<Seq<char>>>, other: Seq<Seq<Seq<char>>>)
    requires
        rows.to_set() == other.to_set(),
    ensures
        sorted_list(seen_symbols(rows).to_set()) == sorted_list(symbols_of_rows(rows)),
        sorted_list(seen_symbols(rows).to_set()) == sorted_list(seen_symbols(other).to_set()),
{
    lemma_tracked_symbols(rows);
    lemma_tracked_symbols(other);
    assert forall|x: Seq<char>| symbols_of_rows(rows).contains(x) implies symbols_of_rows(
        other,
    ).contains(x) by {
        let (r, i) = choose|r: int, i: int|
            0 <= r < rows.len() && 0 <= i < rows[r].len() && trimmed(#[trigger] rows[r][i]) == x;
        assert(rows.to_set().contains(rows[r]));
        assert(other.to_set().contains(rows[r]));
        let q = choose|q: int| 0 <= q < other.len() && other[q] == rows[r];
        assert(trimmed(other[q][i]) == x);
    }
    assert forall|x: Seq<char>| symbols_of_rows(other).contains(x) implies symbols_of_rows(
        rows,
    ).contains(x) by {
        let (r, i) = choose|r: int, i: int|
            0 <= r < other.len() && 0 <= i < other[r].len() && trimmed(#[trigger] other[r][i])
                == x;
        assert(other.to_set().contains(other[r]));
        assert(rows.to_set().contains(other[r]));
        let q = choose|q: int| 0 <= q < rows.len() && rows[q] == other[r];
        assert(trimmed(rows[q][i]) == x);
    }
    assert(symbols_of_rows(rows) =~= symbols_of_rows(other));
}

/// The rows that a run reads as section symbol lists, in order.
pub open spec fn symbol_list_rows(
    rows: Seq<Seq<Seq<char>>>,
    translations: Option<Map<Seq<char>, Seq<char>>>,
    summary: Seq<Seq<char>>,
) -> Seq<Seq<Seq<char>>>
    decreases rows.len(),
{
    if rows.len() == 0 {
        Seq::empty()
    } else {
        let prev = symbol_list_rows(rows.drop_last(), translations, summary);
        match run_model(initial_model(), rows.drop_last(), translations, summary) {
            Some(p) => if row_kind(rows.last(), p.phase == Phase::AwaitingSymbolList)
                == RowKind::SymbolList {
                prev.push(rows.last())
            } else {
                prev
            },
            None => prev,
        }
    }
}

proof fn lemma_run_symbols(
    rows: Seq<Seq<Seq<char>>>,
    translations: Option<Map<Seq<char>, Seq<char>>>,
    summary: Seq<Seq<char>>,
)
    requires
        run_model(initial_model(), rows, translations, summary) is Some,
    ensures
        run_model(initial_model(), rows, translations, summary)->0.symbols == seen_symbols(
            symbol_list_rows(rows, translations, summary),
        ),
    decreases rows.len(),
{
    if rows.len() > 0 {
        let prev = symbol_list_rows(rows.drop_last(), translations, summary);
        lemma_run_symbols(rows.drop_last(), translations, summary);
        let p = run_model(initial_model(), rows.drop_last(), translations, summary)->0;
        if row_kind(rows.last(), p.phase == Phase::AwaitingSymbolList) == RowKind::SymbolList {
            assert(prev.push(rows.last()).drop_last() =~= prev);
            assert(prev.push(rows.last()).last() == rows.last());
        }
    }
}

/// The header's symbols are the symbols of the rows that the run read as
/// symbol lists, each once and in ascending order; sections given in
/// another order, or repeated, give the same header.
pub proof fn lemma_header_symbols(
    rows: Seq<Seq<Seq<char>>>,
    translations: Option<Map<Seq<char>, Seq<char>>>,
    summary: Seq<Seq<char>>,
)
    requires
        run_model(initial_model(), rows, translations, summary) is Some,
    ensures
        run_model(initial_model(), rows, translations, summary)->0.symbols.no_duplicates(),
        run_model(initial_model(), rows, translations, summary)->0.symbols.to_set()
            == symbols_of_rows(symbol_list_rows(rows, translations, summary)),
        sorted_list(run_model(initial_model(), rows, translations, summary)->0.symbols.to_set())
            == sorted_list(symbols_of_rows(symbol_list_rows(rows, translations, summary))),
{
    lemma_run_symbols(rows, translations, summary);
    lemma_tracked_symbols(symbol_list_rows(rows, translations, summary));
}

/// Reading an output row back as a data row, with the output's own symbol
/// and summary columns as those of the section, gives every center's values
/// back exactly as they were written, where its symbol values are vote
/// counts (as the aggregator's always are).
pub proof fn lemma_output_round_trip(
    k: Key,
    v: Votes,
    symbols: Seq<Seq<char>>,
    summary: Seq<Seq<char>>,
)
    requires
        forall|j: int| 0 <= j < symbols.len() ==> is_vote_count(value_or_zero(v, #[trigger] symbols[j])),
    ensures
        forall|j: int|
            0 <= j < symbols.len() ==> #[trigger] vote_pairs(
                output_row(k, v, symbols, summary),
                symbols,
                2,
            )[j] == (symbols[j], value_or_zero(v, symbols[j])),
        forall|j: int|
            0 <= j < summary.len() ==> #[trigger] column_pairs(
                output_row(k, v, symbols, summary),
                summary,
                symbols.len() + 2int,
            )[j] == (summary[j], value_or_zero(v, summary[j])),
        forall|s: Seq<char>|
            #[trigger] v.contains_key(s) ==> value_or_zero(v, s) == v[s],
{
    let row = output_row(k, v, symbols, summary);
    assert forall|j: int| 0 <= j < symbols.len() implies #[trigger] vote_pairs(
        row,
        symbols,
        2,
    )[j] == (symbols[j], value_or_zero(v, symbols[j])) by {
        assert(row[2 + j] == value_or_zero(v, symbols[j]));
    }
    assert forall|j: int| 0 <= j < summary.len() implies #[trigger] column_pairs(
        row,
        summary,
        symbols.len() + 2int,
    )[j] == (summary[j], value_or_zero(v, summary[j])) by {
        assert(row[symbols.len() + 2 + j] == value_or_zero(v, summary[j]));
    }
}

} // verus!
