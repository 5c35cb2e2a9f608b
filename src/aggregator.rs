//! The state machine that walks the rows of a sheet and gathers one table
//! of votes per polling center.
use vstd::prelude::*;
use csv::StringRecord;
use crate::aggregate::{
    CenterDetails, column_pairs, get_result, get_other_columns, read_vote, vote_or_zero, vote_pairs,
};
use crate::classify::{RowKind, classify, row_kind};
use crate::errors::InvalidConstituencyName;
use crate::names::{first_cell, extracted_name, get_constituency_name, rows_view};
use crate::record::record_fields;
use crate::symbols::{
    check_for_new_symbols, recorded, sorted_list, sorted_symbols, strictly_sorted, symbol_names,
    symbol_positions,
};
use crate::text::{
    texts, trimmed, lex_lt, trim, str_eq, str_lt, lemma_lex_irreflexive, lemma_lex_transitive,
    lemma_lex_total,
};
use crate::text_map::{TextMap, map_of};

verus! {

/// The column that holds a center's number of voters.
pub const TOTAL_VOTERS: &'static str = "total_voters";

/// The summary columns of the sheet: total valid votes, total rejected
/// votes, votes cast and turnout.
pub fn default_summary_columns() -> (r: Vec<String>)
    ensures
        texts(r@) == seq!["মোট বৈধ"@, "মোট বাতিল"@, "প্রদত্ত ভোট"@, "শতকরা হার"@],
{
    let mut r: Vec<String> = Vec::new();
    let a = "মোট বৈধ".to_owned();
    let b = "মোট বাতিল".to_owned();
    let c = "প্রদত্ত ভোট".to_owned();
    let d = "শতকরা হার".to_owned();
    r.push(a);
    r.push(b);
    r.push(c);
    r.push(d);
    proof {
        assert(texts(r@) =~= seq![a@, b@, c@, d@]);
    }
    r
}

/// A center in its constituency: (constituency, center).
pub type Key = (Seq<char>, Seq<char>);

/// The values of one center's row, by column name.
pub type Votes = Map<Seq<char>, Seq<char>>;

/// Where the walk through the sheet stands.
#[derive(Debug, Clone, Copy, PartialEq, Eq, Structural)]
pub enum Phase {
    /// No constituency label seen yet.
    AwaitingSection,
    /// Within a constituency's rows.
    InSection,
    /// The row before was a center header; this one names the symbols.
    AwaitingSymbolList,
}

/// What the walk has gathered so far.
pub struct Model {
    pub phase: Phase,
    pub constituency: Seq<char>,
    pub positions: Seq<Seq<char>>,
    pub symbols: Seq<Seq<char>>,
    pub table: Map<Key, Votes>,
}

/// Order of keys: by constituency, then by center.
pub open spec fn key_lt(a: Key, b: Key) -> bool {
    lex_lt(a.0, b.0) || (a.0 == b.0 && lex_lt(a.1, b.1))
}

/// The name of a data row's center.
pub open spec fn center_name(cells: Seq<Seq<char>>) -> Seq<char> {
    trimmed(first_cell(cells))
}

/// What a data row gives for its center: the votes of each symbol of the
/// section, then each summary column as it stands, then the number of
/// voters; a vote or voter cell that holds no count gives "0".
pub open spec fn center_votes(
    cells: Seq<Seq<char>>,
    positions: Seq<Seq<char>>,
    summary: Seq<Seq<char>>,
) -> Votes {
    map_of(
        vote_pairs(cells, positions, 2) + column_pairs(cells, summary, positions.len() + 2int)
            + seq![(TOTAL_VOTERS@, vote_or_zero(cells, 1))],
    )
}

/// The state after one row, or nothing where the row is a constituency
/// label whose name cannot be read.
pub open spec fn next_model(
    m: Model,
    cells: Seq<Seq<char>>,
    translations: Option<Map<Seq<char>, Seq<char>>>,
    summary: Seq<Seq<char>>,
) -> Option<Model> {
    match row_kind(cells, m.phase == Phase::AwaitingSymbolList) {
        RowKind::ConstituencyLabel => match extracted_name(cells, translations) {
            None => None,
            Some(n) => Some(Model { phase: Phase::InSection, constituency: n, ..m }),
        },
        RowKind::CenterInfoHeader => Some(Model { phase: Phase::AwaitingSymbolList, ..m }),
        RowKind::SymbolList => Some(
            Model {
                phase: Phase::InSection,
                positions: symbol_names(cells),
                symbols: recorded(m.symbols, cells),
                ..m
            },
        ),
        RowKind::Empty => Some(m),
        RowKind::DataRow => {
            let center = center_name(cells);
            if m.phase == Phase::InSection && m.constituency.len() > 0 && center.len() > 0 {
                Some(
                    Model {
                        table: m.table.insert(
                            (m.constituency, center),
                            center_votes(cells, m.positions, summary),
                        ),
                        ..m
                    },
                )
            } else {
                Some(m)
            }
        },
    }
}

/// The state before any row.
pub open spec fn initial_model() -> Model {
    Model {
        phase: Phase::AwaitingSection,
        constituency: Seq::empty(),
        positions: Seq::empty(),
        symbols: Seq::empty(),
        table: Map::empty(),
    }
}

/// The state after each of `rows` in turn, or nothing if one of them fails.
pub open spec fn run_model(
    m: Model,
    rows: Seq<Seq<Seq<char>>>,
    translations: Option<Map<Seq<char>, Seq<char>>>,
    summary: Seq<Seq<char>>,
) -> Option<Model>
    decreases rows.len(),
{
    if rows.len() == 0 {
        Some(m)
    } else {
        match run_model(m, rows.drop_last(), translations, summary) {
            None => None,
            Some(p) => next_model(p, rows.last(), translations, summary),
        }
    }
}

/// A center's value in a column, or "0" where it has none.
pub open spec fn value_or_zero(v: Votes, column: Seq<char>) -> Seq<char> {
    if v.contains_key(column) {
        v[column]
    } else {
        "0"@
    }
}

/// The header of the output table.
pub open spec fn header_row(symbols: Seq<Seq<char>>, summary: Seq<Seq<char>>) -> Seq<Seq<char>> {
    seq!["Constituency"@, "Center"@] + symbols + summary + seq![TOTAL_VOTERS@]
}

/// The output row of one center.
pub open spec fn output_row(
    k: Key,
    v: Votes,
    symbols: Seq<Seq<char>>,
    summary: Seq<Seq<char>>,
) -> Seq<Seq<char>> {
    seq![k.0, k.1] + symbols.map_values(|s: Seq<char>| value_or_zero(v, s)) + summary.map_values(
        |s: Seq<char>| value_or_zero(v, s),
    ) + seq![value_or_zero(v, TOTAL_VOTERS@)]
}

/// The key that an output data row begins with.
pub open spec fn row_key(row: Seq<Seq<char>>) -> Key {
    (row[0], row[1])
}

/// `out` is the output table of `table`: the header, then one row per
/// center in ascending order of keys, with the symbols in ascending order.
pub open spec fn is_output(
    out: Seq<Seq<Seq<char>>>,
    table: Map<Key, Votes>,
    symbol_list: Seq<Seq<char>>,
    summary: Seq<Seq<char>>,
) -> bool {
    let symbols = sorted_list(symbol_list.to_set());
    &&& strictly_sorted(symbols)
    &&& symbols.to_set() == symbol_list.to_set()
    &&& out.len() >= 1
    &&& out[0] == header_row(symbols, summary)
    &&& forall|i: int| 1 <= i < out.len() ==> #[trigger] out[i].len() >= 2
    &&& forall|i: int, j: int|
        1 <= i < j < out.len() ==> key_lt(row_key(#[trigger] out[i]), row_key(#[trigger] out[j]))
    &&& forall|i: int|
        1 <= i < out.len() ==> table.contains_key(row_key(#[trigger] out[i])) && out[i]
            == output_row(row_key(out[i]), table[row_key(out[i])], symbols, summary)
    &&& forall|k: Key|
        #[trigger] table.contains_key(k) ==> exists|i: int|
            1 <= i < out.len() && row_key(#[trigger] out[i]) == k
}

/// The strings of each row.
pub open spec fn rows_texts(rows: Seq<Vec<String>>) -> Seq<Seq<Seq<char>>> {
    rows.map_values(|r: Vec<String>| texts(r@))
}

proof fn lemma_key_lt_irreflexive(a: Key)
    ensures
        !key_lt(a, a),
{
    lemma_lex_irreflexive(a.0);
    lemma_lex_irreflexive(a.1);
}

proof fn lemma_key_lt_transitive(a: Key, b: Key, c: Key)
    requires
        key_lt(a, b),
        key_lt(b, c),
    ensures
        key_lt(a, c),
{
    if lex_lt(a.0, b.0) && lex_lt(b.0, c.0) {
        lemma_lex_transitive(a.0, b.0, c.0);
    } else if a.0 == b.0 && b.0 == c.0 {
        lemma_lex_transitive(a.1, b.1, c.1);
    }
}

proof fn lemma_key_lt_total(a: Key, b: Key)
    requires
        a != b,
    ensures
        key_lt(a, b) || key_lt(b, a),
{
    if a.0 != b.0 {
        lemma_lex_total(a.0, b.0);
    } else {
        lemma_lex_total(a.1, b.1);
    }
}

fn key_less(a: &CenterDetails, b: &CenterDetails) -> (r: bool)
    ensures
        r == key_lt((a.constituency@, a.center@), (b.constituency@, b.center@)),
{
    str_lt(a.constituency.as_str(), b.constituency.as_str()) || (str_eq(
        a.constituency.as_str(),
        b.constituency.as_str(),
    ) && str_lt(a.center.as_str(), b.center.as_str()))
}

fn same_key(a: &CenterDetails, b: &CenterDetails) -> (r: bool)
    ensures
        r == ((a.constituency@, a.center@) == (b.constituency@, b.center@)),
{
    str_eq(a.constituency.as_str(), b.constituency.as_str()) && str_eq(
        a.center.as_str(),
        b.center.as_str(),
    )
}

proof fn lemma_texts_push(v: Seq<String>, s: String)
    ensures
        texts(v.push(s)) == texts(v).push(s@),
{
    assert(texts(v.push(s)) =~= texts(v).push(s@));
}

/// A center's value in a column, or "0".
fn value_of(votes: &TextMap, column: &str) -> (r: String)
    ensures
        r@ == value_or_zero(votes@, column@),
{
    match votes.get(column) {
        Some(v) => v.clone(),
        None => "0".to_owned(),
    }
}

/// Appends a center's value in each of `columns`.
fn push_values(row: &mut Vec<String>, votes: &TextMap, columns: &Vec<String>)
    ensures
        texts(final(row)@) == texts(old(row)@) + texts(columns@).map_values(
            |s: Seq<char>| value_or_zero(votes@, s),
        ),
{
    let mut i: usize = 0;
    while i < columns.len()
        invariant
            i <= columns@.len(),
            texts(row@) =~= texts(old(row)@) + texts(columns@).map_values(
                |s: Seq<char>| value_or_zero(votes@, s),
            ).take(i as int),
        decreases columns@.len() - i,
    {
        let v = value_of(votes, columns[i].as_str());
        let ghost prev = row@;
        row.push(v);
        proof {
            lemma_texts_push(prev, v);
        }
        i += 1;
    }
    proof {
        let all = texts(columns@).map_values(|s: Seq<char>| value_or_zero(votes@, s));
        assert(all.take(i as int) =~= all);
    }
}

/// Appends a copy of each string.
fn push_all(row: &mut Vec<String>, items: &Vec<String>)
    ensures
        texts(final(row)@) == texts(old(row)@) + texts(items@),
{
    let mut i: usize = 0;
    while i < items.len()
        invariant
            i <= items@.len(),
            texts(row@) =~= texts(old(row)@) + texts(items@).take(i as int),
        decreases items@.len() - i,
    {
        let ghost prev = row@;
        let item = items[i].clone();
        row.push(item);
        proof {
            lemma_texts_push(prev, item);
        }
        i += 1;
    }
    proof {
        assert(texts(items@).take(i as int) =~= texts(items@));
    }
}

fn header_of(symbols: &Vec<String>, summary: &Vec<String>) -> (r: Vec<String>)
    ensures
        texts(r@) == header_row(texts(symbols@), texts(summary@)),
{
    let mut r: Vec<String> = Vec::new();
    let a = "Constituency".to_owned();
    let b = "Center".to_owned();
    r.push(a);
    r.push(b);
    proof {
        assert(texts(r@) =~= seq![a@, b@]);
    }
    push_all(&mut r, symbols);
    push_all(&mut r, summary);
    let ghost prev = r@;
    let t = TOTAL_VOTERS.to_owned();
    r.push(t);
    proof {
        lemma_texts_push(prev, t);
        assert(texts(r@) =~= header_row(texts(symbols@), texts(summary@)));
    }
    r
}

fn center_row(key: &CenterDetails, votes: &TextMap, symbols: &Vec<String>, summary: &Vec<String>) -> (r:
    Vec<String>)
    ensures
        texts(r@) == output_row(
            (key.constituency@, key.center@),
            votes@,
            texts(symbols@),
            texts(summary@),
        ),
{
    let mut r: Vec<String> = Vec::new();
    let a = key.constituency.clone();
    let b = key.center.clone();
    r.push(a);
    r.push(b);
    proof {
        assert(texts(r@) =~= seq![a@, b@]);
    }
    push_values(&mut r, votes, symbols);
    push_values(&mut r, votes, summary);
    let ghost prev = r@;
    let t = value_of(votes, TOTAL_VOTERS);
    r.push(t);
    proof {
        lemma_texts_push(prev, t);
        assert(texts(r@) =~= output_row(
            (key.constituency@, key.center@),
            votes@,
            texts(symbols@),
            texts(summary@),
        ));
    }
    r
}

/// Walks all the rows of a sheet and returns its output table: a header,
/// then one row per center in ascending order of (constituency, center).
/// Stops at the first constituency label whose name cannot be read.
pub fn aggregate_rows(
    rows: &Vec<StringRecord>,
    translations: Option<TextMap>,
    summary_columns: Vec<String>,
) -> (r: Result<Vec<Vec<String>>, InvalidConstituencyName>)
    ensures
        r is Ok <==> run_model(
            initial_model(),
            rows_view(rows@),
            option_view(translations),
            texts(summary_columns@),
        ) is Some,
        r matches Ok(out) ==> is_output(
            rows_texts(out@),
            run_model(
                initial_model(),
                rows_view(rows@),
                option_view(translations),
                texts(summary_columns@),
            )->0.table,
            run_model(
                initial_model(),
                rows_view(rows@),
                option_view(translations),
                texts(summary_columns@),
            )->0.symbols,
            texts(summary_columns@),
        ),
{
    let ghost tr = option_view(translations);
    let ghost sm = texts(summary_columns@);
    let ghost cells = rows_view(rows@);
    let mut agg = Aggregator::new(translations, summary_columns);
    let mut i: usize = 0;
    while i < rows.len()
        invariant
            i <= rows@.len(),
            cells == rows_view(rows@),
            tr == option_view(translations),
            sm == texts(summary_columns@),
            agg.wf(),
            agg.translations() == tr,
            agg.summary() == sm,
            run_model(initial_model(), cells.take(i as int), tr, sm) == Some(agg.model()),
        decreases rows@.len() - i,
    {
        proof {
            assert(cells.take(i + 1).drop_last() =~= cells.take(i as int));
            assert(cells.take(i + 1).last() == record_fields(rows@[i as int]));
        }
        let ghost before = agg.model();
        match agg.process_row(&rows[i]) {
            Ok(()) => {},
            Err(e) => {
                proof {
                    assert(run_model(initial_model(), cells.take(i + 1), tr, sm) is None);
                    lemma_run_stays_failed(cells, i + 1, tr, sm);
                }
                return Err(e);
            },
        }
        i += 1;
    }
    proof {
        assert(cells.take(i as int) =~= cells);
    }
    Ok(agg.table_rows())
}

/// Once a row has failed, the run fails whatever follows.
proof fn lemma_run_stays_failed(
    rows: Seq<Seq<Seq<char>>>,
    i: int,
    tr: Option<Map<Seq<char>, Seq<char>>>,
    sm: Seq<Seq<char>>,
)
    requires
        0 <= i <= rows.len(),
        run_model(initial_model(), rows.take(i), tr, sm) is None,
    ensures
        run_model(initial_model(), rows, tr, sm) is None,
    decreases rows.len() - i,
{
    if i < rows.len() {
        assert(rows.take(i + 1).drop_last() =~= rows.take(i));
        lemma_run_stays_failed(rows, i + 1, tr, sm);
    } else {
        assert(rows.take(i) =~= rows);
    }
}

/// The view of a translation table, where there is one.
pub open spec fn option_view(t: Option<TextMap>) -> Option<Map<Seq<char>, Seq<char>>> {
    match t {
        None => None,
        Some(m) => Some(m@),
    }
}

/// Walks the rows of a sheet, one at a time.
pub struct Aggregator {
    translations: Option<TextMap>,
    summary_columns: Vec<String>,
    phase: Phase,
    constituency: String,
    positions: Vec<String>,
    symbols: Vec<String>,
    table: Vec<(CenterDetails, TextMap)>,
    table_map: Ghost<Map<Key, Votes>>,
}

/// The keys and votes of the table's entries.
pub open spec fn entries_view(t: Seq<(CenterDetails, TextMap)>) -> Seq<(Key, Votes)> {
    t.map_values(|e: (CenterDetails, TextMap)| ((e.0.constituency@, e.0.center@), e.1@))
}

impl Aggregator {
    pub closed spec fn model(&self) -> Model {
        Model {
            phase: self.phase,
            constituency: self.constituency@,
            positions: texts(self.positions@),
            symbols: texts(self.symbols@),
            table: self.table_map@,
        }
    }

    /// The translation table the names go through, if any.
    pub closed spec fn translations(&self) -> Option<Map<Seq<char>, Seq<char>>> {
        match self.translations {
            None => None,
            Some(t) => Some(t@),
        }
    }

    /// The summary columns that each data row ends with.
    pub closed spec fn summary(&self) -> Seq<Seq<char>> {
        texts(self.summary_columns@)
    }

    closed spec fn entries(&self) -> Seq<(Key, Votes)> {
        entries_view(self.table@)
    }

    /// The entries hold the table in ascending order of keys.
    pub closed spec fn wf(&self) -> bool {
        let e = self.entries();
        &&& forall|i: int, j: int| 0 <= i < j < e.len() ==> key_lt(#[trigger] e[i].0, #[trigger] e[j].0)
        &&& forall|i: int|
            0 <= i < e.len() ==> self.table_map@.contains_key(#[trigger] e[i].0)
                && self.table_map@[e[i].0] == e[i].1
        &&& forall|k: Key|
            #[trigger] self.table_map@.contains_key(k) ==> exists|i: int|
                0 <= i < e.len() && (#[trigger] e[i]).0 == k
    }

    proof fn lemma_wf_same_table(a: Aggregator, b: Aggregator)
        requires
            a.wf(),
            a.table@ == b.table@,
            a.table_map@ == b.table_map@,
        ensures
            b.wf(),
    {
        assert(a.entries() == b.entries());
    }

    /// An aggregator before any row, which translates constituency names
    /// through `translations` where given and reads `summary_columns` after
    /// the symbols of each data row.
    pub fn new(translations: Option<TextMap>, summary_columns: Vec<String>) -> (r: Aggregator)
        ensures
            r.wf(),
            r.model() == initial_model(),
            r.translations() == option_view(translations),
            r.summary() == texts(summary_columns@),
    {
        let r = Aggregator {
            translations,
            summary_columns,
            phase: Phase::AwaitingSection,
            constituency: String::new(),
            positions: Vec::new(),
            symbols: Vec::new(),
            table: Vec::new(),
            table_map: Ghost(Map::empty()),
        };
        proof {
            assert(r.model().positions =~= Seq::<Seq<char>>::empty());
            assert(r.model().symbols =~= Seq::<Seq<char>>::empty());
        }
        r
    }

    /// The symbols seen so far, in order of first appearance.
    pub fn symbol_list(&self) -> (r: &Vec<String>)
        ensures
            texts(r@) == self.model().symbols,
    {
        &self.symbols
    }

    /// Files a data row under its center, where the walk is within a
    /// section and both the constituency and the center have a name.
    fn take_data_row(&mut self, row: &StringRecord)
        requires
            old(self).wf(),
        ensures
            final(self).wf(),
            final(self).translations() == old(self).translations(),
            final(self).summary() == old(self).summary(),
            final(self).model() == (if old(self).model().phase == Phase::InSection
                && old(self).model().constituency.len() > 0 && center_name(record_fields(*row)).len()
                > 0 {
                Model {
                    table: old(self).model().table.insert(
                        (old(self).model().constituency, center_name(record_fields(*row))),
                        center_votes(
                            record_fields(*row),
                            old(self).model().positions,
                            old(self).summary(),
                        ),
                    ),
                    ..old(self).model()
                }
            } else {
                old(self).model()
            }),
    {
        let ghost cells = record_fields(*row);
        let center = match row.get(0) {
            Some(c) => trim(c),
            None => {
                proof {
                    assert(center_name(cells) =~= Seq::<char>::empty());
                }
                return ;
            },
        };
        let in_section = match self.phase {
            Phase::InSection => true,
            _ => false,
        };
        if !in_section || self.constituency.as_str().is_empty() || center.is_empty() {
            return ;
        }
        let mut votes = TextMap::new();
        get_result(row, &self.positions, &mut votes);
        let n = row.len();
        let offset: usize = if self.positions.len() < usize::MAX - 1 {
            self.positions.len() + 2
        } else {
            usize::MAX
        };
        get_other_columns(row, &self.summary_columns, offset, &mut votes);
        let ghost positions = texts(self.positions@);
        let ghost summary = texts(self.summary_columns@);
        proof {
            assert(column_pairs(cells, summary, offset as int) =~= column_pairs(
                cells,
                summary,
                positions.len() + 2int,
            ));
        }
        let total = read_vote(row, 1);
        votes.insert(TOTAL_VOTERS.to_owned(), total);
        proof {
            assert(votes.pairs() =~= vote_pairs(cells, positions, 2) + column_pairs(
                cells,
                summary,
                positions.len() + 2int,
            ) + seq![(TOTAL_VOTERS@, vote_or_zero(cells, 1))]);
        }
        let key = CenterDetails::new(self.constituency.as_str(), center);
        self.put_center(key, votes);
    }

    /// Takes in the next row of the sheet. A constituency label whose name
    /// cannot be read is an error, and leaves the aggregator as it was.
    pub fn process_row(&mut self, row: &StringRecord) -> (r: Result<(), InvalidConstituencyName>)
        requires
            old(self).wf(),
        ensures
            final(self).wf(),
            final(self).translations() == old(self).translations(),
            final(self).summary() == old(self).summary(),
            r is Ok <==> next_model(
                old(self).model(),
                record_fields(*row),
                old(self).translations(),
                old(self).summary(),
            ) is Some,
            r is Ok ==> next_model(
                old(self).model(),
                record_fields(*row),
                old(self).translations(),
                old(self).summary(),
            ) == Some(final(self).model()),
            r is Err ==> final(self).model() == old(self).model(),
    {
        let awaiting = match self.phase {
            Phase::AwaitingSymbolList => true,
            _ => false,
        };
        match classify(row, awaiting) {
            RowKind::ConstituencyLabel => {
                let tr = match &self.translations {
                    Some(t) => Some(t),
                    None => None,
                };
                match get_constituency_name(row, tr) {
                    Ok(name) => {
                        self.constituency = name;
                        self.phase = Phase::InSection;
                        proof {
                            Aggregator::lemma_wf_same_table(*old(self), *self);
                        }
                        Ok(())
                    },
                    Err(e) => Err(e),
                }
            },
            RowKind::CenterInfoHeader => {
                self.phase = Phase::AwaitingSymbolList;
                proof {
                    Aggregator::lemma_wf_same_table(*old(self), *self);
                }
                Ok(())
            },
            RowKind::SymbolList => {
                check_for_new_symbols(row, &mut self.symbols);
                self.positions = symbol_positions(row);
                self.phase = Phase::InSection;
                proof {
                    Aggregator::lemma_wf_same_table(*old(self), *self);
                }
                Ok(())
            },
            RowKind::Empty => Ok(()),
            RowKind::DataRow => {
                self.take_data_row(row);
                Ok(())
            },
        }
    }

    /// The output table: a header, then one row per center in ascending
    /// order of (constituency, center), with the symbols in ascending order
    /// and "0" where a center has no value.
    pub fn table_rows(&self) -> (rows: Vec<Vec<String>>)
        requires
            self.wf(),
        ensures
            is_output(rows_texts(rows@), self.model().table, self.model().symbols, self.summary()),
    {
        let symbols = sorted_symbols(&self.symbols);
        let ghost syms = texts(symbols@);
        let ghost sm = self.summary();
        let ghost e = self.entries();
        let mut rows: Vec<Vec<String>> = Vec::new();
        rows.push(header_of(&symbols, &self.summary_columns));
        let mut i: usize = 0;
        while i < self.table.len()
            invariant
                self.wf(),
                e == self.entries(),
                syms == texts(symbols@),
                sm == self.summary(),
                i <= e.len(),
                rows@.len() == i + 1,
                rows_texts(rows@)[0] == header_row(syms, sm),
                forall|j: int|
                    1 <= j <= i ==> #[trigger] rows_texts(rows@)[j] == output_row(
                        e[j - 1].0,
                        e[j - 1].1,
                        syms,
                        sm,
                    ),
            decreases e.len() - i,
        {
            let row = center_row(&self.table[i].0, &self.table[i].1, &symbols, &self.summary_columns);
            let ghost prev = rows@;
            rows.push(row);
            proof {
                assert(rows@ == prev.push(row));
                assert(rows_texts(rows@) =~= rows_texts(prev).push(texts(row@)));
                assert forall|j: int| 1 <= j <= i + 1 implies #[trigger] rows_texts(rows@)[j]
                    == output_row(e[j - 1].0, e[j - 1].1, syms, sm) by {
                    if j <= i {
                        assert(rows_texts(rows@)[j] == rows_texts(prev)[j]);
                    }
                }
            }
            i += 1;
        }
        proof {
            let out = rows_texts(rows@);
            assert forall|j: int| 1 <= j < out.len() implies #[trigger] row_key(out[j]) == e[j - 1].0
                && out[j].len() >= 2 by {
                assert(out[j] == output_row(e[j - 1].0, e[j - 1].1, syms, sm));
            }
            assert forall|a: int, b: int| 1 <= a < b < out.len() implies key_lt(
                row_key(#[trigger] out[a]),
                row_key(#[trigger] out[b]),
            ) by {
                assert(row_key(out[a]) == e[a - 1].0);
                assert(row_key(out[b]) == e[b - 1].0);
            }
            assert forall|j: int| 1 <= j < out.len() implies self.model().table.contains_key(
                row_key(#[trigger] out[j]),
            ) && out[j] == output_row(
                row_key(out[j]),
                self.model().table[row_key(out[j])],
                syms,
                sm,
            ) by {
                assert(row_key(out[j]) == e[j - 1].0);
            }
            assert forall|k: Key| #[trigger] self.model().table.contains_key(k) implies exists|j: int|
                1 <= j < out.len() && row_key(#[trigger] out[j]) == k by {
                let m = choose|m: int| 0 <= m < e.len() && (#[trigger] e[m]).0 == k;
                assert(row_key(out[m + 1]) == e[m].0);
            }
        }
        rows
    }

    /// Sets the votes of a center, replacing what it had.
    fn put_center(&mut self, key: CenterDetails, votes: TextMap)
        requires
            old(self).wf(),
        ensures
            final(self).wf(),
            final(self).model() == (Model {
                table: old(self).model().table.insert((key.constituency@, key.center@), votes@),
                ..old(self).model()
            }),
            final(self).translations() == old(self).translations(),
            final(self).summary() == old(self).summary(),
    {
        let ghost k: Key = (key.constituency@, key.center@);
        let ghost old_e = self.entries();
        let mut p: usize = 0;
        while p < self.table.len() && key_less(&self.table[p].0, &key)
            invariant
                self.table@ == old(self).table@,
                old_e == entries_view(self.table@),
                k == (key.constituency@, key.center@),
                p <= self.table@.len(),
                forall|j: int| 0 <= j < p ==> key_lt(#[trigger] old_e[j].0, k),
            decreases self.table@.len() - p,
        {
            proof {
                assert(old_e[p as int].0 == (self.table@[p as int].0.constituency@, self.table@[
                    p as int].0.center@));
            }
            p += 1;
        }
        let ghost new_map = self.table_map@.insert(k, votes@);
        if p < self.table.len() && same_key(&self.table[p].0, &key) {
            self.table.set(p, (key, votes));
            self.table_map = Ghost(new_map);
            proof {
                let e = self.entries();
                assert(e =~= old_e.update(p as int, (k, votes@)));
                assert(old_e[p as int].0 == k);
                assert forall|i: int, j: int| 0 <= i < j < e.len() implies key_lt(
                    #[trigger] e[i].0,
                    #[trigger] e[j].0,
                ) by {
                    assert(e[i].0 == old_e[i].0);
                    assert(e[j].0 == old_e[j].0);
                }
                assert forall|i: int| 0 <= i < e.len() implies new_map.contains_key(
                    #[trigger] e[i].0,
                ) && new_map[e[i].0] == e[i].1 by {
                    if i != p {
                        assert(old_e[i].0 != k) by {
                            if i < p {
                                lemma_key_lt_irreflexive(k);
                            } else {
                                assert(key_lt(old_e[p as int].0, old_e[i].0));
                                lemma_key_lt_irreflexive(k);
                            }
                        }
                    }
                }
                assert forall|kk: Key| #[trigger] new_map.contains_key(kk) implies exists|i: int|
                    0 <= i < e.len() && (#[trigger] e[i]).0 == kk by {
                    if kk == k {
                        assert(e[p as int].0 == kk);
                    } else {
                        let i = choose|i: int| 0 <= i < old_e.len() && (#[trigger] old_e[i]).0 == kk;
                        assert(e[i].0 == kk);
                    }
                }
            }
        } else {
            proof {
                if p < old_e.len() {
                    assert(!key_lt(old_e[p as int].0, k));
                    lemma_key_lt_total(old_e[p as int].0, k);
                }
                assert(!self.table_map@.contains_key(k)) by {
                    if self.table_map@.contains_key(k) {
                        let i = choose|i: int| 0 <= i < old_e.len() && (#[trigger] old_e[i]).0 == k;
                        if i < p {
                            lemma_key_lt_irreflexive(k);
                        } else if i == p {
                        } else {
                            assert(key_lt(old_e[p as int].0, old_e[i].0));
                            lemma_key_lt_transitive(k, old_e[p as int].0, k);
                            lemma_key_lt_irreflexive(k);
                        }
                    }
                }
            }
            self.table.insert(p, (key, votes));
            self.table_map = Ghost(new_map);
            proof {
                let e = self.entries();
                assert(e =~= old_e.insert(p as int, (k, votes@)));
                assert forall|i: int, j: int| 0 <= i < j < e.len() implies key_lt(
                    #[trigger] e[i].0,
                    #[trigger] e[j].0,
                ) by {
                    if j == p {
                    } else if i == p {
                        if j > p + 1 {
                            lemma_key_lt_transitive(k, old_e[p as int].0, old_e[j - 1].0);
                        }
                    } else if i < p && j > p {
                        if j - 1 > p {
                            lemma_key_lt_transitive(k, old_e[p as int].0, old_e[j - 1].0);
                        }
                        lemma_key_lt_transitive(old_e[i].0, k, old_e[j - 1].0);
                    } else if i > p {
                        assert(key_lt(old_e[i - 1].0, old_e[j - 1].0));
                    } else {
                        assert(key_lt(old_e[i].0, old_e[j].0));
                    }
                }
                assert forall|i: int| 0 <= i < e.len() implies new_map.contains_key(
                    #[trigger] e[i].0,
                ) && new_map[e[i].0] == e[i].1 by {
                    if i < p {
                        assert(e[i] == old_e[i]);
                    } else if i > p {
                        assert(e[i] == old_e[i - 1]);
                    }
                }
                assert forall|kk: Key| #[trigger] new_map.contains_key(kk) implies exists|i: int|
                    0 <= i < e.len() && (#[trigger] e[i]).0 == kk by {
                    if kk == k {
                        assert(e[p as int].0 == kk);
                    } else {
                        let i = choose|i: int| 0 <= i < old_e.len() && (#[trigger] old_e[i]).0 == kk;
                        if i < p {
                            assert(e[i].0 == kk);
                        } else {
                            assert(e[i + 1].0 == kk);
                        }
                    }
                }
            }
        }
    }
}

} // verus!
