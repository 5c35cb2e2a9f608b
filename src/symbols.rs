//! Ballot symbols: the ones a section's symbol row names, and all those
//! seen over the whole sheet.
use vstd::prelude::*;
use csv::StringRecord;
use crate::record::record_fields;
use crate::text::{
    texts, trimmed, lex_lt, trim, str_eq, str_lt, lemma_lex_irreflexive, lemma_lex_transitive,
    lemma_lex_total, lemma_lex_asymmetric,
};

verus! {

/// `list` after meeting the cell `c`: its trimmed text is added unless it
/// is empty or already there.
pub open spec fn record_cell(list: Seq<Seq<char>>, c: Seq<char>) -> Seq<Seq<char>> {
    let t = trimmed(c);
    if t.len() == 0 || list.contains(t) {
        list
    } else {
        list.push(t)
    }
}

/// `list` after meeting each of `cells` in turn.
pub open spec fn recorded(list: Seq<Seq<char>>, cells: Seq<Seq<char>>) -> Seq<Seq<char>>
    decreases cells.len(),
{
    if cells.len() == 0 {
        list
    } else {
        record_cell(recorded(list, cells.drop_last()), cells.last())
    }
}

/// The symbols that a row names: its cells, trimmed, that are not empty.
pub open spec fn cell_symbols(cells: Seq<Seq<char>>) -> Set<Seq<char>> {
    Set::new(
        |t: Seq<char>|
            t.len() > 0 && exists|i: int| 0 <= i < cells.len() && trimmed(#[trigger] cells[i]) == t,
    )
}

/// The non-empty trimmed cells of a row, in order.
pub open spec fn symbol_names(cells: Seq<Seq<char>>) -> Seq<Seq<char>>
    decreases cells.len(),
{
    if cells.len() == 0 {
        Seq::empty()
    } else {
        let names = symbol_names(cells.drop_last());
        let t = trimmed(cells.last());
        if t.len() > 0 {
            names.push(t)
        } else {
            names
        }
    }
}

/// Each string comes before the ones after it.
pub open spec fn strictly_sorted(s: Seq<Seq<char>>) -> bool {
    forall|i: int, j: int| 0 <= i < j < s.len() ==> lex_lt(#[trigger] s[i], #[trigger] s[j])
}

/// The strings of `s` in ascending order, each once.
pub open spec fn sorted_list(s: Set<Seq<char>>) -> Seq<Seq<char>> {
    choose|l: Seq<Seq<char>>| strictly_sorted(l) && l.to_set() == s
}

fn contains_text(list: &Vec<String>, s: &str) -> (r: bool)
    ensures
        r == texts(list@).contains(s@),
{
    let mut i: usize = 0;
    while i < list.len()
        invariant
            i <= list@.len(),
            forall|j: int| 0 <= j < i ==> (#[trigger] list@[j])@ != s@,
        decreases list@.len() - i,
    {
        if str_eq(list[i].as_str(), s) {
            proof {
                assert(texts(list@)[i as int] == s@);
            }
            return true;
        }
        i += 1;
    }
    proof {
        if texts(list@).contains(s@) {
            let j = choose|j: int| 0 <= j < texts(list@).len() && texts(list@)[j] == s@;
            assert(list@[j]@ == s@);
        }
    }
    false
}

/// Adds to `symbols` each trimmed, non-empty cell of the record that it
/// does not hold yet, in the order of the cells.
pub fn check_for_new_symbols(record: &StringRecord, symbols: &mut Vec<String>)
    ensures
        texts(final(symbols)@) == recorded(texts(old(symbols)@), record_fields(*record)),
{
    let ghost cells = record_fields(*record);
    let n = record.len();
    let mut i: usize = 0;
    while i < n
        invariant
            cells == record_fields(*record),
            n == cells.len(),
            i <= n,
            texts(symbols@) == recorded(texts(old(symbols)@), cells.take(i as int)),
        decreases n - i,
    {
        proof {
            assert(cells.take(i + 1).drop_last() =~= cells.take(i as int));
            assert(cells.take(i + 1).last() == cells[i as int]);
        }
        if let Some(cell) = record.get(i) {
            let t = trim(cell);
            if !t.is_empty() && !contains_text(symbols, t) {
                let ghost prev = symbols@;
                symbols.push(t.to_owned());
                proof {
                    assert(texts(symbols@) =~= texts(prev).push(t@));
                }
            }
        }
        i += 1;
    }
    proof {
        assert(cells.take(n as int) =~= cells);
    }
}

/// The symbols of a section's symbol row, in the order of their columns.
pub fn symbol_positions(record: &StringRecord) -> (r: Vec<String>)
    ensures
        texts(r@) == symbol_names(record_fields(*record)),
{
    let ghost cells = record_fields(*record);
    let n = record.len();
    let mut names: Vec<String> = Vec::new();
    let mut i: usize = 0;
    while i < n
        invariant
            cells == record_fields(*record),
            n == cells.len(),
            i <= n,
            texts(names@) == symbol_names(cells.take(i as int)),
        decreases n - i,
    {
        proof {
            assert(cells.take(i + 1).drop_last() =~= cells.take(i as int));
            assert(cells.take(i + 1).last() == cells[i as int]);
        }
        if let Some(cell) = record.get(i) {
            let t = trim(cell);
            if !t.is_empty() {
                let ghost prev = names@;
                names.push(t.to_owned());
                proof {
                    assert(texts(names@) =~= texts(prev).push(t@));
                }
            }
        }
        i += 1;
    }
    proof {
        assert(cells.take(n as int) =~= cells);
    }
    names
}

/// Two ascending lists of the same strings are the same list.
pub proof fn lemma_sorted_unique(a: Seq<Seq<char>>, b: Seq<Seq<char>>)
    requires
        strictly_sorted(a),
        strictly_sorted(b),
        a.to_set() == b.to_set(),
    ensures
        a == b,
    decreases a.len(),
{
    if a.len() == 0 {
        if b.len() > 0 {
            assert(b.to_set().contains(b[0]));
        }
        assert(a =~= b);
    } else {
        assert(a.to_set().contains(a[0]));
        assert(b.len() > 0);
        assert(b.to_set().contains(b[0]));
        let j = choose|j: int| 0 <= j < b.len() && b[j] == a[0];
        let i = choose|i: int| 0 <= i < a.len() && a[i] == b[0];
        if j > 0 {
            assert(lex_lt(b[0], b[j]));
            if i > 0 {
                assert(lex_lt(a[0], a[i]));
                lemma_lex_asymmetric(a[0], b[0]);
            } else {
                lemma_lex_irreflexive(a[0]);
            }
        }
        let ra = a.drop_first();
        let rb = b.drop_first();
        assert forall|x: Seq<char>| ra.to_set().contains(x) implies rb.to_set().contains(x) by {
            let k = choose|k: int| 0 <= k < ra.len() && ra[k] == x;
            assert(a[k + 1] == x);
            assert(lex_lt(a[0], x));
            assert(b.to_set().contains(x));
            let m = choose|m: int| 0 <= m < b.len() && b[m] == x;
            if m == 0 {
                lemma_lex_irreflexive(x);
            }
            assert(rb[m - 1] == x);
        }
        assert forall|x: Seq<char>| rb.to_set().contains(x) implies ra.to_set().contains(x) by {
            let k = choose|k: int| 0 <= k < rb.len() && rb[k] == x;
            assert(b[k + 1] == x);
            assert(lex_lt(b[0], x));
            assert(a.to_set().contains(x));
            let m = choose|m: int| 0 <= m < a.len() && a[m] == x;
            if m == 0 {
                lemma_lex_irreflexive(x);
            }
            assert(ra[m - 1] == x);
        }
        assert(ra.to_set() =~= rb.to_set());
        lemma_sorted_unique(ra, rb);
        assert(a =~= seq![a[0]] + ra);
        assert(b =~= seq![b[0]] + rb);
    }
}

/// An ascending list is the sorted list of its strings.
pub proof fn lemma_is_sorted_list(l: Seq<Seq<char>>)
    requires
        strictly_sorted(l),
    ensures
        sorted_list(l.to_set()) == l,
{
    let c = sorted_list(l.to_set());
    assert(strictly_sorted(c) && c.to_set() == l.to_set());
    lemma_sorted_unique(c, l);
}

fn insert_sorted(v: &mut Vec<String>, s: String)
    requires
        strictly_sorted(texts(old(v)@)),
    ensures
        strictly_sorted(texts(final(v)@)),
        texts(final(v)@).to_set() == texts(old(v)@).to_set().insert(s@),
{
    let ghost old_t = texts(v@);
    let mut p: usize = 0;
    while p < v.len() && str_lt(v[p].as_str(), s.as_str())
        invariant
            v@ == old(v)@,
            old_t == texts(v@),
            p <= v@.len(),
            forall|j: int| 0 <= j < p ==> lex_lt(#[trigger] old_t[j], s@),
        decreases v@.len() - p,
    {
        p += 1;
    }
    if p < v.len() && str_eq(v[p].as_str(), s.as_str()) {
        proof {
            assert(old_t[p as int] == s@);
            assert(old_t.to_set().insert(s@) =~= old_t.to_set());
        }
        return;
    }
    proof {
        if p < old_t.len() {
            assert(!lex_lt(old_t[p as int], s@));
            assert(old_t[p as int] != s@);
            lemma_lex_total(old_t[p as int], s@);
        }
    }
    v.insert(p, s);
    proof {
        let nt = texts(v@);
        assert(nt =~= old_t.insert(p as int, s@));
        assert forall|i: int, j: int| 0 <= i < j < nt.len() implies lex_lt(
            #[trigger] nt[i],
            #[trigger] nt[j],
        ) by {
            if j == p {
            } else if i == p {
                if j > p + 1 {
                    lemma_lex_transitive(s@, old_t[p as int], old_t[j - 1]);
                }
            } else if i < p && j > p {
                assert(lex_lt(old_t[i], s@));
                assert(lex_lt(s@, old_t[j - 1])) by {
                    if j - 1 > p {
                        lemma_lex_transitive(s@, old_t[p as int], old_t[j - 1]);
                    }
                }
                lemma_lex_transitive(old_t[i], s@, old_t[j - 1]);
            } else if i > p {
                assert(lex_lt(old_t[i - 1], old_t[j - 1]));
            } else {
                assert(lex_lt(old_t[i], old_t[j]));
            }
        }
        old_t.insert_ensures(p as int, s@);
        assert forall|x: Seq<char>| nt.to_set().contains(x) == old_t.to_set().insert(s@).contains(
            x,
        ) by {
            if nt.to_set().contains(x) {
                let k = choose|k: int| 0 <= k < nt.len() && nt[k] == x;
                if k < p {
                    assert(old_t[k] == x);
                } else if k > p {
                    assert(old_t[k - 1] == x);
                }
            }
            if old_t.to_set().contains(x) {
                let k = choose|k: int| 0 <= k < old_t.len() && old_t[k] == x;
                if k < p {
                    assert(nt[k] == x);
                } else {
                    assert(nt[k + 1] == x);
                }
            }
            if x == s@ {
                assert(nt[p as int] == x);
            }
        }
        assert(nt.to_set() =~= old_t.to_set().insert(s@));
    }
}

/// The symbols in ascending order, each once.
pub fn sorted_symbols(list: &Vec<String>) -> (r: Vec<String>)
    ensures
        strictly_sorted(texts(r@)),
        texts(r@).to_set() == texts(list@).to_set(),
        texts(r@) == sorted_list(texts(list@).to_set()),
{
    let mut r: Vec<String> = Vec::new();
    let mut i: usize = 0;
    while i < list.len()
        invariant
            i <= list@.len(),
            strictly_sorted(texts(r@)),
            texts(r@).to_set() == texts(list@).take(i as int).to_set(),
        decreases list@.len() - i,
    {
        insert_sorted(&mut r, list[i].clone());
        proof {
            let t = texts(list@);
            let before = t.take(i as int);
            let after = t.take(i + 1);
            assert(after =~= before.push(t[i as int]));
            assert forall|x: Seq<char>| #[trigger] after.to_set().contains(x)
                implies before.to_set().insert(t[i as int]).contains(x) by {
                let k = choose|k: int| 0 <= k < after.len() && after[k] == x;
                if k < i {
                    assert(before[k] == x);
                }
            }
            assert forall|x: Seq<char>| #[trigger] before.to_set().insert(t[i as int]).contains(x)
                implies after.to_set().contains(x) by {
                if x == t[i as int] {
                    assert(after[i as int] == x);
                } else {
                    let k = choose|k: int| 0 <= k < before.len() && before[k] == x;
                    assert(after[k] == x);
                }
            }
            assert(after.to_set() =~= before.to_set().insert(t[i as int]));
        }
        i += 1;
    }
    proof {
        assert(texts(list@).take(i as int) =~= texts(list@));
        lemma_is_sorted_list(texts(r@));
    }
    r
}

} // verus!
