//! The ordered name-to-column map that a store is built from.

use vstd::prelude::*;
use indexmap::IndexMap;
use crate::io::select::{indices_where, lemma_indices_where};
use crate::io::value::{ColumnValue, Datum};

verus! {

/// `indexmap::IndexMap`: a hash map that keeps its entries in the order in
/// which their keys were first inserted.
#[verifier::external_type_specification]
#[verifier::external_body]
#[verifier::reject_recursive_types(K)]
#[verifier::reject_recursive_types(V)]
#[verifier::reject_recursive_types(S)]
pub struct ExIndexMap<K, V, S>(IndexMap<K, V, S>);

/// A named, ordered sequence of cells.
#[derive(Debug, PartialEq)]
pub struct Column {
    pub name: String,
    pub values: Vec<ColumnValue>,
}

/// No earlier cell equals cell `i`.
pub open spec fn is_first(cells: Seq<Datum>, i: int) -> bool {
    forall|j: int| 0 <= j < i ==> #[trigger] cells[j] != cells[i]
}

/// The positions below `n` at which a value occurs for the first time.
pub open spec fn first_occurrences(cells: Seq<Datum>, n: nat) -> Seq<int> {
    indices_where(n, |i: int| is_first(cells, i))
}

/// The distinct values among the first `n` cells, in the order in which
/// they first occur.
pub open spec fn distinct_values(cells: Seq<Datum>, n: nat) -> Seq<Datum> {
    Seq::new(first_occurrences(cells, n).len(), |k: int| cells[first_occurrences(cells, n)[k]])
}

/// The values that a list of cells holds.
pub open spec fn values_of(list: Seq<&ColumnValue>) -> Seq<Datum> {
    Seq::new(list.len(), |k: int| list[k]@)
}

/// Every cell below `n` equals a distinct value that occurs at or before
/// it.
pub proof fn lemma_first_exists(cells: Seq<Datum>, n: nat, j: int)
    requires
        0 <= j < n,
    ensures
        exists|k: int|
            0 <= k < first_occurrences(cells, n).len() && #[trigger] first_occurrences(cells, n)[k]
                <= j && cells[first_occurrences(cells, n)[k]] == cells[j],
    decreases j,
{
    let firsts = first_occurrences(cells, n);
    lemma_indices_where(n, |i: int| is_first(cells, i));
    if is_first(cells, j) {
        assert(firsts.contains(j));
        let k = choose|k: int| 0 <= k < firsts.len() && firsts[k] == j;
        assert(firsts[k] <= j && cells[firsts[k]] == cells[j]);
    } else {
        let e = choose|e: int| 0 <= e < j && #[trigger] cells[e] == cells[j];
        lemma_first_exists(cells, n, e);
        let k = choose|k: int|
            0 <= k < firsts.len() && #[trigger] firsts[k] <= e && cells[firsts[k]] == cells[e];
        assert(firsts[k] <= j && cells[firsts[k]] == cells[j]);
    }
}

/// The distinct values of a list of cells differ from one another, and
/// they are exactly the values that the cells hold.
pub proof fn lemma_distinct_values(cells: Seq<Datum>)
    ensures
        distinct_values(cells, cells.len()).no_duplicates(),
        distinct_values(cells, cells.len()).to_set() == cells.to_set(),
        distinct_values(cells, cells.len()).len() == cells.to_set().len(),
        distinct_values(cells, cells.len()).len() <= cells.len(),
{
    let n = cells.len();
    let firsts = first_occurrences(cells, n);
    let distinct = distinct_values(cells, n);
    lemma_indices_where(n, |i: int| is_first(cells, i));
    assert forall|a: int, b: int| 0 <= a < distinct.len() && 0 <= b < distinct.len() && a
        != b implies distinct[a] != distinct[b] by {
        if a < b {
            assert(firsts[a] < firsts[b]);
            assert(is_first(cells, firsts[b]));
        } else {
            assert(firsts[b] < firsts[a]);
            assert(is_first(cells, firsts[a]));
        }
    }
    assert forall|v: Datum| distinct.to_set().contains(v) == cells.to_set().contains(v) by {
        if distinct.to_set().contains(v) {
            let k = choose|k: int| 0 <= k < distinct.len() && distinct[k] == v;
            assert(cells[firsts[k]] == v);
            assert(cells.contains(v));
        }
        if cells.to_set().contains(v) {
            let j = choose|j: int| 0 <= j < cells.len() && cells[j] == v;
            lemma_first_exists(cells, n, j);
            let k = choose|k: int|
                0 <= k < firsts.len() && #[trigger] firsts[k] <= j && cells[firsts[k]] == cells[j];
            assert(distinct[k] == v);
            assert(distinct.contains(v));
        }
    }
    assert(distinct.to_set() =~= cells.to_set());
    distinct.unique_seq_to_set();
}

impl Column {
    /// The distinct values of the column, in the order in which they first
    /// occur.
    pub fn unique(&self) -> (distinct: Vec<&ColumnValue>)
        ensures
            values_of(distinct@) == distinct_values(
                self.values.deep_view(),
                self.values.len() as nat,
            ),
    {
        let ghost cells = self.values.deep_view();
        let mut distinct: Vec<&ColumnValue> = Vec::new();
        let mut i: usize = 0;
        while i < self.values.len()
            invariant
                i <= self.values.len(),
                cells == self.values.deep_view(),
                values_of(distinct@) == distinct_values(cells, i as nat),
                distinct.len() == first_occurrences(cells, i as nat).len(),
            decreases self.values.len() - i,
        {
            let ghost firsts = first_occurrences(cells, i as nat);
            let ghost before = values_of(distinct@);
            let value = &self.values[i];
            assert(cells[i as int] == value@);
            proof {
                lemma_indices_where(i as nat, |k: int| is_first(cells, k));
            }
            let mut known = false;
            let mut k: usize = 0;
            while k < distinct.len() && !known
                invariant
                    k <= distinct.len(),
                    before == values_of(distinct@),
                    known ==> exists|a: int| 0 <= a < distinct.len() && #[trigger] before[a] == value@,
                    !known ==> forall|a: int| 0 <= a < k ==> #[trigger] before[a] != value@,
                decreases distinct.len() - k + (if known { 0int } else { 1int }),
            {
                assert(before[k as int] == distinct[k as int]@);
                if *distinct[k] == *value {
                    known = true;
                } else {
                    k += 1;
                }
            }
            if known {
                let ghost a = choose|a: int| 0 <= a < distinct.len() && #[trigger] before[a] == value@;
                assert(cells[firsts[a]] == cells[i as int]);
                assert(!is_first(cells, i as int));
            } else {
                assert(is_first(cells, i as int)) by {
                    assert forall|j: int| 0 <= j < i implies #[trigger] cells[j] != cells[i as int] by {
                        lemma_first_exists(cells, i as nat, j);
                        let a = choose|a: int|
                            0 <= a < firsts.len() && #[trigger] firsts[a] <= j && cells[firsts[a]]
                                == cells[j];
                        assert(before[a] == cells[firsts[a]]);
                    }
                }
                distinct.push(value);
                let ghost after = distinct_values(cells, (i + 1) as nat);
                assert(first_occurrences(cells, (i + 1) as nat) == firsts.push(i as int));
                assert forall|a: int| 0 <= a < after.len() implies values_of(distinct@)[a]
                    == after[a] by {
                    if a < firsts.len() {
                        assert(values_of(distinct@)[a] == before[a]);
                        assert(before[a] == cells[firsts[a]]);
                    }
                }
                assert(values_of(distinct@) =~= after);
            }
            i += 1;
        }
        distinct
    }

    /// The cell at position `key`.
    pub fn index(&self, key: usize) -> (value: &ColumnValue)
        requires
            key < self.values.len(),
        ensures
            *value == self.values[key as int],
    {
        &self.values[key]
    }
}

/// The entries of an ordered column map, in insertion order.
pub uninterp spec fn column_entries(m: IndexMap<String, Column>) -> Seq<(String, Column)>;

/// The position of an entry keyed `name`, if there is one.
pub open spec fn position_of(entries: Seq<(String, Column)>, name: Seq<char>) -> Option<int> {
    if exists|j: int| 0 <= j < entries.len() && (#[trigger] entries[j]).0@ == name {
        Some(choose|j: int| 0 <= j < entries.len() && (#[trigger] entries[j]).0@ == name)
    } else {
        None
    }
}

/// `IndexMap::new`: a map without entries.
#[verifier::external_body]
pub(crate) fn columns_new() -> (m: IndexMap<String, Column>)
    ensures
        column_entries(m) == Seq::<(String, Column)>::empty(),
{
    IndexMap::new()
}

/// `IndexMap::len`: the number of entries.
#[verifier::external_body]
pub(crate) fn columns_len(m: &IndexMap<String, Column>) -> (n: usize)
    ensures
        n == column_entries(*m).len(),
{
    m.len()
}

/// `IndexMap::get_index`: the entry at position `i` in insertion order, or
/// nothing when `i` is not a position of the map. A map holds at most one
/// entry per key, so no other entry has the key of the one found.
#[verifier::external_body]
pub(crate) fn columns_get_index<'a>(m: &'a IndexMap<String, Column>, i: usize) -> (r: Option<
    (&'a String, &'a Column),
>)
    ensures
        i < column_entries(*m).len() ==> r == Some(
            (&column_entries(*m)[i as int].0, &column_entries(*m)[i as int].1),
        ),
        i >= column_entries(*m).len() ==> r is None,
        r matches Some(found) ==> forall|j: int|
            0 <= j < column_entries(*m).len() && j != i ==> (#[trigger] column_entries(*m)[j]).0@
                != found.0@,
{
    m.get_index(i)
}

/// `IndexMap::get_index_of`: the position of the entry keyed `name`. A map
/// holds at most one entry per key, so the position found is the only one.
#[verifier::external_body]
pub(crate) fn columns_get_index_of(m: &IndexMap<String, Column>, name: &str) -> (r: Option<usize>)
    ensures
        match r {
            Some(i) => i < column_entries(*m).len() && column_entries(*m)[i as int].0@ == name@
                && forall|j: int|
                0 <= j < column_entries(*m).len() && (#[trigger] column_entries(*m)[j]).0@ == name@
                    ==> j == i,
            None => forall|j: int|
                0 <= j < column_entries(*m).len() ==> (#[trigger] column_entries(*m)[j]).0@
                    != name@,
        },
{
    m.get_index_of(name)
}

/// `IndexMap::insert`: a new key is appended after the existing entries; an
/// existing key keeps its position and gets the new column, and the column
/// it held is returned.
#[verifier::external_body]
pub(crate) fn columns_insert(m: &mut IndexMap<String, Column>, name: String, column: Column) -> (r:
    Option<Column>)
    ensures
        match position_of(column_entries(*old(m)), name@) {
            Some(p) => r == Some(column_entries(*old(m))[p].1) && column_entries(*final(m))
                == column_entries(*old(m)).update(p, (column_entries(*old(m))[p].0, column)),
            None => r is None && column_entries(*final(m)) == column_entries(*old(m)).push(
                (name, column),
            ),
        },
{
    m.insert(name, column)
}


/// The group number that a map from key tuples to groups holds for each
/// key tuple.
pub uninterp spec fn group_slots(m: IndexMap<Vec<ColumnValue>, usize>) -> Map<Seq<Datum>, usize>;

/// `IndexMap::new`: a map without entries.
#[verifier::external_body]
pub(crate) fn slots_new() -> (slots: IndexMap<Vec<ColumnValue>, usize>)
    ensures
        forall|key: Seq<Datum>| !group_slots(slots).contains_key(key),
{
    IndexMap::new()
}

/// `IndexMap::get`: the group number held for the key tuple equal to `key`,
/// if there is one. Key tuples are equal when they hold the same cells.
#[verifier::external_body]
pub(crate) fn slots_get<'a>(m: &'a IndexMap<Vec<ColumnValue>, usize>, key: &Vec<ColumnValue>) -> (r:
    Option<&'a usize>)
    ensures
        match r {
            Some(g) => group_slots(*m).contains_key(key.deep_view()) && *g == group_slots(
                *m,
            )[key.deep_view()],
            None => !group_slots(*m).contains_key(key.deep_view()),
        },
{
    m.get(key)
}

/// `IndexMap::insert`: afterwards the map holds `group` for `key` and is
/// otherwise unchanged; the group number held before is returned.
#[verifier::external_body]
pub(crate) fn slots_insert(m: &mut IndexMap<Vec<ColumnValue>, usize>, key: Vec<ColumnValue>, group: usize) -> (r:
    Option<usize>)
    ensures
        group_slots(*final(m)) == group_slots(*old(m)).insert(key.deep_view(), group),
        r == if group_slots(*old(m)).contains_key(key.deep_view()) {
            Some(group_slots(*old(m))[key.deep_view()])
        } else {
            None
        },
{
    m.insert(key, group)
}

} // verus!
