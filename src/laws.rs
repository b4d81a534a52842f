use vstd::prelude::*;

use crate::diff::{
    cell_of, row_of, compared_cell, compared_cells, is_table_diff, pair_sides, row_diff_of, row_diffs_of,
    table_diffs_match, table_of, table_unchanged, whole_cell, whole_row_cells, lemma_diff_empty_iff_unchanged, ColDiffView,
    TableDiffView,
};
use crate::seqs::{distinct, first_index, interleave, lemma_interleave_contains, lemma_distinct_contains, lemma_distinct_no_duplicates, lemma_first_index_bounds, strictly_sorted};
use crate::snapshot::{is_key_union, keys_of, table_wf, TableView};
use crate::text::strict_total;
use crate::value::{key_order, lemma_key_order, primary_value_of, ValueView};

verus! {

/// The merged key list is determined by the two captures: two sorted unions of the
/// same keys are the same list.
pub proof fn lemma_key_union_unique(r1: Seq<Seq<ValueView>>, r2: Seq<Seq<ValueView>>, a: Seq<Seq<ValueView>>, b: Seq<Seq<ValueView>>)
    requires
        is_key_union(r1, a, b),
        is_key_union(r2, a, b),
    ensures
        r1 == r2,
{
    assert forall|k: Seq<ValueView>| r1.contains(k) <==> r2.contains(k) by {
        assert(r1.contains(k) <==> a.contains(k) || b.contains(k));
        assert(r2.contains(k) <==> a.contains(k) || b.contains(k));
    }
    lemma_key_order();
    lemma_sorted_same_elements(r1, r2);
}

proof fn lemma_sorted_same_elements(r1: Seq<Seq<ValueView>>, r2: Seq<Seq<ValueView>>)
    requires
        strict_total(key_order()),
        strictly_sorted(r1, key_order()),
        strictly_sorted(r2, key_order()),
        forall|k: Seq<ValueView>| r1.contains(k) <==> r2.contains(k),
    ensures
        r1 == r2,
    decreases r1.len(),
{
    let lt = key_order();
    if r1.len() == 0 {
        if r2.len() > 0 {
            assert(r2.contains(r2[0]));
        }
        assert(r1 =~= r2);
    } else {
        assert(r1.contains(r1[0]));
        assert(r2.len() > 0);
        assert(r2.contains(r2[0]));
        let j = choose|j: int| 0 <= j < r2.len() && r2[j] == r1[0];
        let i = choose|i: int| 0 <= i < r1.len() && r1[i] == r2[0];
        if r1[0] != r2[0] {
            assert(j > 0 && i > 0);
            assert(lt(r2[0], r2[j]));
            assert(lt(r1[0], r1[i]));
            assert(lt(r1[0], r1[0]));
        }
        let t1 = r1.drop_first();
        let t2 = r2.drop_first();
        assert forall|k: Seq<ValueView>| t1.contains(k) <==> t2.contains(k) by {
            if t1.contains(k) {
                let x = choose|x: int| 0 <= x < t1.len() && t1[x] == k;
                assert(r1[x + 1] == k);
                assert(lt(r1[0], r1[x + 1]));
                assert(r2.contains(k));
                let y = choose|y: int| 0 <= y < r2.len() && r2[y] == k;
                if y == 0 {
                    assert(lt(k, k));
                }
                assert(t2[y - 1] == k);
            }
            if t2.contains(k) {
                let x = choose|x: int| 0 <= x < t2.len() && t2[x] == k;
                assert(r2[x + 1] == k);
                assert(lt(r2[0], r2[x + 1]));
                assert(r1.contains(k));
                let y = choose|y: int| 0 <= y < r1.len() && r1[y] == k;
                if y == 0 {
                    assert(lt(k, k));
                }
                assert(t1[y - 1] == k);
            }
        }
        assert forall|x: int, y: int| 0 <= x < y < t1.len() implies #[trigger] lt(t1[x], t1[y]) by {
            assert(lt(r1[x + 1], r1[y + 1]));
        }
        assert forall|x: int, y: int| 0 <= x < y < t2.len() implies #[trigger] lt(t2[x], t2[y]) by {
            assert(lt(r2[x + 1], r2[y + 1]));
        }
        lemma_sorted_same_elements(t1, t2);
        assert(r1 =~= seq![r1[0]] + t1);
        assert(r2 =~= seq![r2[0]] + t2);
    }
}

/// Comparing a capture with itself gives no entry for any key.
pub proof fn lemma_same_capture_unchanged(t: TableView)
    ensures
        table_unchanged(t, t),
{
}

/// Diffing two identical captures of a table yields an empty table diff.
pub proof fn lemma_identical_captures_empty_diff(d: TableDiffView, t: TableView)
    requires
        is_table_diff(d, t, t),
    ensures
        d.row_diffs1.len() == 0,
        d.row_diffs2.len() == 0,
{
    lemma_same_capture_unchanged(t);
    lemma_diff_empty_iff_unchanged(d, t, t);
}

/// Diffing a list of captures with itself yields no table diff at all.
pub proof fn lemma_identical_snapshots_no_table_diffs(ds: Seq<TableDiffView>, names: Seq<Seq<char>>, ts: Seq<TableView>)
    requires
        table_diffs_match(ds, names, ts, ts),
    ensures
        ds.len() == 0,
    decreases names.len(),
{
    if names.len() > 0 {
        let sides = pair_sides(table_of(ts, names.last()), table_of(ts, names.last()));
        assert(table_unchanged(sides.0, sides.1));
        lemma_identical_snapshots_no_table_diffs(ds, names.drop_last(), ts);
    }
}

/// Every key but `k`.
pub open spec fn other_than(k: Seq<ValueView>) -> spec_fn(Seq<ValueView>) -> bool {
    |x: Seq<ValueView>| x != k
}

proof fn lemma_row_diffs_skip(t1: TableView, t2: TableView, keys: Seq<Seq<ValueView>>, k: Seq<ValueView>, before: bool)
    requires
        row_diff_of(t1, t2, k, before) is None,
    ensures
        row_diffs_of(t1, t2, keys, before) == row_diffs_of(t1, t2, keys.filter(other_than(k)), before),
    decreases keys.len(),
{
    if keys.len() > 0 {
        lemma_row_diffs_skip(t1, t2, keys.drop_last(), k, before);
        reveal(Seq::filter);
        let f = keys.filter(other_than(k));
        if keys.last() != k {
            assert(f.drop_last() == keys.drop_last().filter(other_than(k)));
            assert(f.last() == keys.last());
        }
    }
}

/// Two rows with the same key and the same hash get no entry on either side, whatever
/// their values: the entries are those of the other keys.
pub proof fn lemma_equal_hash_no_entries(d: TableDiffView, t1: TableView, t2: TableView, k: Seq<ValueView>)
    requires
        is_table_diff(d, t1, t2),
        row_of(t1, k) is Some,
        row_of(t2, k) is Some,
        row_of(t1, k).unwrap().hash == row_of(t2, k).unwrap().hash,
    ensures
        row_diff_of(t1, t2, k, true) is None,
        row_diff_of(t1, t2, k, false) is None,
        d.row_diffs1 == row_diffs_of(t1, t2, d.primary_keys.filter(other_than(k)), true),
        d.row_diffs2 == row_diffs_of(t1, t2, d.primary_keys.filter(other_than(k)), false),
{
    lemma_row_diffs_skip(t1, t2, d.primary_keys, k, true);
    lemma_row_diffs_skip(t1, t2, d.primary_keys, k, false);
}

/// In a well-formed capture, each column of a row has a value.
proof fn lemma_cell_present(t: TableView, k: Seq<ValueView>, c: Seq<char>)
    requires
        table_wf(t),
        row_of(t, k) is Some,
        t.col_names.contains(c),
    ensures
        cell_of(t, row_of(t, k).unwrap(), c) == Some(
            row_of(t, k).unwrap().values[first_index(t.col_names, c)],
        ),
{
    lemma_first_index_bounds(keys_of(t.rows), k);
    lemma_first_index_bounds(t.col_names, c);
    let i = first_index(keys_of(t.rows), k);
    assert(t.rows[i].values.len() == t.col_names.len());
}

/// A row found only on the "after" side: its key is in the merged key list, the
/// "before" side gets no entry, and the "after" side gets every column as added.
pub proof fn lemma_row_only_after(d: TableDiffView, t1: TableView, t2: TableView, k: Seq<ValueView>)
    requires
        is_table_diff(d, t1, t2),
        table_wf(t2),
        row_of(t1, k) is None,
        row_of(t2, k) is Some,
    ensures
        d.primary_keys.contains(k),
        row_diff_of(t1, t2, k, true) is None,
        row_diff_of(t1, t2, k, false) == Some(
            (primary_value_of(k), whole_row_cells(t2, row_of(t2, k).unwrap(), false)),
        ),
        forall|c: Seq<char>|
            #![trigger distinct(t2.col_names).contains(c)]
            distinct(t2.col_names).contains(c) ==> whole_cell(t2, row_of(t2, k).unwrap(), c, false)
                == ColDiffView::Added(row_of(t2, k).unwrap().values[first_index(t2.col_names, c)]),
{
    lemma_first_index_bounds(keys_of(t2.rows), k);
    assert(keys_of(t2.rows).contains(k));
    assert forall|c: Seq<char>|
        #![trigger distinct(t2.col_names).contains(c)]
        distinct(t2.col_names).contains(c) implies whole_cell(t2, row_of(t2, k).unwrap(), c, false)
            == ColDiffView::Added(row_of(t2, k).unwrap().values[first_index(t2.col_names, c)]) by {
        lemma_distinct_contains(t2.col_names, c);
        lemma_cell_present(t2, k, c);
    }
}

/// A row found only on the "before" side: its key is in the merged key list, the
/// "after" side gets no entry, and the "before" side gets every column as deleted.
pub proof fn lemma_row_only_before(d: TableDiffView, t1: TableView, t2: TableView, k: Seq<ValueView>)
    requires
        is_table_diff(d, t1, t2),
        table_wf(t1),
        row_of(t1, k) is Some,
        row_of(t2, k) is None,
    ensures
        d.primary_keys.contains(k),
        row_diff_of(t1, t2, k, false) is None,
        row_diff_of(t1, t2, k, true) == Some(
            (primary_value_of(k), whole_row_cells(t1, row_of(t1, k).unwrap(), true)),
        ),
        forall|c: Seq<char>|
            #![trigger distinct(t1.col_names).contains(c)]
            distinct(t1.col_names).contains(c) ==> whole_cell(t1, row_of(t1, k).unwrap(), c, true)
                == ColDiffView::Deleted(row_of(t1, k).unwrap().values[first_index(t1.col_names, c)]),
{
    lemma_first_index_bounds(keys_of(t1.rows), k);
    assert(keys_of(t1.rows).contains(k));
    assert forall|c: Seq<char>|
        #![trigger distinct(t1.col_names).contains(c)]
        distinct(t1.col_names).contains(c) implies whole_cell(t1, row_of(t1, k).unwrap(), c, true)
            == ColDiffView::Deleted(row_of(t1, k).unwrap().values[first_index(t1.col_names, c)]) by {
        lemma_distinct_contains(t1.col_names, c);
        lemma_cell_present(t1, k, c);
    }
}

/// The merged column names of a diff are the columns of either capture, each once.
pub proof fn lemma_merged_names_cover(d: TableDiffView, t1: TableView, t2: TableView, c: Seq<char>)
    requires
        is_table_diff(d, t1, t2),
    ensures
        d.col_names.contains(c) <==> t1.col_names.contains(c) || t2.col_names.contains(c),
        d.col_names.no_duplicates(),
{
    lemma_distinct_contains(interleave(t1.col_names, t2.col_names), c);
    lemma_interleave_contains(t1.col_names, t2.col_names, c);
    lemma_distinct_no_duplicates(interleave(t1.col_names, t2.col_names));
}

/// A row present on both sides with different hashes gets, on each side, a verdict for
/// every merged column.
pub proof fn lemma_changed_row_entries(d: TableDiffView, t1: TableView, t2: TableView, k: Seq<ValueView>)
    requires
        is_table_diff(d, t1, t2),
        row_of(t1, k) is Some,
        row_of(t2, k) is Some,
        row_of(t1, k).unwrap().hash != row_of(t2, k).unwrap().hash,
    ensures
        d.primary_keys.contains(k),
        row_diff_of(t1, t2, k, true) == Some(
            (primary_value_of(k), compared_cells(t1, row_of(t1, k).unwrap(), t2, row_of(t2, k).unwrap(), d.col_names, true)),
        ),
        row_diff_of(t1, t2, k, false) == Some(
            (primary_value_of(k), compared_cells(t1, row_of(t1, k).unwrap(), t2, row_of(t2, k).unwrap(), d.col_names, false)),
        ),
{
    lemma_first_index_bounds(keys_of(t1.rows), k);
    assert(keys_of(t1.rows).contains(k));
}

/// A value that changed between the two sides: deleted on the "before" side, added on
/// the "after" side.
pub proof fn lemma_value_changed(t1: TableView, t2: TableView, k: Seq<ValueView>, c: Seq<char>)
    requires
        table_wf(t1),
        table_wf(t2),
        row_of(t1, k) is Some,
        row_of(t2, k) is Some,
        t1.col_names.contains(c),
        t2.col_names.contains(c),
        row_of(t1, k).unwrap().values[first_index(t1.col_names, c)] != row_of(t2, k).unwrap().values[first_index(t2.col_names, c)],
    ensures
        compared_cell(t1, row_of(t1, k).unwrap(), t2, row_of(t2, k).unwrap(), c, true) == ColDiffView::Deleted(
            row_of(t1, k).unwrap().values[first_index(t1.col_names, c)],
        ),
        compared_cell(t1, row_of(t1, k).unwrap(), t2, row_of(t2, k).unwrap(), c, false) == ColDiffView::Added(
            row_of(t2, k).unwrap().values[first_index(t2.col_names, c)],
        ),
{
    lemma_cell_present(t1, k, c);
    lemma_cell_present(t2, k, c);
}

/// A column that only the "before" side has: deleted on that side, no value on the other.
pub proof fn lemma_column_only_before(t1: TableView, t2: TableView, k: Seq<ValueView>, c: Seq<char>)
    requires
        table_wf(t1),
        row_of(t1, k) is Some,
        row_of(t2, k) is Some,
        t1.col_names.contains(c),
        !t2.col_names.contains(c),
    ensures
        compared_cell(t1, row_of(t1, k).unwrap(), t2, row_of(t2, k).unwrap(), c, true) == ColDiffView::Deleted(
            row_of(t1, k).unwrap().values[first_index(t1.col_names, c)],
        ),
        compared_cell(t1, row_of(t1, k).unwrap(), t2, row_of(t2, k).unwrap(), c, false) == ColDiffView::NoValue,
{
    lemma_cell_present(t1, k, c);
    lemma_first_index_bounds(t2.col_names, c);
}

/// A column that only the "after" side has: added on that side, no value on the other.
pub proof fn lemma_column_only_after(t1: TableView, t2: TableView, k: Seq<ValueView>, c: Seq<char>)
    requires
        table_wf(t2),
        row_of(t1, k) is Some,
        row_of(t2, k) is Some,
        !t1.col_names.contains(c),
        t2.col_names.contains(c),
    ensures
        compared_cell(t1, row_of(t1, k).unwrap(), t2, row_of(t2, k).unwrap(), c, true) == ColDiffView::NoValue,
        compared_cell(t1, row_of(t1, k).unwrap(), t2, row_of(t2, k).unwrap(), c, false) == ColDiffView::Added(
            row_of(t2, k).unwrap().values[first_index(t2.col_names, c)],
        ),
{
    lemma_cell_present(t2, k, c);
    lemma_first_index_bounds(t1.col_names, c);
}

} // verus!
