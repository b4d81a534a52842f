use vstd::prelude::*;

use crate::seqs::{distinct, first_index, lemma_distinct_contains, lemma_first_index_absent, lemma_first_index_bounds, lemma_first_index_found};
use crate::snapshot::{
    is_key_union, keys_of, keys_view, merged_col_names, new_uuid_text, RowView, SnapshotId, TableSnapshot, TableView,
};
use crate::text::{distinct_texts, find_text, same_text, texts_view};
use crate::value::{primary_value_of, ColValue, PrimaryColValues, ValueView};

verus! {

pub type DiffId = String;

/// A fresh identifier for a diff.
pub fn create_diff_id() -> DiffId {
    new_uuid_text()
}

/// The verdict on one cell of a row.
#[derive(Debug, PartialEq, Eq)]
pub enum ColDiff {
    /// The column does not exist in this side's row.
    NoValue,
    /// The value is the same on both sides.
    Stay(ColValue),
    /// The value of the "after" side, absent or different on the "before" side.
    Added(ColValue),
    /// The value of the "before" side, absent or different on the "after" side.
    Deleted(ColValue),
}

pub enum ColDiffView {
    NoValue,
    Stay(ValueView),
    Added(ValueView),
    Deleted(ValueView),
}

impl View for ColDiff {
    type V = ColDiffView;

    open spec fn view(&self) -> ColDiffView {
        match self {
            ColDiff::NoValue => ColDiffView::NoValue,
            ColDiff::Stay(v) => ColDiffView::Stay(v@),
            ColDiff::Added(v) => ColDiffView::Added(v@),
            ColDiff::Deleted(v) => ColDiffView::Deleted(v@),
        }
    }
}

/// The verdicts on the cells of one row, by column name, in column order.
pub type CellsView = Seq<(Seq<char>, ColDiffView)>;

/// The display value of a row's key, with the verdicts on its cells.
pub type RowDiffView = (Seq<char>, CellsView);

/// The verdict on one column of a row.
#[derive(Debug, PartialEq, Eq)]
pub struct ColEntry {
    pub col_name: String,
    pub col_diff: ColDiff,
}

impl View for ColEntry {
    type V = (Seq<char>, ColDiffView);

    open spec fn view(&self) -> (Seq<char>, ColDiffView) {
        (self.col_name@, self.col_diff@)
    }
}

pub open spec fn entries_view(v: Seq<ColEntry>) -> CellsView {
    v.map_values(|e: ColEntry| e@)
}

/// The verdicts on the cells of one row.
#[derive(Debug, PartialEq, Eq)]
pub struct RowDiff {
    pub primary_value: String,
    pub cols: Vec<ColEntry>,
}

impl View for RowDiff {
    type V = RowDiffView;

    open spec fn view(&self) -> RowDiffView {
        (self.primary_value@, entries_view(self.cols@))
    }
}

impl RowDiff {
    /// The verdict on the column named `col_name`, if the row has one.
    pub fn get(&self, col_name: &str) -> (r: Option<&ColDiff>)
        ensures
            ({
                let i = first_index(self@.1.map_values(|e: (Seq<char>, ColDiffView)| e.0), col_name@);
                match r {
                    Some(d) => i >= 0 && d@ == self@.1[i].1,
                    None => i < 0,
                }
            }),
    {
        let ghost names = self@.1.map_values(|e: (Seq<char>, ColDiffView)| e.0);
        let mut i: usize = 0;
        while i < self.cols.len()
            invariant
                names == self@.1.map_values(|e: (Seq<char>, ColDiffView)| e.0),
                i <= self.cols@.len(),
                forall|j: int| 0 <= j < i ==> #[trigger] names[j] != col_name@,
            decreases self.cols.len() - i,
        {
            if same_text(self.cols[i].col_name.as_str(), col_name) {
                proof {
                    lemma_first_index_found(names, col_name@, i as int);
                }
                return Some(&self.cols[i].col_diff);
            }
            i = i + 1;
        }
        proof {
            lemma_first_index_absent(names, col_name@);
        }
        None
    }
}

/// The row verdicts of one side of a table diff, in key order.
#[derive(Debug, PartialEq, Eq)]
pub struct RowDiffs {
    pub rows: Vec<RowDiff>,
}

impl View for RowDiffs {
    type V = Seq<RowDiffView>;

    open spec fn view(&self) -> Seq<RowDiffView> {
        self.rows@.map_values(|r: RowDiff| r@)
    }
}

impl RowDiffs {
    pub fn len(&self) -> (r: usize)
        ensures
            r == self@.len(),
    {
        self.rows.len()
    }

    pub fn is_empty(&self) -> (r: bool)
        ensures
            r == (self@.len() == 0),
    {
        self.rows.len() == 0
    }

    /// The verdicts on the row whose key displays as `primary_value`, if there are any.
    pub fn get(&self, primary_value: &str) -> (r: Option<&RowDiff>)
        ensures
            ({
                let i = first_index(self@.map_values(|e: RowDiffView| e.0), primary_value@);
                match r {
                    Some(d) => i >= 0 && d@ == self@[i],
                    None => i < 0,
                }
            }),
    {
        let ghost names = self@.map_values(|e: RowDiffView| e.0);
        let mut i: usize = 0;
        while i < self.rows.len()
            invariant
                names == self@.map_values(|e: RowDiffView| e.0),
                i <= self.rows@.len(),
                forall|j: int| 0 <= j < i ==> #[trigger] names[j] != primary_value@,
            decreases self.rows.len() - i,
        {
            if same_text(self.rows[i].primary_value.as_str(), primary_value) {
                proof {
                    lemma_first_index_found(names, primary_value@, i as int);
                }
                return Some(&self.rows[i]);
            }
            i = i + 1;
        }
        proof {
            lemma_first_index_absent(names, primary_value@);
        }
        None
    }
}

/// The row of `t` with key `k` (the first one, should the key repeat).
pub open spec fn row_of(t: TableView, k: Seq<ValueView>) -> Option<RowView> {
    let i = first_index(keys_of(t.rows), k);
    if i >= 0 {
        Some(t.rows[i])
    } else {
        None
    }
}

/// The value of column `c` in `row` of `t`, where `t` has that column.
pub open spec fn cell_of(t: TableView, row: RowView, c: Seq<char>) -> Option<ValueView> {
    let i = first_index(t.col_names, c);
    if 0 <= i < row.values.len() {
        Some(row.values[i])
    } else {
        None
    }
}

/// The verdict on the "before" side: kept where both sides hold the same value,
/// deleted where the "before" side has a value that the "after" side does not match.
pub open spec fn before_cell(v1: Option<ValueView>, v2: Option<ValueView>) -> ColDiffView {
    match v1 {
        Some(a) => if v2 == Some(a) {
            ColDiffView::Stay(a)
        } else {
            ColDiffView::Deleted(a)
        },
        None => ColDiffView::NoValue,
    }
}

/// The verdict on the "after" side: kept where both sides hold the same value,
/// added where the "after" side has a value that the "before" side does not match.
pub open spec fn after_cell(v1: Option<ValueView>, v2: Option<ValueView>) -> ColDiffView {
    match v2 {
        Some(b) => if v1 == Some(b) {
            ColDiffView::Stay(b)
        } else {
            ColDiffView::Added(b)
        },
        None => ColDiffView::NoValue,
    }
}

pub open spec fn compared_cell(t1: TableView, r1: RowView, t2: TableView, r2: RowView, c: Seq<char>, before: bool) -> ColDiffView {
    if before {
        before_cell(cell_of(t1, r1, c), cell_of(t2, r2, c))
    } else {
        after_cell(cell_of(t1, r1, c), cell_of(t2, r2, c))
    }
}

/// A row present on both sides, with different hashes: a verdict for every column of `cols`.
pub open spec fn compared_cells(
    t1: TableView,
    r1: RowView,
    t2: TableView,
    r2: RowView,
    cols: Seq<Seq<char>>,
    before: bool,
) -> CellsView {
    cols.map_values(|c: Seq<char>| (c, compared_cell(t1, r1, t2, r2, c, before)))
}

pub open spec fn whole_cell(t: TableView, r: RowView, c: Seq<char>, before: bool) -> ColDiffView {
    match cell_of(t, r, c) {
        Some(v) => if before {
            ColDiffView::Deleted(v)
        } else {
            ColDiffView::Added(v)
        },
        None => ColDiffView::NoValue,
    }
}

/// A row present on one side only: each of its columns deleted ("before" side) or added.
pub open spec fn whole_row_cells(t: TableView, r: RowView, before: bool) -> CellsView {
    distinct(t.col_names).map_values(|c: Seq<char>| (c, whole_cell(t, r, c, before)))
}

/// The verdicts for key `k` on one side, or none where that side gets no entry.
pub open spec fn row_diff_of(t1: TableView, t2: TableView, k: Seq<ValueView>, before: bool) -> Option<RowDiffView> {
    let pv = primary_value_of(k);
    match (row_of(t1, k), row_of(t2, k)) {
        (Some(a), Some(b)) => if a.hash == b.hash {
            None
        } else {
            Some((pv, compared_cells(t1, a, t2, b, merged_col_names(t1.col_names, t2.col_names), before)))
        },
        (Some(a), None) => if before {
            Some((pv, whole_row_cells(t1, a, true)))
        } else {
            None
        },
        (None, Some(b)) => if before {
            None
        } else {
            Some((pv, whole_row_cells(t2, b, false)))
        },
        (None, None) => None,
    }
}

/// The entries of one side for the keys `keys`, in their order.
pub open spec fn row_diffs_of(t1: TableView, t2: TableView, keys: Seq<Seq<ValueView>>, before: bool) -> Seq<RowDiffView>
    decreases keys.len(),
{
    if keys.len() == 0 {
        Seq::empty()
    } else {
        let prev = row_diffs_of(t1, t2, keys.drop_last(), before);
        match row_diff_of(t1, t2, keys.last(), before) {
            Some(d) => prev.push(d),
            None => prev,
        }
    }
}

/// The model of a table diff.
pub struct TableDiffView {
    pub table_name: Seq<char>,
    pub primary_keys: Seq<Seq<ValueView>>,
    pub primary_col_name: Seq<char>,
    pub col_names: Seq<Seq<char>>,
    pub row_diffs1: Seq<RowDiffView>,
    pub row_diffs2: Seq<RowDiffView>,
}

/// `d` is the diff of the capture `t1` ("before") against `t2` ("after").
pub open spec fn is_table_diff(d: TableDiffView, t1: TableView, t2: TableView) -> bool {
    &&& d.table_name == t1.table_name
    &&& d.primary_col_name == t1.primary_col_name
    &&& d.col_names == merged_col_names(t1.col_names, t2.col_names)
    &&& is_key_union(d.primary_keys, keys_of(t1.rows), keys_of(t2.rows))
    &&& d.row_diffs1 == row_diffs_of(t1, t2, d.primary_keys, true)
    &&& d.row_diffs2 == row_diffs_of(t1, t2, d.primary_keys, false)
}

/// A capture of the table of `t` with no columns and no rows: what the side on which
/// the table is missing amounts to.
pub open spec fn empty_like(t: TableView) -> TableView {
    TableView {
        table_name: t.table_name,
        primary_col_name: t.primary_col_name,
        col_names: Seq::empty(),
        hash: Seq::empty(),
        rows: Seq::empty(),
    }
}

/// The difference between two captures of one table.
#[derive(Debug, PartialEq, Eq)]
pub struct TableDiff {
    pub table_name: String,
    pub primary_col_values_vec: Vec<PrimaryColValues>,
    pub primary_col_name: String,
    pub col_names: Vec<String>,
    pub row_diffs1: RowDiffs,
    pub row_diffs2: RowDiffs,
}

impl View for TableDiff {
    type V = TableDiffView;

    open spec fn view(&self) -> TableDiffView {
        TableDiffView {
            table_name: self.table_name@,
            primary_keys: keys_view(self.primary_col_values_vec@),
            primary_col_name: self.primary_col_name@,
            col_names: texts_view(self.col_names@),
            row_diffs1: self.row_diffs1@,
            row_diffs2: self.row_diffs2@,
        }
    }
}

impl TableDiff {
    /// Whether neither side has an entry: the two captures agree.
    pub fn is_empty(&self) -> (r: bool)
        ensures
            r == (self@.row_diffs1.len() == 0 && self@.row_diffs2.len() == 0),
    {
        self.row_diffs1.is_empty() && self.row_diffs2.is_empty()
    }
}

/// The index of the row of `t` with key `k`.
fn find_row(t: &TableSnapshot, k: &PrimaryColValues) -> (r: Option<usize>)
    ensures
        r is Some <==> first_index(keys_of(t@.rows), k@) >= 0,
        r is Some ==> r->0 == first_index(keys_of(t@.rows), k@),
{
    let ghost keys = keys_of(t@.rows);
    let mut i: usize = 0;
    while i < t.row_snapshots.len()
        invariant
            keys == keys_of(t@.rows),
            i <= keys.len(),
            forall|j: int| 0 <= j < i ==> #[trigger] keys[j] != k@,
        decreases t.row_snapshots.len() - i,
    {
        if t.row_snapshots[i].primary_col_values.same_as(k) {
            proof {
                lemma_first_index_found(keys, k@, i as int);
            }
            return Some(i);
        }
        i = i + 1;
    }
    proof {
        lemma_first_index_absent(keys, k@);
    }
    None
}

pub open spec fn opt_view(v: Option<ColValue>) -> Option<ValueView> {
    match v {
        Some(x) => Some(x@),
        None => None,
    }
}

/// The value of column `c` in row `i` of `t`.
fn cell(t: &TableSnapshot, i: usize, c: &String) -> (r: Option<ColValue>)
    requires
        i < t@.rows.len(),
    ensures
        opt_view(r) == cell_of(t@, t@.rows[i as int], c@),
{
    match find_text(&t.col_names, c.as_str()) {
        Some(j) => {
            if j < t.row_snapshots[i].col_values.len() {
                Some(t.row_snapshots[i].col_values[j].copy_value())
            } else {
                None
            }
        },
        None => {
            proof {
                lemma_first_index_bounds(t@.col_names, c@);
            }
            None
        },
    }
}

fn same_cell(v1: &Option<ColValue>, v2: &Option<ColValue>) -> (r: bool)
    ensures
        r == (opt_view(*v1) == opt_view(*v2)),
{
    match (v1, v2) {
        (Some(a), Some(b)) => a.same_as(b),
        (None, None) => true,
        _ => false,
    }
}

fn classify(v1: Option<ColValue>, v2: Option<ColValue>, before: bool) -> (r: ColDiff)
    ensures
        r@ == (if before {
            before_cell(opt_view(v1), opt_view(v2))
        } else {
            after_cell(opt_view(v1), opt_view(v2))
        }),
{
    let same = same_cell(&v1, &v2);
    if before {
        match v1 {
            Some(a) => if same {
                ColDiff::Stay(a)
            } else {
                ColDiff::Deleted(a)
            },
            None => ColDiff::NoValue,
        }
    } else {
        match v2 {
            Some(b) => if same {
                ColDiff::Stay(b)
            } else {
                ColDiff::Added(b)
            },
            None => ColDiff::NoValue,
        }
    }
}

/// The verdicts on row `i1` of `t1` against row `i2` of `t2`, for each column of `cols`.
fn compare_rows(t1: &TableSnapshot, i1: usize, t2: &TableSnapshot, i2: usize, cols: &Vec<String>, before: bool) -> (r: Vec<ColEntry>)
    requires
        i1 < t1@.rows.len(),
        i2 < t2@.rows.len(),
    ensures
        entries_view(r@) == compared_cells(t1@, t1@.rows[i1 as int], t2@, t2@.rows[i2 as int], texts_view(cols@), before),
{
    let ghost r1 = t1@.rows[i1 as int];
    let ghost r2 = t2@.rows[i2 as int];
    let mut r: Vec<ColEntry> = Vec::new();
    let mut j: usize = 0;
    while j < cols.len()
        invariant
            i1 < t1@.rows.len(),
            i2 < t2@.rows.len(),
            r1 == t1@.rows[i1 as int],
            r2 == t2@.rows[i2 as int],
            j <= cols@.len(),
            r@.len() == j,
            forall|x: int| 0 <= x < j ==> #[trigger] r@[x]@ == (cols@[x]@, compared_cell(t1@, r1, t2@, r2, cols@[x]@, before)),
        decreases cols.len() - j,
    {
        let v1 = cell(t1, i1, &cols[j]);
        let v2 = cell(t2, i2, &cols[j]);
        let d = classify(v1, v2, before);
        r.push(ColEntry { col_name: cols[j].clone(), col_diff: d });
        j = j + 1;
    }
    assert(entries_view(r@) =~= compared_cells(t1@, r1, t2@, r2, texts_view(cols@), before));
    r
}

/// The verdicts on row `i` of `t`, present on one side only.
fn whole_row(t: &TableSnapshot, i: usize, before: bool) -> (r: Vec<ColEntry>)
    requires
        i < t@.rows.len(),
    ensures
        entries_view(r@) == whole_row_cells(t@, t@.rows[i as int], before),
{
    let ghost row = t@.rows[i as int];
    let cols = distinct_texts(&t.col_names);
    let mut r: Vec<ColEntry> = Vec::new();
    let mut j: usize = 0;
    while j < cols.len()
        invariant
            i < t@.rows.len(),
            row == t@.rows[i as int],
            texts_view(cols@) == distinct(t@.col_names),
            j <= cols@.len(),
            r@.len() == j,
            forall|x: int| 0 <= x < j ==> #[trigger] r@[x]@ == (cols@[x]@, whole_cell(t@, row, cols@[x]@, before)),
        decreases cols.len() - j,
    {
        let v = cell(t, i, &cols[j]);
        let d = match v {
            Some(x) => if before {
                ColDiff::Deleted(x)
            } else {
                ColDiff::Added(x)
            },
            None => ColDiff::NoValue,
        };
        r.push(ColEntry { col_name: cols[j].clone(), col_diff: d });
        j = j + 1;
    }
    assert(entries_view(r@) =~= whole_row_cells(t@, row, before));
    r
}

/// The diff of two captures of one table: the sorted union of the keys, the merged
/// column names, and for each key the entries of both sides.
fn take_table_snapshot_diff(table_snapshot1: &TableSnapshot, table_snapshot2: &TableSnapshot) -> (r: TableDiff)
    ensures
        is_table_diff(r@, table_snapshot1@, table_snapshot2@),
{
    let ghost t1 = table_snapshot1@;
    let ghost t2 = table_snapshot2@;
    let keys = table_snapshot1.merge_primary_col_values_vec(table_snapshot2);
    let total_col_names = table_snapshot1.merge_col_names(table_snapshot2);
    let ghost kv = keys_view(keys@);
    let mut rows1: Vec<RowDiff> = Vec::new();
    let mut rows2: Vec<RowDiff> = Vec::new();
    let mut i: usize = 0;
    assert(kv.subrange(0, 0) =~= Seq::<Seq<ValueView>>::empty());
    while i < keys.len()
        invariant
            t1 == table_snapshot1@,
            t2 == table_snapshot2@,
            kv == keys_view(keys@),
            texts_view(total_col_names@) == merged_col_names(t1.col_names, t2.col_names),
            i <= keys@.len(),
            rows1@.map_values(|r: RowDiff| r@) == row_diffs_of(t1, t2, kv.subrange(0, i as int), true),
            rows2@.map_values(|r: RowDiff| r@) == row_diffs_of(t1, t2, kv.subrange(0, i as int), false),
        decreases keys.len() - i,
    {
        let k = &keys[i];
        let ghost prefix = kv.subrange(0, i + 1);
        assert(prefix.drop_last() =~= kv.subrange(0, i as int));
        assert(prefix.last() == k@);
        let ghost old1 = rows1@.map_values(|r: RowDiff| r@);
        let ghost old2 = rows2@.map_values(|r: RowDiff| r@);
        let found1 = find_row(table_snapshot1, k);
        let found2 = find_row(table_snapshot2, k);
        proof {
            lemma_first_index_bounds(keys_of(t1.rows), k@);
            lemma_first_index_bounds(keys_of(t2.rows), k@);
        }
        match (found1, found2) {
            (Some(a), Some(b)) => {
                if table_snapshot1.row_snapshots[a].hash == table_snapshot2.row_snapshots[b].hash {
                } else {
                    let c1 = compare_rows(table_snapshot1, a, table_snapshot2, b, &total_col_names, true);
                    let c2 = compare_rows(table_snapshot1, a, table_snapshot2, b, &total_col_names, false);
                    rows1.push(RowDiff { primary_value: k.as_primary_value(), cols: c1 });
                    rows2.push(RowDiff { primary_value: k.as_primary_value(), cols: c2 });
                    assert(rows1@.map_values(|r: RowDiff| r@) =~= old1.push(rows1@.last()@));
                    assert(rows2@.map_values(|r: RowDiff| r@) =~= old2.push(rows2@.last()@));
                }
            },
            (Some(a), None) => {
                let c1 = whole_row(table_snapshot1, a, true);
                rows1.push(RowDiff { primary_value: k.as_primary_value(), cols: c1 });
                assert(rows1@.map_values(|r: RowDiff| r@) =~= old1.push(rows1@.last()@));
            },
            (None, Some(b)) => {
                let c2 = whole_row(table_snapshot2, b, false);
                rows2.push(RowDiff { primary_value: k.as_primary_value(), cols: c2 });
                assert(rows2@.map_values(|r: RowDiff| r@) =~= old2.push(rows2@.last()@));
            },
            (None, None) => {},
        }
        i = i + 1;
    }
    assert(kv.subrange(0, kv.len() as int) =~= kv);
    TableDiff {
        table_name: table_snapshot1.table_name.clone(),
        primary_col_values_vec: keys,
        primary_col_name: table_snapshot1.primary_col_name.clone(),
        col_names: total_col_names,
        row_diffs1: RowDiffs { rows: rows1 },
        row_diffs2: RowDiffs { rows: rows2 },
    }
}

/// A capture of the table of `t` with no columns and no rows.
fn empty_counterpart(t: &TableSnapshot) -> (r: TableSnapshot)
    ensures
        r@ == empty_like(t@),
{
    let r = TableSnapshot {
        table_name: t.table_name.clone(),
        primary_col_name: t.primary_col_name.clone(),
        col_names: Vec::new(),
        hash: String::new(),
        row_snapshots: Vec::new(),
    };
    assert(r@.col_names =~= Seq::<Seq<char>>::empty());
    assert(r@.rows =~= Seq::<RowView>::empty());
    r
}

/// The diff of a table captured on one side only: side 1 (`n == 1`, the table
/// disappeared) or side 2 (the table appeared).
fn create_missing_pair_diff(table_snapshot: &TableSnapshot, n: usize) -> (r: TableDiff)
    requires
        n == 1 || n == 2,
    ensures
        n == 1 ==> is_table_diff(r@, table_snapshot@, empty_like(table_snapshot@)),
        n == 2 ==> is_table_diff(r@, empty_like(table_snapshot@), table_snapshot@),
{
    let other = empty_counterpart(table_snapshot);
    if n == 1 {
        take_table_snapshot_diff(table_snapshot, &other)
    } else {
        take_table_snapshot_diff(&other, table_snapshot)
    }
}

/// The diff of the captures of one table; a side on which the table is missing counts
/// as a capture with no columns and no rows.
pub fn create_table_diff(table_snapshot1: Option<&TableSnapshot>, table_snapshot2: Option<&TableSnapshot>) -> (r: TableDiff)
    requires
        table_snapshot1 is Some || table_snapshot2 is Some,
    ensures
        match (table_snapshot1, table_snapshot2) {
            (Some(t1), Some(t2)) => is_table_diff(r@, t1@, t2@),
            (None, Some(t2)) => is_table_diff(r@, empty_like(t2@), t2@),
            (Some(t1), None) => is_table_diff(r@, t1@, empty_like(t1@)),
            (None, None) => false,
        },
{
    match table_snapshot1 {
        Some(t1) => match table_snapshot2 {
            Some(t2) => take_table_snapshot_diff(t1, t2),
            None => create_missing_pair_diff(t1, 1),
        },
        None => create_missing_pair_diff(table_snapshot2.unwrap(), 2),
    }
}

/// The two sides to compare for one table name; a missing side counts as a capture
/// of that table with no columns and no rows.
pub open spec fn pair_sides(a: Option<TableView>, b: Option<TableView>) -> (TableView, TableView) {
    match (a, b) {
        (Some(t1), Some(t2)) => (t1, t2),
        (None, Some(t2)) => (empty_like(t2), t2),
        (Some(t1), None) => (t1, empty_like(t1)),
        (None, None) => (empty_like(TableView { table_name: Seq::empty(), primary_col_name: Seq::empty(), col_names: Seq::empty(), hash: Seq::empty(), rows: Seq::empty() }), empty_like(TableView { table_name: Seq::empty(), primary_col_name: Seq::empty(), col_names: Seq::empty(), hash: Seq::empty(), rows: Seq::empty() })),
    }
}

/// No key of either capture gets an entry on either side.
pub open spec fn table_unchanged(t1: TableView, t2: TableView) -> bool {
    forall|k: Seq<ValueView>|
        keys_of(t1.rows).contains(k) || keys_of(t2.rows).contains(k) ==> (#[trigger] row_diff_of(t1, t2, k, true) is None
            && row_diff_of(t1, t2, k, false) is None)
}

pub proof fn lemma_row_diffs_empty<>(t1: TableView, t2: TableView, keys: Seq<Seq<ValueView>>, before: bool)
    ensures
        row_diffs_of(t1, t2, keys, before).len() == 0 <==> forall|i: int|
            0 <= i < keys.len() ==> (#[trigger] row_diff_of(t1, t2, keys[i], before)) is None,
    decreases keys.len(),
{
    if keys.len() > 0 {
        let p = keys.drop_last();
        lemma_row_diffs_empty(t1, t2, p, before);
        if row_diffs_of(t1, t2, keys, before).len() == 0 {
            assert forall|i: int| 0 <= i < keys.len() implies (#[trigger] row_diff_of(t1, t2, keys[i], before)) is None by {
                if i < keys.len() - 1 {
                    assert(keys[i] == p[i]);
                }
            }
        }
        if forall|i: int| 0 <= i < keys.len() ==> (#[trigger] row_diff_of(t1, t2, keys[i], before)) is None {
            assert(row_diff_of(t1, t2, keys[keys.len() - 1], before) is None);
            assert forall|i: int| 0 <= i < p.len() implies (#[trigger] row_diff_of(t1, t2, p[i], before)) is None by {
                assert(p[i] == keys[i]);
            }
        }
    }
}

/// A table diff has no entries exactly when no key of either capture gets one.
pub proof fn lemma_diff_empty_iff_unchanged(d: TableDiffView, t1: TableView, t2: TableView)
    requires
        is_table_diff(d, t1, t2),
    ensures
        (d.row_diffs1.len() == 0 && d.row_diffs2.len() == 0) <==> table_unchanged(t1, t2),
{
    let keys = d.primary_keys;
    lemma_row_diffs_empty(t1, t2, keys, true);
    lemma_row_diffs_empty(t1, t2, keys, false);
    if d.row_diffs1.len() == 0 && d.row_diffs2.len() == 0 {
        assert forall|k: Seq<ValueView>| keys_of(t1.rows).contains(k) || keys_of(t2.rows).contains(k) implies (#[trigger] row_diff_of(t1, t2, k, true) is None
            && row_diff_of(t1, t2, k, false) is None) by {
            assert(keys.contains(k));
            let i = choose|i: int| 0 <= i < keys.len() && keys[i] == k;
            assert(row_diff_of(t1, t2, keys[i], true) is None);
            assert(row_diff_of(t1, t2, keys[i], false) is None);
        }
    }
    if table_unchanged(t1, t2) {
        assert forall|i: int| 0 <= i < keys.len() implies (#[trigger] row_diff_of(t1, t2, keys[i], true)) is None by {
            assert(keys.contains(keys[i]));
        }
        assert forall|i: int| 0 <= i < keys.len() implies (#[trigger] row_diff_of(t1, t2, keys[i], false)) is None by {
            assert(keys.contains(keys[i]));
            assert(row_diff_of(t1, t2, keys[i], true) is None);
        }
    }
}

/// The result of a comparison of two captures: the diffs of the tables that changed.
#[derive(Debug, PartialEq, Eq)]
pub struct SnapshotDiff {
    pub diff_id: DiffId,
    pub snapshot_id1: SnapshotId,
    pub snapshot_id2: SnapshotId,
    pub table_diffs: Vec<TableDiff>,
}

impl SnapshotDiff {
    pub fn new(diff_id: &DiffId, snapshot_id1: &SnapshotId, snapshot_id2: &SnapshotId, table_diffs: Vec<TableDiff>) -> (r: Self)
        ensures
            r.diff_id@ == diff_id@,
            r.snapshot_id1@ == snapshot_id1@,
            r.snapshot_id2@ == snapshot_id2@,
            r.table_diffs == table_diffs,
    {
        Self { diff_id: diff_id.clone(), snapshot_id1: snapshot_id1.clone(), snapshot_id2: snapshot_id2.clone(), table_diffs }
    }
}

pub open spec fn tables_view(ts: Seq<TableSnapshot>) -> Seq<TableView> {
    ts.map_values(|t: TableSnapshot| t@)
}

pub open spec fn table_names_of(ts: Seq<TableView>) -> Seq<Seq<char>> {
    ts.map_values(|t: TableView| t.table_name)
}

/// The capture of table `name` in `ts` (the first one, should the name repeat).
pub open spec fn table_of(ts: Seq<TableView>, name: Seq<char>) -> Option<TableView> {
    let i = first_index(table_names_of(ts), name);
    if i >= 0 {
        Some(ts[i])
    } else {
        None
    }
}

pub open spec fn table_diffs_view(ds: Seq<TableDiff>) -> Seq<TableDiffView> {
    ds.map_values(|d: TableDiff| d@)
}

/// `ds` holds, in the order of `names`, the diff of each table that changed.
pub open spec fn table_diffs_match(ds: Seq<TableDiffView>, names: Seq<Seq<char>>, ts1: Seq<TableView>, ts2: Seq<TableView>) -> bool
    decreases names.len(),
{
    if names.len() == 0 {
        ds.len() == 0
    } else {
        let sides = pair_sides(table_of(ts1, names.last()), table_of(ts2, names.last()));
        if table_unchanged(sides.0, sides.1) {
            table_diffs_match(ds, names.drop_last(), ts1, ts2)
        } else {
            &&& ds.len() > 0
            &&& is_table_diff(ds.last(), sides.0, sides.1)
            &&& table_diffs_match(ds.drop_last(), names.drop_last(), ts1, ts2)
        }
    }
}

/// The names of the tables of both captures, each once, in first-seen order.
pub open spec fn all_table_names(ts1: Seq<TableView>, ts2: Seq<TableView>) -> Seq<Seq<char>> {
    distinct(table_names_of(ts1) + table_names_of(ts2))
}

fn find_table(ts: &Vec<TableSnapshot>, name: &String) -> (r: Option<usize>)
    ensures
        r is Some <==> first_index(table_names_of(tables_view(ts@)), name@) >= 0,
        r is Some ==> r->0 == first_index(table_names_of(tables_view(ts@)), name@),
{
    let ghost names = table_names_of(tables_view(ts@));
    let mut i: usize = 0;
    while i < ts.len()
        invariant
            names == table_names_of(tables_view(ts@)),
            i <= names.len(),
            forall|j: int| 0 <= j < i ==> #[trigger] names[j] != name@,
        decreases ts.len() - i,
    {
        if ts[i].table_name == *name {
            proof {
                lemma_first_index_found(names, name@, i as int);
            }
            return Some(i);
        }
        i = i + 1;
    }
    proof {
        lemma_first_index_absent(names, name@);
    }
    None
}

/// The diffs of the tables seen in either list of captures, in first-seen order of
/// their names, leaving out the tables that did not change.
pub fn diff_snapshots(
    diff_id: &DiffId,
    snapshot_id1: &SnapshotId,
    snapshot_id2: &SnapshotId,
    table_snapshots1: &Vec<TableSnapshot>,
    table_snapshots2: &Vec<TableSnapshot>,
) -> (r: SnapshotDiff)
    ensures
        r.diff_id@ == diff_id@,
        r.snapshot_id1@ == snapshot_id1@,
        r.snapshot_id2@ == snapshot_id2@,
        table_diffs_match(
            table_diffs_view(r.table_diffs@),
            all_table_names(tables_view(table_snapshots1@), tables_view(table_snapshots2@)),
            tables_view(table_snapshots1@),
            tables_view(table_snapshots2@),
        ),
{
    let ghost ts1 = tables_view(table_snapshots1@);
    let ghost ts2 = tables_view(table_snapshots2@);
    let mut all: Vec<String> = Vec::new();
    let mut i: usize = 0;
    while i < table_snapshots1.len()
        invariant
            ts1 == tables_view(table_snapshots1@),
            i <= ts1.len(),
            all@.len() == i,
            texts_view(all@) == table_names_of(ts1).subrange(0, i as int),
        decreases table_snapshots1.len() - i,
    {
        assert(table_names_of(ts1)[i as int] == table_snapshots1@[i as int].table_name@);
        assert(all@.len() == i);
        let ghost old_all = all@;
        all.push(table_snapshots1[i].table_name.clone());
        assert(texts_view(all@) =~= texts_view(old_all).push(all@[i as int]@));
        assert(texts_view(all@) =~= table_names_of(ts1).subrange(0, i + 1));
        i = i + 1;
    }
    assert(table_names_of(ts1).subrange(0, ts1.len() as int) =~= table_names_of(ts1));
    let mut i: usize = 0;
    let n1 = table_snapshots1.len();
    while i < table_snapshots2.len()
        invariant
            ts1 == tables_view(table_snapshots1@),
            ts2 == tables_view(table_snapshots2@),
            n1 == ts1.len(),
            i <= ts2.len(),
            all@.len() == n1 + i,
            texts_view(all@) == table_names_of(ts1) + table_names_of(ts2).subrange(0, i as int),
        decreases table_snapshots2.len() - i,
    {
        assert(table_names_of(ts2)[i as int] == table_snapshots2@[i as int].table_name@);
        assert(all@.len() == n1 + i);
        let ghost old_all = all@;
        all.push(table_snapshots2[i].table_name.clone());
        assert(texts_view(all@) =~= texts_view(old_all).push(all@[n1 + i]@));
        assert(texts_view(all@) =~= table_names_of(ts1) + table_names_of(ts2).subrange(0, i + 1));
        i = i + 1;
    }
    assert(table_names_of(ts2).subrange(0, ts2.len() as int) =~= table_names_of(ts2));
    let names = distinct_texts(&all);
    let ghost nv = texts_view(names@);
    let mut diffs: Vec<TableDiff> = Vec::new();
    let mut i: usize = 0;
    assert(nv.subrange(0, 0) =~= Seq::<Seq<char>>::empty());
    while i < names.len()
        invariant
            ts1 == tables_view(table_snapshots1@),
            ts2 == tables_view(table_snapshots2@),
            nv == texts_view(names@),
            nv == all_table_names(ts1, ts2),
            i <= nv.len(),
            table_diffs_match(table_diffs_view(diffs@), nv.subrange(0, i as int), ts1, ts2),
        decreases names.len() - i,
    {
        let name = &names[i];
        let ghost prefix = nv.subrange(0, i + 1);
        assert(prefix.drop_last() =~= nv.subrange(0, i as int));
        assert(prefix.last() == name@);
        proof {
            lemma_distinct_contains(table_names_of(ts1) + table_names_of(ts2), name@);
            assert(nv.contains(name@)) by {
                assert(nv[i as int] == name@);
            }
            let both = table_names_of(ts1) + table_names_of(ts2);
            let j = choose|j: int| 0 <= j < both.len() && both[j] == name@;
            if j < ts1.len() {
                assert(table_names_of(ts1)[j] == name@);
            } else {
                assert(table_names_of(ts2)[j - ts1.len()] == name@);
            }
            lemma_first_index_bounds(table_names_of(ts1), name@);
            lemma_first_index_bounds(table_names_of(ts2), name@);
        }
        let found1 = find_table(table_snapshots1, name);
        let found2 = find_table(table_snapshots2, name);
        let ghost sides = pair_sides(table_of(ts1, name@), table_of(ts2, name@));
        let d = match found1 {
            Some(a) => match found2 {
                Some(b) => create_table_diff(Some(&table_snapshots1[a]), Some(&table_snapshots2[b])),
                None => create_table_diff(Some(&table_snapshots1[a]), None),
            },
            None => create_table_diff(None, Some(&table_snapshots2[found2.unwrap()])),
        };
        assert(is_table_diff(d@, sides.0, sides.1));
        proof {
            lemma_diff_empty_iff_unchanged(d@, sides.0, sides.1);
        }
        let ghost before = table_diffs_view(diffs@);
        if !d.is_empty() {
            diffs.push(d);
            assert(table_diffs_view(diffs@).drop_last() =~= before);
        }
        i = i + 1;
    }
    assert(nv.subrange(0, nv.len() as int) =~= nv);
    SnapshotDiff::new(diff_id, snapshot_id1, snapshot_id2, diffs)
}

/// Compares two captures under a fresh diff id.
pub fn create_snapshot_diff(
    snapshot_id1: &SnapshotId,
    snapshot_id2: &SnapshotId,
    table_snapshots1: &Vec<TableSnapshot>,
    table_snapshots2: &Vec<TableSnapshot>,
) -> (r: SnapshotDiff)
    ensures
        r.snapshot_id1@ == snapshot_id1@,
        r.snapshot_id2@ == snapshot_id2@,
        table_diffs_match(
            table_diffs_view(r.table_diffs@),
            all_table_names(tables_view(table_snapshots1@), tables_view(table_snapshots2@)),
            tables_view(table_snapshots1@),
            tables_view(table_snapshots2@),
        ),
{
    let diff_id = create_diff_id();
    diff_snapshots(&diff_id, snapshot_id1, snapshot_id2, table_snapshots1, table_snapshots2)
}

} // verus!
