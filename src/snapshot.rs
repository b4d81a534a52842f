use vstd::prelude::*;

use crate::digest::{md5_hex, md5_hex_of};
use crate::seqs::{distinct, lemma_prefix_contains, interleave, lemma_interleave_push_both, lemma_interleave_push_left, lemma_interleave_push_right, strictly_sorted};
use crate::text::{concat_spec, contains_text, join, join_spec, strict_total, texts_view};
use crate::value::{hash_part_of, key_order, lemma_key_order, values_view, ColValue, PrimaryColValues, ValueView};

verus! {

pub type SnapshotId = String;

pub type SnapshotName = String;

/// Relies on uuid::Uuid::new_v4 and its `Display` form: a fresh random identifier.
#[verifier::external_body]
pub(crate) fn new_uuid_text() -> (r: String) {
    uuid::Uuid::new_v4().to_string()
}

/// Relies on chrono::Local::now and `DateTime::format`: the local time now, written
/// with the given `strftime` pattern. Formatting fails (and `format!` panics) on a
/// pattern that chrono cannot parse, so only the one pattern used here is admitted.
#[verifier::external_body]
pub(crate) fn local_now_formatted(pattern: &str) -> (r: String)
    requires
        pattern@ == "%Y-%m-%d %H:%M:%S"@,
{
    format!("{}", chrono::Local::now().format(pattern))
}

/// A fresh identifier for a snapshot.
pub fn create_snapshot_id() -> SnapshotId {
    new_uuid_text()
}

/// The name and creation time of one capture.
#[derive(Debug, PartialEq, Eq)]
pub struct SnapshotSummary {
    pub snapshot_id: SnapshotId,
    pub snapshot_name: SnapshotName,
    pub create_at: String,
}

impl SnapshotSummary {
    /// A summary created now, stamped with the local time.
    pub fn create(snapshot_id: &SnapshotId, snapshot_name: &SnapshotName) -> (r: Self)
        ensures
            r.snapshot_id@ == snapshot_id@,
            r.snapshot_name@ == snapshot_name@,
    {
        let create_at = local_now_formatted("%Y-%m-%d %H:%M:%S");
        Self { snapshot_id: snapshot_id.clone(), snapshot_name: snapshot_name.clone(), create_at }
    }

    pub fn new(snapshot_id: &SnapshotId, snapshot_name: &str, create_at: &str) -> (r: Self)
        ensures
            r.snapshot_id@ == snapshot_id@,
            r.snapshot_name@ == snapshot_name@,
            r.create_at@ == create_at@,
    {
        Self {
            snapshot_id: snapshot_id.clone(),
            snapshot_name: String::from_str(snapshot_name),
            create_at: String::from_str(create_at),
        }
    }
}

/// The model of a captured row.
pub struct RowView {
    pub key: Seq<ValueView>,
    pub values: Seq<ValueView>,
    pub hash: Seq<char>,
}

/// The hash contributions of the values, in order.
pub open spec fn hash_parts_of(vs: Seq<ValueView>) -> Seq<Seq<char>> {
    vs.map_values(|v: ValueView| hash_part_of(v))
}

/// The hash of a row: the digest of the hash contributions of the key values,
/// then the other values, joined by commas.
pub open spec fn row_hash_of(key: Seq<ValueView>, values: Seq<ValueView>) -> Seq<char> {
    md5_hex_of(join_spec(hash_parts_of(key + values), ","@))
}

/// One captured row: its key, the values of the other columns and a hash of all of them.
#[derive(Debug, PartialEq, Eq)]
pub struct RowSnapshot {
    pub primary_col_values: PrimaryColValues,
    pub col_values: Vec<ColValue>,
    pub hash: String,
}

impl View for RowSnapshot {
    type V = RowView;

    open spec fn view(&self) -> RowView {
        RowView { key: self.primary_col_values@, values: values_view(self.col_values@), hash: self.hash@ }
    }
}

impl RowSnapshot {
    pub fn new(primary_col_values: Vec<ColValue>, col_values: Vec<ColValue>) -> (r: Self)
        ensures
            r@.key == values_view(primary_col_values@),
            r@.values == values_view(col_values@),
            r@.hash == row_hash_of(values_view(primary_col_values@), values_view(col_values@)),
    {
        let mut parts: Vec<String> = Vec::new();
        let ghost all = values_view(primary_col_values@) + values_view(col_values@);
        let mut i: usize = 0;
        while i < primary_col_values.len()
            invariant
                i <= primary_col_values@.len(),
                all == values_view(primary_col_values@) + values_view(col_values@),
                parts@.len() == i,
                forall|j: int| 0 <= j < i ==> #[trigger] parts@[j]@ == hash_part_of(all[j]),
            decreases primary_col_values.len() - i,
        {
            parts.push(primary_col_values[i].as_hash_parts());
            i = i + 1;
        }
        let n = primary_col_values.len();
        let mut i: usize = 0;
        while i < col_values.len()
            invariant
                i <= col_values@.len(),
                n == primary_col_values@.len(),
                all == values_view(primary_col_values@) + values_view(col_values@),
                parts@.len() == n + i,
                forall|j: int| 0 <= j < n + i ==> #[trigger] parts@[j]@ == hash_part_of(all[j]),
            decreases col_values.len() - i,
        {
            parts.push(col_values[i].as_hash_parts());
            i = i + 1;
        }
        assert(texts_view(parts@) =~= hash_parts_of(all));
        let joined = join(&parts, ",");
        let hash = md5_hex(joined.as_str());
        Self { primary_col_values: PrimaryColValues::new(primary_col_values), col_values, hash }
    }
}

/// The model of a captured table.
pub struct TableView {
    pub table_name: Seq<char>,
    pub primary_col_name: Seq<char>,
    pub col_names: Seq<Seq<char>>,
    pub hash: Seq<char>,
    pub rows: Seq<RowView>,
}

pub open spec fn rows_view(rows: Seq<RowSnapshot>) -> Seq<RowView> {
    rows.map_values(|r: RowSnapshot| r@)
}

/// The keys of the rows, in row order.
pub open spec fn keys_of(rows: Seq<RowView>) -> Seq<Seq<ValueView>> {
    rows.map_values(|r: RowView| r.key)
}

pub open spec fn keys_view(v: Seq<PrimaryColValues>) -> Seq<Seq<ValueView>> {
    v.map_values(|k: PrimaryColValues| k@)
}

/// The hash of a table: the digest of the key column name, the column names
/// and the row hashes, one after the other.
pub open spec fn table_hash_of(primary_col_name: Seq<char>, col_names: Seq<Seq<char>>, rows: Seq<RowView>) -> Seq<char> {
    md5_hex_of(primary_col_name + concat_spec(col_names) + concat_spec(rows.map_values(|r: RowView| r.hash)))
}

/// The ordered union of two lists of column names: position by position, the name of
/// the first list and then that of the second, each name where it is first seen.
pub open spec fn merged_col_names(a: Seq<Seq<char>>, b: Seq<Seq<char>>) -> Seq<Seq<char>> {
    distinct(interleave(a, b))
}

/// The sorted union of two lists of keys, each key once.
pub open spec fn is_key_union(r: Seq<Seq<ValueView>>, a: Seq<Seq<ValueView>>, b: Seq<Seq<ValueView>>) -> bool {
    &&& strictly_sorted(r, key_order())
    &&& forall|k: Seq<ValueView>| #[trigger] r.contains(k) <==> a.contains(k) || b.contains(k)
}

/// One capture of a table.
#[derive(Debug, PartialEq, Eq)]
pub struct TableSnapshot {
    pub table_name: String,
    pub primary_col_name: String,
    pub col_names: Vec<String>,
    pub hash: String,
    pub row_snapshots: Vec<RowSnapshot>,
}

impl View for TableSnapshot {
    type V = TableView;

    open spec fn view(&self) -> TableView {
        TableView {
            table_name: self.table_name@,
            primary_col_name: self.primary_col_name@,
            col_names: texts_view(self.col_names@),
            hash: self.hash@,
            rows: rows_view(self.row_snapshots@),
        }
    }
}

/// Every row holds one value for each column name.
pub open spec fn table_wf(t: TableView) -> bool {
    forall|i: int| 0 <= i < t.rows.len() ==> (#[trigger] t.rows[i]).values.len() == t.col_names.len()
}

/// Inserts `k` into the sorted `v`, unless it is there already.
fn insert_key(v: &mut Vec<PrimaryColValues>, k: &PrimaryColValues)
    requires
        strictly_sorted(keys_view(old(v)@), key_order()),
    ensures
        strictly_sorted(keys_view(final(v)@), key_order()),
        forall|x: Seq<ValueView>| #[trigger] keys_view(final(v)@).contains(x) <==> keys_view(old(v)@).contains(x) || x == k@,
{
    proof {
        lemma_key_order();
    }
    let ghost lt = key_order();
    let ghost ov = keys_view(v@);
    let mut i: usize = 0;
    while i < v.len() && v[i].less_than(k)
        invariant
            lt == key_order(),
            strict_total(lt),
            ov == keys_view(v@),
            i <= v@.len(),
            forall|j: int| 0 <= j < i ==> #[trigger] lt(ov[j], k@),
        decreases v.len() - i,
    {
        i = i + 1;
    }
    if i < v.len() && v[i].same_as(k) {
        assert(ov[i as int] == k@);
        assert forall|x: Seq<ValueView>| #[trigger] ov.contains(x) <==> ov.contains(x) || x == k@ by {
            if x == k@ {
                assert(ov[i as int] == x);
            }
        }
        return;
    }
    proof {
        if i < ov.len() {
            assert(ov[i as int] != k@);
            assert(!lt(ov[i as int], k@));
            assert(lt(k@, ov[i as int]));
        }
    }
    v.insert(i, k.copy_key());
    proof {
        let nv = keys_view(v@);
        assert(nv =~= ov.insert(i as int, k@));
        assert forall|a: int, b: int| 0 <= a < b < nv.len() implies #[trigger] lt(nv[a], nv[b]) by {
            if a < i && b < i {
                assert(lt(ov[a], ov[b]));
            } else if a < i && b == i {
            } else if a < i {
                assert(lt(ov[a], k@));
                assert(lt(k@, ov[i as int]));
                if b - 1 > i {
                    assert(lt(ov[i as int], ov[b - 1]));
                    assert(lt(k@, ov[b - 1]));
                }
                assert(lt(ov[a], ov[b - 1]));
            } else if a == i {
                if b - 1 > i {
                    assert(lt(ov[i as int], ov[b - 1]));
                }
            } else {
                assert(lt(ov[a - 1], ov[b - 1]));
            }
        }
        assert forall|x: Seq<ValueView>| #[trigger] nv.contains(x) <==> ov.contains(x) || x == k@ by {
            if nv.contains(x) {
                let j = choose|j: int| 0 <= j < nv.len() && nv[j] == x;
                if j < i {
                    assert(ov[j] == x);
                } else if j > i {
                    assert(ov[j - 1] == x);
                }
            }
            if ov.contains(x) {
                let j = choose|j: int| 0 <= j < ov.len() && ov[j] == x;
                if j < i {
                    assert(nv[j] == x);
                } else {
                    assert(nv[j + 1] == x);
                }
            }
            if x == k@ {
                assert(nv[i as int] == x);
            }
        }
    }
}

impl TableSnapshot {
    /// A table capture, with its hash computed from the key column name, the column
    /// names and the row hashes.
    pub fn new(table_name: &String, primary_col_name: String, col_names: Vec<String>, row_snapshots: Vec<RowSnapshot>) -> (r: Self)
        ensures
            r@.table_name == table_name@,
            r@.primary_col_name == primary_col_name@,
            r@.col_names == texts_view(col_names@),
            r@.rows == rows_view(row_snapshots@),
            r@.hash == table_hash_of(primary_col_name@, texts_view(col_names@), rows_view(row_snapshots@)),
    {
        let mut hashes: Vec<String> = Vec::new();
        let mut i: usize = 0;
        while i < row_snapshots.len()
            invariant
                i <= row_snapshots@.len(),
                hashes@.len() == i,
                forall|j: int| 0 <= j < i ==> #[trigger] hashes@[j]@ == row_snapshots@[j].hash@,
            decreases row_snapshots.len() - i,
        {
            hashes.push(row_snapshots[i].hash.clone());
            i = i + 1;
        }
        assert(texts_view(hashes@) =~= rows_view(row_snapshots@).map_values(|r: RowView| r.hash));
        let mut text = primary_col_name.clone();
        let names = join(&col_names, "");
        let row_hashes = join(&hashes, "");
        text.append(names.as_str());
        text.append(row_hashes.as_str());
        proof {
            reveal_strlit("");
            assert(""@ =~= Seq::<char>::empty());
        }
        let hash = md5_hex(text.as_str());
        Self { table_name: table_name.clone(), primary_col_name, col_names, hash, row_snapshots }
    }

    /// The keys of the rows, in row order.
    pub fn get_primary_col_values_vec(&self) -> (r: Vec<PrimaryColValues>)
        ensures
            keys_view(r@) == keys_of(self@.rows),
    {
        let mut r: Vec<PrimaryColValues> = Vec::new();
        let mut i: usize = 0;
        while i < self.row_snapshots.len()
            invariant
                i <= self.row_snapshots@.len(),
                r@.len() == i,
                forall|j: int| 0 <= j < i ==> #[trigger] r@[j]@ == self.row_snapshots@[j]@.key,
            decreases self.row_snapshots.len() - i,
        {
            r.push(self.row_snapshots[i].primary_col_values.copy_key());
            i = i + 1;
        }
        assert(keys_view(r@) =~= keys_of(self@.rows));
        r
    }

    /// The keys of both captures, each once, in ascending key order.
    pub fn merge_primary_col_values_vec(&self, other: &Self) -> (r: Vec<PrimaryColValues>)
        ensures
            is_key_union(keys_view(r@), keys_of(self@.rows), keys_of(other@.rows)),
    {
        let ghost a = keys_of(self@.rows);
        let ghost b = keys_of(other@.rows);
        let mut r: Vec<PrimaryColValues> = Vec::new();
        let mut i: usize = 0;
        while i < self.row_snapshots.len()
            invariant
                a == keys_of(self@.rows),
                i <= a.len(),
                strictly_sorted(keys_view(r@), key_order()),
                forall|k: Seq<ValueView>| #[trigger] keys_view(r@).contains(k) <==> a.subrange(0, i as int).contains(k),
            decreases self.row_snapshots.len() - i,
        {
            insert_key(&mut r, &self.row_snapshots[i].primary_col_values);
            proof {
                assert forall|k: Seq<ValueView>| #[trigger] a.subrange(0, i + 1).contains(k) <==> a.subrange(0, i as int).contains(k) || k == a[i as int] by {
                    lemma_prefix_contains(a, i as int, k);
                }
            }
            i = i + 1;
        }
        assert(a.subrange(0, a.len() as int) =~= a);
        let mut i: usize = 0;
        while i < other.row_snapshots.len()
            invariant
                a == keys_of(self@.rows),
                b == keys_of(other@.rows),
                i <= b.len(),
                strictly_sorted(keys_view(r@), key_order()),
                forall|k: Seq<ValueView>| #[trigger] keys_view(r@).contains(k) <==> a.contains(k) || b.subrange(0, i as int).contains(k),
            decreases other.row_snapshots.len() - i,
        {
            insert_key(&mut r, &other.row_snapshots[i].primary_col_values);
            proof {
                assert forall|k: Seq<ValueView>| #[trigger] b.subrange(0, i + 1).contains(k) <==> b.subrange(0, i as int).contains(k) || k == b[i as int] by {
                    lemma_prefix_contains(b, i as int, k);
                }
            }
            i = i + 1;
        }
        assert(b.subrange(0, b.len() as int) =~= b);
        r
    }

    /// The column names of both captures, each once: position by position, the name of
    /// this capture and then that of `other`, where it is first seen.
    pub fn merge_col_names(&self, other: &Self) -> (r: Vec<String>)
        ensures
            texts_view(r@) == merged_col_names(self@.col_names, other@.col_names),
    {
        let ghost a = self@.col_names;
        let ghost b = other@.col_names;
        let la = self.col_names.len();
        let lb = other.col_names.len();
        let n = if la > lb { la } else { lb };
        let mut r: Vec<String> = Vec::new();
        let mut i: usize = 0;
        while i < n
            invariant
                a == self@.col_names,
                b == other@.col_names,
                la == a.len(),
                lb == b.len(),
                n == if la > lb { la } else { lb },
                i <= n,
                texts_view(r@) == distinct(interleave(
                    a.subrange(0, if i < la { i as int } else { la as int }),
                    b.subrange(0, if i < lb { i as int } else { lb as int }),
                )),
            decreases n - i,
        {
            let ghost pa = a.subrange(0, if i < la { i as int } else { la as int });
            let ghost pb = b.subrange(0, if i < lb { i as int } else { lb as int });
            let ghost before = texts_view(r@);
            if i < la && !contains_text(&r, &self.col_names[i]) {
                r.push(self.col_names[i].clone());
            }
            let ghost mid = texts_view(r@);
            assert(i < la ==> mid == distinct(interleave(pa, pb).push(a[i as int]))) by {
                if i < la {
                    assert(interleave(pa, pb).push(a[i as int]).drop_last() =~= interleave(pa, pb));
                    if !before.contains(a[i as int]) {
                        assert(mid =~= before.push(a[i as int]));
                    }
                }
            }
            if i < lb && !contains_text(&r, &other.col_names[i]) {
                r.push(other.col_names[i].clone());
            }
            proof {
                let na = a.subrange(0, if i + 1 < la { i + 1 } else { la as int });
                let nb = b.subrange(0, if i + 1 < lb { i + 1 } else { lb as int });
                let after = texts_view(r@);
                if i < la && i < lb {
                    assert(na =~= pa.push(a[i as int]));
                    assert(nb =~= pb.push(b[i as int]));
                    lemma_interleave_push_both(pa, pb, a[i as int], b[i as int]);
                    let s = interleave(pa, pb).push(a[i as int]);
                    assert(interleave(na, nb) =~= s.push(b[i as int]));
                    assert(s.push(b[i as int]).drop_last() =~= s);
                    if !mid.contains(b[i as int]) {
                        assert(after =~= mid.push(b[i as int]));
                    }
                } else if i < la {
                    assert(na =~= pa.push(a[i as int]));
                    assert(nb =~= pb);
                    lemma_interleave_push_left(pa, pb, a[i as int]);
                } else if i < lb {
                    assert(na =~= pa);
                    assert(nb =~= pb.push(b[i as int]));
                    lemma_interleave_push_right(pa, pb, b[i as int]);
                    assert(interleave(pa, pb).push(b[i as int]).drop_last() =~= interleave(pa, pb));
                    if !mid.contains(b[i as int]) {
                        assert(after =~= mid.push(b[i as int]));
                    }
                }
            }
            i = i + 1;
        }
        assert(a.subrange(0, la as int) =~= a);
        assert(b.subrange(0, lb as int) =~= b);
        r
    }
}

} // verus!
