use db_diff::diff::ColDiff::{Added, Deleted, NoValue};
use db_diff::diff::{create_diff_id, create_snapshot_diff, create_table_diff, diff_snapshots, ColDiff, RowDiffs};
use db_diff::snapshot::{RowSnapshot, TableSnapshot};
use db_diff::value::ColValue::{SimpleNumber, SimpleString};
use db_diff::value::{ColValue, PrimaryColValues};

fn n(s: &str) -> ColValue {
    SimpleNumber(s.to_string())
}

fn s(s: &str) -> ColValue {
    SimpleString(s.to_string())
}

fn mk_table_snapshot(table_name: &str, primary_col_name: &str, col_names: Vec<&str>, row_snapshots: Vec<RowSnapshot>) -> TableSnapshot {
    TableSnapshot::new(
        &table_name.to_string(),
        primary_col_name.to_string(),
        col_names.iter().map(|col_name| col_name.to_string()).collect(),
        row_snapshots,
    )
}

fn mk_act<'a>(row_diffs: &'a RowDiffs, primary_col_values: &PrimaryColValues, name: &str) -> &'a ColDiff {
    row_diffs.get(&primary_col_values.as_primary_value()).unwrap().get(name).unwrap()
}

#[test]
fn test_row_0_and_row_1() {
    let rows2 = vec![RowSnapshot::new(vec![n("1")], vec![s("John")])];
    let table_snapshot2 = mk_table_snapshot("user", "id", vec!["name"], rows2);

    let act = create_table_diff(None, Some(&table_snapshot2));

    let primary_col_values1 = PrimaryColValues::new(vec![n("1")]);

    assert_eq!(vec![&primary_col_values1], act.primary_col_values_vec.iter().collect::<Vec<_>>());

    assert_eq!(0, act.row_diffs1.len());

    assert_eq!(1, act.row_diffs2.len());
    assert_eq!(&Added(s("John")), mk_act(&act.row_diffs2, &primary_col_values1, "name"));
}

#[test]
fn test_row_1_and_row_0() {
    let rows1 = vec![RowSnapshot::new(vec![n("1")], vec![s("John")])];
    let table_snapshot1 = mk_table_snapshot("user", "id", vec!["name"], rows1);

    let act = create_table_diff(Some(&table_snapshot1), None);

    let primary_col_values1 = PrimaryColValues::new(vec![n("1")]);

    assert_eq!(vec![&primary_col_values1], act.primary_col_values_vec.iter().collect::<Vec<_>>());

    assert_eq!(1, act.row_diffs1.len());
    assert_eq!(&Deleted(s("John")), mk_act(&act.row_diffs1, &primary_col_values1, "name"));

    assert_eq!(0, act.row_diffs2.len());
}

#[test]
fn test_row_1_and_row_1() {
    let rows1 = vec![RowSnapshot::new(vec![n("1")], vec![s("John")])];
    let table_snapshot1 = mk_table_snapshot("user", "id", vec!["name"], rows1);

    let rows2 = vec![RowSnapshot::new(vec![n("1")], vec![s("Jane")])];
    let table_snapshot2 = mk_table_snapshot("user", "id", vec!["name"], rows2);

    let act = create_table_diff(Some(&table_snapshot1), Some(&table_snapshot2));

    let primary_col_values1 = PrimaryColValues::new(vec![n("1")]);

    assert_eq!(vec![&primary_col_values1], act.primary_col_values_vec.iter().collect::<Vec<_>>());

    assert_eq!(1, act.row_diffs1.len());
    assert_eq!(&Deleted(s("John")), mk_act(&act.row_diffs1, &primary_col_values1, "name"));

    assert_eq!(1, act.row_diffs2.len());
    assert_eq!(&Added(s("Jane")), mk_act(&act.row_diffs2, &primary_col_values1, "name"));
}

#[test]
fn test_row_2_and_row_1() {
    let rows1 = vec![RowSnapshot::new(vec![n("1")], vec![s("John")]), RowSnapshot::new(vec![n("2")], vec![s("Jack")])];
    let table_snapshot1 = mk_table_snapshot("user", "id", vec!["name"], rows1);

    let rows2 = vec![RowSnapshot::new(vec![n("1")], vec![s("Jane")])];
    let table_snapshot2 = mk_table_snapshot("user", "id", vec!["name"], rows2);

    let act = create_table_diff(Some(&table_snapshot1), Some(&table_snapshot2));

    let primary_col_values1 = PrimaryColValues::new(vec![n("1")]);
    let primary_col_values2 = PrimaryColValues::new(vec![n("2")]);

    assert_eq!(vec![&primary_col_values1, &primary_col_values2], act.primary_col_values_vec.iter().collect::<Vec<_>>());

    assert_eq!(2, act.row_diffs1.len());
    assert_eq!(&Deleted(s("John")), mk_act(&act.row_diffs1, &primary_col_values1, "name"));
    assert_eq!(&Deleted(s("Jack")), mk_act(&act.row_diffs1, &primary_col_values2, "name"));

    assert_eq!(1, act.row_diffs2.len());
    assert_eq!(&Added(s("Jane")), mk_act(&act.row_diffs2, &primary_col_values1, "name"));
}

// The merged key list holds every key seen on either side, the unchanged key 1 included.
#[test]
fn test_row_1_and_row_2() {
    let rows1 = vec![RowSnapshot::new(vec![n("1")], vec![s("John")])];
    let table_snapshot1 = mk_table_snapshot("user", "id", vec!["name"], rows1);

    let rows2 = vec![RowSnapshot::new(vec![n("1")], vec![s("John")]), RowSnapshot::new(vec![n("2")], vec![s("Jack")])];
    let table_snapshot2 = mk_table_snapshot("user", "id", vec!["name"], rows2);

    let act = create_table_diff(Some(&table_snapshot1), Some(&table_snapshot2));

    let primary_col_values1 = PrimaryColValues::new(vec![n("1")]);
    let primary_col_values2 = PrimaryColValues::new(vec![n("2")]);

    assert_eq!(vec![&primary_col_values1, &primary_col_values2], act.primary_col_values_vec.iter().collect::<Vec<_>>());

    assert_eq!(0, act.row_diffs1.len());

    assert_eq!(1, act.row_diffs2.len());
    assert_eq!(&Added(s("Jack")), mk_act(&act.row_diffs2, &primary_col_values2, "name"));
}

#[test]
fn test_row_1_and_row_1_nomatch_cols() {
    let rows1 = vec![RowSnapshot::new(vec![n("1")], vec![s("John")])];
    let table_snapshot1 = mk_table_snapshot("user", "id", vec!["name"], rows1);

    let rows2 = vec![RowSnapshot::new(vec![n("1")], vec![n("39")])];
    let table_snapshot2 = mk_table_snapshot("user", "id", vec!["age"], rows2);

    let act = create_table_diff(Some(&table_snapshot1), Some(&table_snapshot2));

    let primary_col_values1 = PrimaryColValues::new(vec![n("1")]);

    assert_eq!(vec![&primary_col_values1], act.primary_col_values_vec.iter().collect::<Vec<_>>());

    assert_eq!(1, act.row_diffs1.len());
    assert_eq!(&Deleted(s("John")), mk_act(&act.row_diffs1, &primary_col_values1, "name"));
    assert_eq!(&NoValue, mk_act(&act.row_diffs1, &primary_col_values1, "age"));

    assert_eq!(1, act.row_diffs2.len());
    assert_eq!(&NoValue, mk_act(&act.row_diffs2, &primary_col_values1, "name"));
    assert_eq!(&Added(n("39")), mk_act(&act.row_diffs2, &primary_col_values1, "age"));
}

#[test]
fn test_row_1_and_row_1_primary_value_mismatch() {
    let rows1 = vec![RowSnapshot::new(vec![n("1")], vec![s("John")])];
    let table_snapshot1 = mk_table_snapshot("user", "id", vec!["name"], rows1);

    let rows2 = vec![RowSnapshot::new(vec![n("2")], vec![s("Jane")])];
    let table_snapshot2 = mk_table_snapshot("user", "id", vec!["name"], rows2);

    let act = create_table_diff(Some(&table_snapshot1), Some(&table_snapshot2));

    let primary_col_values1 = PrimaryColValues::new(vec![n("1")]);
    let primary_col_values2 = PrimaryColValues::new(vec![n("2")]);

    assert_eq!(vec![&primary_col_values1, &primary_col_values2], act.primary_col_values_vec.iter().collect::<Vec<_>>());

    assert_eq!(1, act.row_diffs1.len());
    assert_eq!(&Deleted(s("John")), mk_act(&act.row_diffs1, &primary_col_values1, "name"));

    assert_eq!(1, act.row_diffs2.len());
    assert_eq!(&Added(s("Jane")), mk_act(&act.row_diffs2, &primary_col_values2, "name"));
}

#[test]
fn test_row_0_and_row_1_multi_primary_cols() {
    let rows2 = vec![RowSnapshot::new(vec![n("123"), n("789")], vec![s("John")])];
    let table_snapshot2 = mk_table_snapshot("user", "id-code", vec!["name"], rows2);

    let act = create_table_diff(None, Some(&table_snapshot2));

    let primary_col_values1 = PrimaryColValues::new(vec![n("123"), n("789")]);

    assert_eq!(vec![&primary_col_values1], act.primary_col_values_vec.iter().collect::<Vec<_>>());

    assert_eq!(0, act.row_diffs1.len());

    assert_eq!(1, act.row_diffs2.len());
    assert_eq!(&Added(s("John")), mk_act(&act.row_diffs2, &primary_col_values1, "name"));
}

#[test]
fn identical_tables_give_an_empty_diff() {
    let mk = || {
        mk_table_snapshot(
            "user",
            "id",
            vec!["name"],
            vec![RowSnapshot::new(vec![n("1")], vec![s("John")]), RowSnapshot::new(vec![n("2")], vec![s("Jack")])],
        )
    };
    let act = create_table_diff(Some(&mk()), Some(&mk()));
    assert!(act.is_empty());
    assert_eq!(2, act.primary_col_values_vec.len());
}

#[test]
fn identical_snapshots_give_no_table_diffs() {
    let mk = || {
        vec![
            mk_table_snapshot("user", "id", vec!["name"], vec![RowSnapshot::new(vec![n("1")], vec![s("John")])]),
            mk_table_snapshot("item", "code", vec!["price"], vec![RowSnapshot::new(vec![n("7")], vec![n("100")])]),
        ]
    };
    let act = diff_snapshots(&"d".to_string(), &"s1".to_string(), &"s2".to_string(), &mk(), &mk());
    assert_eq!("d", act.diff_id);
    assert_eq!("s1", act.snapshot_id1);
    assert_eq!("s2", act.snapshot_id2);
    assert!(act.table_diffs.is_empty());
}

#[test]
fn snapshot_diff_keeps_changed_tables_in_first_seen_order() {
    let t1 = vec![
        mk_table_snapshot("user", "id", vec!["name"], vec![RowSnapshot::new(vec![n("1")], vec![s("John")])]),
        mk_table_snapshot("same", "id", vec!["name"], vec![RowSnapshot::new(vec![n("1")], vec![s("Sam")])]),
    ];
    let t2 = vec![
        mk_table_snapshot("same", "id", vec!["name"], vec![RowSnapshot::new(vec![n("1")], vec![s("Sam")])]),
        mk_table_snapshot("item", "code", vec!["price"], vec![RowSnapshot::new(vec![n("7")], vec![n("100")])]),
    ];
    let act = diff_snapshots(&"d".to_string(), &"s1".to_string(), &"s2".to_string(), &t1, &t2);
    let names: Vec<&str> = act.table_diffs.iter().map(|d| d.table_name.as_str()).collect();
    assert_eq!(vec!["user", "item"], names);
    assert_eq!(1, act.table_diffs[0].row_diffs1.len());
    assert_eq!(0, act.table_diffs[0].row_diffs2.len());
    assert_eq!(0, act.table_diffs[1].row_diffs1.len());
    assert_eq!(1, act.table_diffs[1].row_diffs2.len());
}

#[test]
fn superset_rows_skip_the_matching_key() {
    let rows1 = vec![RowSnapshot::new(vec![n("1")], vec![s("John")]), RowSnapshot::new(vec![n("2")], vec![s("Jack")])];
    let table_snapshot1 = mk_table_snapshot("user", "id", vec!["name"], rows1);
    let rows2 = vec![RowSnapshot::new(vec![n("1")], vec![s("John")])];
    let table_snapshot2 = mk_table_snapshot("user", "id", vec!["name"], rows2);

    let act = create_table_diff(Some(&table_snapshot1), Some(&table_snapshot2));

    let primary_col_values1 = PrimaryColValues::new(vec![n("1")]);
    let primary_col_values2 = PrimaryColValues::new(vec![n("2")]);
    assert_eq!(vec![&primary_col_values1, &primary_col_values2], act.primary_col_values_vec.iter().collect::<Vec<_>>());
    assert_eq!(1, act.row_diffs1.len());
    assert!(act.row_diffs1.get("1").is_none());
    assert_eq!(&Deleted(s("Jack")), mk_act(&act.row_diffs1, &primary_col_values2, "name"));
    assert_eq!(0, act.row_diffs2.len());
}

#[test]
fn equal_hashes_are_trusted_over_values() {
    let row1 = RowSnapshot { primary_col_values: PrimaryColValues::new(vec![n("1")]), col_values: vec![s("John")], hash: "h".to_string() };
    let row2 = RowSnapshot { primary_col_values: PrimaryColValues::new(vec![n("1")]), col_values: vec![s("Jane")], hash: "h".to_string() };
    let table_snapshot1 = mk_table_snapshot("user", "id", vec!["name"], vec![row1]);
    let table_snapshot2 = mk_table_snapshot("user", "id", vec!["name"], vec![row2]);

    let act = create_table_diff(Some(&table_snapshot1), Some(&table_snapshot2));

    assert!(act.is_empty());
    assert_eq!(1, act.primary_col_values_vec.len());
}

#[test]
fn keys_are_merged_in_ascending_order() {
    let rows1 = vec![RowSnapshot::new(vec![n("3")], vec![s("C")]), RowSnapshot::new(vec![n("1")], vec![s("A")])];
    let rows2 = vec![RowSnapshot::new(vec![n("2")], vec![s("B")]), RowSnapshot::new(vec![n("1")], vec![s("A")])];
    let table_snapshot1 = mk_table_snapshot("user", "id", vec!["name"], rows1);
    let table_snapshot2 = mk_table_snapshot("user", "id", vec!["name"], rows2);

    let act = table_snapshot1.merge_primary_col_values_vec(&table_snapshot2);

    let keys: Vec<String> = act.iter().map(|k| k.as_primary_value()).collect();
    assert_eq!(vec!["1", "2", "3"], keys);
}

#[test]
fn column_names_merge_in_first_seen_order() {
    let table_snapshot1 = mk_table_snapshot("t", "id", vec!["a", "b"], vec![]);
    let table_snapshot2 = mk_table_snapshot("t", "id", vec!["b", "c"], vec![]);

    assert_eq!(vec!["a", "b", "c"], table_snapshot1.merge_col_names(&table_snapshot2));
    assert_eq!(vec!["b", "a", "c"], table_snapshot2.merge_col_names(&table_snapshot1));
}

#[test]
fn unchanged_column_stays_on_both_sides() {
    let rows1 = vec![RowSnapshot::new(vec![n("1")], vec![s("John"), n("30")])];
    let rows2 = vec![RowSnapshot::new(vec![n("1")], vec![s("John"), n("31")])];
    let table_snapshot1 = mk_table_snapshot("user", "id", vec!["name", "age"], rows1);
    let table_snapshot2 = mk_table_snapshot("user", "id", vec!["name", "age"], rows2);

    let act = create_table_diff(Some(&table_snapshot1), Some(&table_snapshot2));

    let key = PrimaryColValues::new(vec![n("1")]);
    assert_eq!(&ColDiff::Stay(s("John")), mk_act(&act.row_diffs1, &key, "name"));
    assert_eq!(&ColDiff::Stay(s("John")), mk_act(&act.row_diffs2, &key, "name"));
    assert_eq!(&Deleted(n("30")), mk_act(&act.row_diffs1, &key, "age"));
    assert_eq!(&Added(n("31")), mk_act(&act.row_diffs2, &key, "age"));
}

#[test]
fn fresh_diff_ids() {
    let a = create_diff_id();
    let b = create_diff_id();
    assert_eq!(36, a.len());
    assert_ne!(a, b);

    let t1 = vec![mk_table_snapshot("user", "id", vec!["name"], vec![RowSnapshot::new(vec![n("1")], vec![s("John")])])];
    let act = create_snapshot_diff(&"s1".to_string(), &"s2".to_string(), &t1, &vec![]);
    assert_eq!(36, act.diff_id.len());
    assert_eq!(1, act.table_diffs.len());
    assert_eq!(1, act.table_diffs[0].row_diffs1.len());
}
