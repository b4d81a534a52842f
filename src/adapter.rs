use vstd::prelude::*;

use crate::dump_config::{default_value, DumpConfig, DumpConfigView};
use crate::schema::{schemas_view, ColSchema, ColSchemaView, TableSchema};
use crate::seqs::distinct;
use crate::snapshot::{row_hash_of, RowSnapshot};
use crate::text::{join, join_spec, same_text, texts_view};
use crate::value::{values_view, ColValue, ValueView};

verus! {

/// A source database: lists its tables and reads their rows.
pub trait TargetDbAdapter {
    fn get_dump_configs(&mut self) -> Result<Vec<DumpConfig>, String>;

    fn get_table_schemata(&mut self) -> Result<Vec<TableSchema>, String>;

    fn get_row_snapshots(&mut self, table_schema: &TableSchema, dump_config_value: &str) -> Result<Vec<RowSnapshot>, String>;
}

/// The kind of value a column of the declared type `dt` holds, read as the text `v`.
pub open spec fn parse_value_spec(dt: Seq<char>, v: Seq<char>) -> ValueView {
    if dt == "tinyint"@ || dt == "smallint"@ || dt == "mediumint"@ || dt == "int"@ || dt == "bigint"@ || dt == "decimal"@
        || dt == "float"@ || dt == "double"@ {
        ValueView::SimpleNumber(v)
    } else if dt == "bit"@ {
        ValueView::BitNumber(v)
    } else if dt == "date"@ || dt == "time"@ || dt == "datetime"@ || dt == "timestamp"@ || dt == "year"@ {
        ValueView::DateString(v)
    } else if dt == "char"@ || dt == "varchar"@ || dt == "tinytext"@ || dt == "mediumtext"@ || dt == "text"@
        || dt == "longtext"@ || dt == "enum"@ || dt == "set"@ {
        ValueView::SimpleString(v)
    } else if dt == "binary"@ || dt == "varbinary"@ || dt == "tinyblob"@ || dt == "mediumblob"@ || dt == "blob"@
        || dt == "longblob"@ {
        ValueView::BinaryString(v)
    } else if dt == "json"@ {
        ValueView::JsonString(v)
    } else {
        ValueView::ParseError
    }
}

/// The value read for a column; a missing value is null.
pub open spec fn cell_value(col: ColSchemaView, v: Option<Seq<char>>) -> ValueView {
    match v {
        Some(t) => parse_value_spec(col.data_type, t),
        None => ValueView::Null,
    }
}

/// The value of a column, typed by the column's declared data type. Types that are
/// not known become a parse error.
pub fn parse_col_value(col_schema: &ColSchema, value: String) -> (r: ColValue)
    ensures
        r@ == parse_value_spec(col_schema.data_type@, value@),
{
    let dt = col_schema.data_type.as_str();
    if same_text(dt, "tinyint") || same_text(dt, "smallint") || same_text(dt, "mediumint") || same_text(dt, "int")
        || same_text(dt, "bigint") || same_text(dt, "decimal") || same_text(dt, "float") || same_text(dt, "double") {
        ColValue::SimpleNumber(value)
    } else if same_text(dt, "bit") {
        ColValue::BitNumber(value)
    } else if same_text(dt, "date") || same_text(dt, "time") || same_text(dt, "datetime") || same_text(dt, "timestamp")
        || same_text(dt, "year") {
        ColValue::DateString(value)
    } else if same_text(dt, "char") || same_text(dt, "varchar") || same_text(dt, "tinytext") || same_text(dt, "mediumtext")
        || same_text(dt, "text") || same_text(dt, "longtext") || same_text(dt, "enum") || same_text(dt, "set") {
        ColValue::SimpleString(value)
    } else if same_text(dt, "binary") || same_text(dt, "varbinary") || same_text(dt, "tinyblob") || same_text(dt, "mediumblob")
        || same_text(dt, "blob") || same_text(dt, "longblob") {
        ColValue::BinaryString(value)
    } else if same_text(dt, "json") {
        ColValue::JsonString(value)
    } else {
        ColValue::ParseError
    }
}

/// How a column is selected: bit fields as their binary digits, the others as they are.
pub open spec fn select_col_spec(col: ColSchemaView) -> Seq<char> {
    if col.data_type == "bit"@ {
        "bin(`"@ + col.col_name + "`)"@
    } else {
        "`"@ + col.col_name + "`"@
    }
}

pub fn as_select_col(col: &ColSchema) -> (r: String)
    ensures
        r@ == select_col_spec(col@),
{
    if same_text(col.data_type.as_str(), "bit") {
        let mut r = String::from_str("bin(`");
        r.append(col.col_name.as_str());
        r.append("`)");
        r
    } else {
        let mut r = String::from_str("`");
        r.append(col.col_name.as_str());
        r.append("`");
        r
    }
}

/// All columns of a table, key columns first.
pub open spec fn all_cols(t: TableSchema) -> Seq<ColSchemaView> {
    schemas_view(t.primary_cols@) + schemas_view(t.cols@)
}

/// The query that reads up to a thousand rows of a table, ordered by the chosen
/// column unless the choice is `limited`.
pub open spec fn select_query_spec(t: TableSchema, dump_config_value: Seq<char>) -> Seq<char> {
    "select "@ + join_spec(all_cols(t).map_values(|c: ColSchemaView| select_col_spec(c)), ","@) + " from `"@
        + t.table_name@ + "` "@ + (if dump_config_value == "limited"@ {
        Seq::empty()
    } else {
        "order by "@ + dump_config_value
    }) + " limit 1000"@
}

pub fn select_query(table_schema: &TableSchema, dump_config_value: &str) -> (r: String)
    ensures
        r@ == select_query_spec(*table_schema, dump_config_value@),
{
    let ghost cols = all_cols(*table_schema);
    let mut parts: Vec<String> = Vec::new();
    let mut i: usize = 0;
    while i < table_schema.primary_cols.len()
        invariant
            cols == all_cols(*table_schema),
            i <= table_schema.primary_cols@.len(),
            parts@.len() == i,
            forall|j: int| 0 <= j < i ==> #[trigger] parts@[j]@ == select_col_spec(cols[j]),
        decreases table_schema.primary_cols.len() - i,
    {
        parts.push(as_select_col(&table_schema.primary_cols[i]));
        i = i + 1;
    }
    let n = table_schema.primary_cols.len();
    let mut i: usize = 0;
    while i < table_schema.cols.len()
        invariant
            cols == all_cols(*table_schema),
            n == table_schema.primary_cols@.len(),
            i <= table_schema.cols@.len(),
            parts@.len() == n + i,
            forall|j: int| 0 <= j < n + i ==> #[trigger] parts@[j]@ == select_col_spec(cols[j]),
        decreases table_schema.cols.len() - i,
    {
        parts.push(as_select_col(&table_schema.cols[i]));
        i = i + 1;
    }
    assert(texts_view(parts@) =~= cols.map_values(|c: ColSchemaView| select_col_spec(c)));
    let mut r = String::from_str("select ");
    let joined = join(&parts, ",");
    r.append(joined.as_str());
    r.append(" from `");
    r.append(table_schema.table_name.as_str());
    r.append("` ");
    if !same_text(dump_config_value, "limited") {
        r.append("order by ");
        r.append(dump_config_value);
    }
    r.append(" limit 1000");
    r
}

pub open spec fn opt_text(v: Option<String>) -> Option<Seq<char>> {
    match v {
        Some(t) => Some(t@),
        None => None,
    }
}

pub open spec fn opt_texts(v: Seq<Option<String>>) -> Seq<Option<Seq<char>>> {
    v.map_values(|o: Option<String>| opt_text(o))
}

/// The values of one row read in the order of `all_cols`.
pub open spec fn row_values_spec(cols: Seq<ColSchemaView>, values: Seq<Option<Seq<char>>>) -> Seq<ValueView> {
    Seq::new(cols.len(), |i: int| cell_value(cols[i], values[i]))
}

fn read_cell(col: &ColSchema, v: &Option<String>) -> (r: ColValue)
    ensures
        r@ == cell_value(col@, opt_text(*v)),
{
    match v {
        Some(t) => parse_col_value(col, t.clone()),
        None => ColValue::Null,
    }
}

/// A captured row from the texts read for each column, key columns first; a missing
/// value is null.
pub fn parse_row(table_schema: &TableSchema, values: &Vec<Option<String>>) -> (r: RowSnapshot)
    requires
        values@.len() == table_schema.primary_cols@.len() + table_schema.cols@.len(),
    ensures
        r@.key == row_values_spec(schemas_view(table_schema.primary_cols@), opt_texts(values@).subrange(0, table_schema.primary_cols@.len() as int)),
        r@.values == row_values_spec(schemas_view(table_schema.cols@), opt_texts(values@).subrange(table_schema.primary_cols@.len() as int, values@.len() as int)),
        r@.hash == row_hash_of(r@.key, r@.values),
{
    let ghost ov = opt_texts(values@);
    let n = table_schema.primary_cols.len();
    let mut key: Vec<ColValue> = Vec::new();
    let mut i: usize = 0;
    while i < n
        invariant
            n == table_schema.primary_cols@.len(),
            values@.len() == n + table_schema.cols@.len(),
            ov == opt_texts(values@),
            i <= n,
            key@.len() == i,
            forall|j: int| 0 <= j < i ==> #[trigger] key@[j]@ == cell_value(table_schema.primary_cols@[j]@, ov[j]),
        decreases n - i,
    {
        key.push(read_cell(&table_schema.primary_cols[i], &values[i]));
        i = i + 1;
    }
    let mut others: Vec<ColValue> = Vec::new();
    let m = values.len();
    let mut i: usize = 0;
    while i < table_schema.cols.len()
        invariant
            m == values@.len(),
            n == table_schema.primary_cols@.len(),
            values@.len() == n + table_schema.cols@.len(),
            ov == opt_texts(values@),
            i <= table_schema.cols@.len(),
            others@.len() == i,
            forall|j: int| 0 <= j < i ==> #[trigger] others@[j]@ == cell_value(table_schema.cols@[j]@, ov[n + j]),
        decreases table_schema.cols.len() - i,
    {
        others.push(read_cell(&table_schema.cols[i], &values[n + i]));
        i = i + 1;
    }
    assert(values_view(key@) =~= row_values_spec(schemas_view(table_schema.primary_cols@), ov.subrange(0, n as int)));
    assert(values_view(others@) =~= row_values_spec(schemas_view(table_schema.cols@), ov.subrange(n as int, values@.len() as int)));
    RowSnapshot::new(key, others)
}

pub open spec fn pairs_view(v: Seq<(String, String)>) -> Seq<(Seq<char>, Seq<char>)> {
    v.map_values(|p: (String, String)| (p.0@, p.1@))
}

/// The column names listed for table `t`, in their order.
pub open spec fn columns_of(rows: Seq<(Seq<char>, Seq<char>)>, t: Seq<char>) -> Seq<Seq<char>>
    decreases rows.len(),
{
    if rows.len() == 0 {
        Seq::empty()
    } else if rows.last().0 == t {
        columns_of(rows.drop_last(), t).push(rows.last().1)
    } else {
        columns_of(rows.drop_last(), t)
    }
}

fn columns_for(rows: &Vec<(String, String)>, t: &String) -> (r: Vec<String>)
    ensures
        texts_view(r@) == columns_of(pairs_view(rows@), t@),
{
    let ghost pv = pairs_view(rows@);
    let mut r: Vec<String> = Vec::new();
    let mut i: usize = 0;
    assert(pv.subrange(0, 0) =~= Seq::<(Seq<char>, Seq<char>)>::empty());
    while i < rows.len()
        invariant
            pv == pairs_view(rows@),
            i <= pv.len(),
            texts_view(r@) == columns_of(pv.subrange(0, i as int), t@),
        decreases rows.len() - i,
    {
        assert(pv.subrange(0, i + 1).drop_last() =~= pv.subrange(0, i as int));
        assert(pv.subrange(0, i + 1).last() == (rows@[i as int].0@, rows@[i as int].1@));
        let ghost before = texts_view(r@);
        if rows[i].0 == *t {
            r.push(rows[i].1.clone());
            assert(texts_view(r@) =~= before.push(rows@[i as int].1@));
        }
        i = i + 1;
    }
    assert(pv.subrange(0, pv.len() as int) =~= pv);
    r
}

/// One configuration per table listed in `rows` (pairs of table name and column name,
/// in column order), in first-seen order of the tables, each with its default choice.
pub fn group_dump_configs(rows: &Vec<(String, String)>) -> (r: Vec<DumpConfig>)
    ensures
        r@.len() == distinct(pairs_view(rows@).map_values(|p: (Seq<char>, Seq<char>)| p.0)).len(),
        forall|i: int| 0 <= i < r@.len() ==> #[trigger] r@[i]@ == ({
            let t = distinct(pairs_view(rows@).map_values(|p: (Seq<char>, Seq<char>)| p.0))[i];
            DumpConfigView { table_name: t, col_names: columns_of(pairs_view(rows@), t), value: default_value(columns_of(pairs_view(rows@), t)) }
        }),
{
    let ghost tables = distinct(pairs_view(rows@).map_values(|p: (Seq<char>, Seq<char>)| p.0));
    let mut names: Vec<String> = Vec::new();
    let mut i: usize = 0;
    while i < rows.len()
        invariant
            i <= rows@.len(),
            names@.len() == i,
            forall|j: int| 0 <= j < i ==> #[trigger] names@[j]@ == rows@[j].0@,
        decreases rows.len() - i,
    {
        names.push(rows[i].0.clone());
        i = i + 1;
    }
    assert(texts_view(names@) =~= pairs_view(rows@).map_values(|p: (Seq<char>, Seq<char>)| p.0));
    let tables_exec = crate::text::distinct_texts(&names);
    let mut r: Vec<DumpConfig> = Vec::new();
    let mut i: usize = 0;
    while i < tables_exec.len()
        invariant
            tables == distinct(pairs_view(rows@).map_values(|p: (Seq<char>, Seq<char>)| p.0)),
            texts_view(tables_exec@) == tables,
            i <= tables.len(),
            r@.len() == i,
            forall|j: int| 0 <= j < i ==> #[trigger] r@[j]@ == ({
                let t = tables[j];
                DumpConfigView { table_name: t, col_names: columns_of(pairs_view(rows@), t), value: default_value(columns_of(pairs_view(rows@), t)) }
            }),
        decreases tables_exec.len() - i,
    {
        let cols = columns_for(rows, &tables_exec[i]);
        r.push(DumpConfig::from_columns(tables_exec[i].clone(), cols));
        i = i + 1;
    }
    r
}

pub open spec fn quads_view(v: Seq<(String, String, String, String)>) -> Seq<(Seq<char>, Seq<char>, Seq<char>, Seq<char>)> {
    v.map_values(|q: (String, String, String, String)| (q.0@, q.1@, q.2@, q.3@))
}

/// The columns described by `rows` (name, data type, column type, key kind) whose key
/// kind is `PRI` (`primary`), or the others.
pub open spec fn pick_cols(rows: Seq<(Seq<char>, Seq<char>, Seq<char>, Seq<char>)>, primary: bool) -> Seq<ColSchemaView>
    decreases rows.len(),
{
    if rows.len() == 0 {
        Seq::empty()
    } else {
        let q = rows.last();
        let prev = pick_cols(rows.drop_last(), primary);
        if (q.3 == "PRI"@) == primary {
            prev.push(ColSchemaView { col_name: q.0, data_type: q.1, col_type: q.2 })
        } else {
            prev
        }
    }
}

/// The key columns and the other columns of a table, from the rows that describe its
/// columns (name, data type, column type, key kind), in their order.
pub fn split_col_schemata(rows: &Vec<(String, String, String, String)>) -> (r: (Vec<ColSchema>, Vec<ColSchema>))
    ensures
        schemas_view(r.0@) == pick_cols(quads_view(rows@), true),
        schemas_view(r.1@) == pick_cols(quads_view(rows@), false),
{
    let ghost qv = quads_view(rows@);
    let mut primary: Vec<ColSchema> = Vec::new();
    let mut others: Vec<ColSchema> = Vec::new();
    let mut i: usize = 0;
    assert(qv.subrange(0, 0) =~= Seq::<(Seq<char>, Seq<char>, Seq<char>, Seq<char>)>::empty());
    while i < rows.len()
        invariant
            qv == quads_view(rows@),
            i <= qv.len(),
            schemas_view(primary@) == pick_cols(qv.subrange(0, i as int), true),
            schemas_view(others@) == pick_cols(qv.subrange(0, i as int), false),
        decreases rows.len() - i,
    {
        let q = &rows[i];
        assert(qv.subrange(0, i + 1).drop_last() =~= qv.subrange(0, i as int));
        assert(qv.subrange(0, i + 1).last() == (q.0@, q.1@, q.2@, q.3@));
        let col = ColSchema { col_name: q.0.clone(), data_type: q.1.clone(), col_type: q.2.clone() };
        let ghost primary_before = schemas_view(primary@);
        let ghost others_before = schemas_view(others@);
        if same_text(q.3.as_str(), "PRI") {
            primary.push(col);
            assert(schemas_view(primary@) =~= primary_before.push(col@));
        } else {
            others.push(col);
            assert(schemas_view(others@) =~= others_before.push(col@));
        }
        i = i + 1;
    }
    assert(qv.subrange(0, qv.len() as int) =~= qv);
    (primary, others)
}

/// What a capture does with one table.
#[derive(Debug, PartialEq, Eq, Structural)]
pub enum TableStep {
    /// The table is ignored; it counts as done.
    Ignore,
    /// The table's rows are read and stored.
    Capture,
    /// The table has no key columns and is passed over.
    Skip,
}

/// What to do with a table, given the choice made for it and whether it has key columns.
pub fn plan_table(dump_config_value: &str, has_primary_cols: bool) -> (r: TableStep)
    ensures
        dump_config_value@ == "ignore"@ ==> r == TableStep::Ignore,
        dump_config_value@ != "ignore"@ && has_primary_cols ==> r == TableStep::Capture,
        dump_config_value@ != "ignore"@ && !has_primary_cols ==> r == TableStep::Skip,
{
    if same_text(dump_config_value, "ignore") {
        TableStep::Ignore
    } else if has_primary_cols {
        TableStep::Capture
    } else {
        TableStep::Skip
    }
}

} // verus!
