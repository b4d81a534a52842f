use vstd::prelude::*;

use crate::diff::{entries_view, CellsView, ColDiff, ColDiffView, ColEntry, DiffId, RowDiff, RowDiffView, SnapshotDiff, TableDiff, TableDiffView};
use crate::dump_config::{DumpConfig, DumpConfigView};
use crate::project::{Project, ProjectId, Rdbms};
use crate::schema::{ColName, PrimaryValue, TableName};
use crate::snapshot::{SnapshotId, SnapshotName, SnapshotSummary};
use crate::snapshot_result::SnapshotResult;
use crate::text::texts_view;
use crate::value::{display_of, primary_value_of, ValueView};

verus! {

/// The shape in which a dump configuration is shown.
pub struct DumpConfigJson {
    pub table_name: TableName,
    pub col_names: Vec<ColName>,
    pub value: String,
}

impl DumpConfigJson {
    pub fn from(dump_config: DumpConfig) -> (r: Self)
        ensures
            r.table_name@ == dump_config@.table_name,
            texts_view(r.col_names@) == dump_config@.col_names,
            r.value@ == dump_config@.value,
    {
        Self { table_name: dump_config.table_name, col_names: dump_config.col_names, value: dump_config.value }
    }

    pub fn into(self) -> (r: DumpConfig)
        ensures
            r@ == (DumpConfigView { table_name: self.table_name@, col_names: texts_view(self.col_names@), value: self.value@ }),
    {
        DumpConfig { table_name: self.table_name, col_names: self.col_names, value: self.value }
    }
}

/// The shape in which a project is shown.
pub struct ProjectJson {
    pub project_id: ProjectId,
    pub name: String,
    pub color: String,
    pub rdbms: String,
    pub user: String,
    pub password: String,
    pub host: String,
    pub port: String,
    pub schema: String,
}

impl ProjectJson {
    pub fn from(project: Project) -> (r: Self)
        ensures
            r.project_id@ == project.project_id@,
            r.name@ == project.name@,
            r.color@ == project.color@,
            r.rdbms@ == "MySQL"@,
            r.user@ == project.user@,
            r.password@ == project.password@,
            r.host@ == project.host@,
            r.port@ == project.port@,
            r.schema@ == project.schema@,
    {
        let rdbms = match project.rdbms {
            Rdbms::Mysql => String::from_str("MySQL"),
        };
        Self {
            project_id: project.project_id,
            name: project.name,
            color: project.color,
            rdbms,
            user: project.user,
            password: project.password,
            host: project.host,
            port: project.port,
            schema: project.schema,
        }
    }

    /// The project; `MySQL` is the only kind of database there is.
    pub fn into(self) -> (r: Project)
        requires
            self.rdbms@ == "MySQL"@,
        ensures
            r.project_id@ == self.project_id@,
            r.name@ == self.name@,
            r.color@ == self.color@,
            r.rdbms == Rdbms::Mysql,
            r.user@ == self.user@,
            r.password@ == self.password@,
            r.host@ == self.host@,
            r.port@ == self.port@,
            r.schema@ == self.schema@,
    {
        Project {
            project_id: self.project_id,
            name: self.name,
            color: self.color,
            rdbms: Rdbms::Mysql,
            user: self.user,
            password: self.password,
            host: self.host,
            port: self.port,
            schema: self.schema,
        }
    }
}

/// The shape in which a snapshot summary is shown.
pub struct SnapshotSummaryJson {
    pub snapshot_id: SnapshotId,
    pub snapshot_name: SnapshotName,
    pub create_at: String,
}

impl SnapshotSummaryJson {
    pub fn from(snapshot_summary: SnapshotSummary) -> (r: Self)
        ensures
            r.snapshot_id@ == snapshot_summary.snapshot_id@,
            r.snapshot_name@ == snapshot_summary.snapshot_name@,
            r.create_at@ == snapshot_summary.create_at@,
    {
        Self {
            snapshot_id: snapshot_summary.snapshot_id,
            snapshot_name: snapshot_summary.snapshot_name,
            create_at: snapshot_summary.create_at,
        }
    }

    pub fn into(self) -> (r: SnapshotSummary)
        ensures
            r.snapshot_id@ == self.snapshot_id@,
            r.snapshot_name@ == self.snapshot_name@,
            r.create_at@ == self.create_at@,
    {
        SnapshotSummary { snapshot_id: self.snapshot_id, snapshot_name: self.snapshot_name, create_at: self.create_at }
    }
}

/// The shape in which the progress of a capture is shown.
pub struct SnapshotResultJson {
    pub percent: usize,
    pub done: usize,
    pub total: usize,
    pub status: String,
}

impl SnapshotResultJson {
    pub fn from(snapshot_result: SnapshotResult) -> (r: Self)
        ensures
            r.percent == snapshot_result.percent,
            r.done == snapshot_result.done,
            r.total == snapshot_result.total,
            r.status@ == snapshot_result.status@,
    {
        Self {
            percent: snapshot_result.percent,
            done: snapshot_result.done,
            total: snapshot_result.total,
            status: snapshot_result.status,
        }
    }
}

/// The fields shown for one cell: none for a column without a value, else the
/// verdict as `status` and the display form of the value as `value`.
pub open spec fn fields_of(d: ColDiffView) -> Seq<(Seq<char>, Seq<char>)> {
    match d {
        ColDiffView::NoValue => Seq::empty(),
        ColDiffView::Stay(v) => seq![("status"@, "stay"@), ("value"@, display_of(v))],
        ColDiffView::Added(v) => seq![("status"@, "added"@), ("value"@, display_of(v))],
        ColDiffView::Deleted(v) => seq![("status"@, "deleted"@), ("value"@, display_of(v))],
    }
}

pub type FieldsView = Seq<(Seq<char>, Seq<char>)>;

pub open spec fn fields_view(v: Seq<(String, String)>) -> FieldsView {
    v.map_values(|p: (String, String)| (p.0@, p.1@))
}

pub open spec fn cols_json_view(v: Seq<(ColName, Vec<(String, String)>)>) -> Seq<(Seq<char>, FieldsView)> {
    v.map_values(|p: (ColName, Vec<(String, String)>)| (p.0@, fields_view(p.1@)))
}

pub open spec fn rows_json_view(v: Seq<(PrimaryValue, Vec<(ColName, Vec<(String, String)>)>)>) -> Seq<(Seq<char>, Seq<(Seq<char>, FieldsView)>)> {
    v.map_values(|p: (PrimaryValue, Vec<(ColName, Vec<(String, String)>)>)| (p.0@, cols_json_view(p.1@)))
}

/// The shown form of the verdicts on one row.
pub open spec fn cells_shown(cells: CellsView) -> Seq<(Seq<char>, FieldsView)> {
    cells.map_values(|c: (Seq<char>, ColDiffView)| (c.0, fields_of(c.1)))
}

/// The shown form of one side's entries.
pub open spec fn rows_shown(rows: Seq<RowDiffView>) -> Seq<(Seq<char>, Seq<(Seq<char>, FieldsView)>)> {
    rows.map_values(|r: RowDiffView| (r.0, cells_shown(r.1)))
}

/// The shape in which a table diff is shown: keys as their display values, and each
/// cell's verdict as fields.
pub struct TableDiffJson {
    pub table_name: TableName,
    pub primary_values: Vec<PrimaryValue>,
    pub primary_col_name: ColName,
    pub col_names: Vec<ColName>,
    pub row_diffs1: Vec<(PrimaryValue, Vec<(ColName, Vec<(String, String)>)>)>,
    pub row_diffs2: Vec<(PrimaryValue, Vec<(ColName, Vec<(String, String)>)>)>,
}

impl TableDiffJson {
    pub fn from(table_diff: TableDiff) -> (r: Self)
        ensures
            r.table_name@ == table_diff@.table_name,
            texts_view(r.primary_values@) == table_diff@.primary_keys.map_values(|k: Seq<ValueView>| primary_value_of(k)),
            r.primary_col_name@ == table_diff@.primary_col_name,
            texts_view(r.col_names@) == table_diff@.col_names,
            rows_json_view(r.row_diffs1@) == rows_shown(table_diff@.row_diffs1),
            rows_json_view(r.row_diffs2@) == rows_shown(table_diff@.row_diffs2),
    {
        let mut primary_values: Vec<PrimaryValue> = Vec::new();
        let mut i: usize = 0;
        while i < table_diff.primary_col_values_vec.len()
            invariant
                i <= table_diff.primary_col_values_vec@.len(),
                primary_values@.len() == i,
                forall|j: int| 0 <= j < i ==> #[trigger] primary_values@[j]@ == primary_value_of(table_diff.primary_col_values_vec@[j]@),
            decreases table_diff.primary_col_values_vec.len() - i,
        {
            primary_values.push(table_diff.primary_col_values_vec[i].as_primary_value());
            i = i + 1;
        }
        assert(texts_view(primary_values@) =~= table_diff@.primary_keys.map_values(|k: Seq<ValueView>| primary_value_of(k)));
        let row_diffs1 = Self::map_rows(&table_diff.row_diffs1.rows);
        let row_diffs2 = Self::map_rows(&table_diff.row_diffs2.rows);
        Self {
            table_name: table_diff.table_name,
            primary_values,
            primary_col_name: table_diff.primary_col_name,
            col_names: table_diff.col_names,
            row_diffs1,
            row_diffs2,
        }
    }

    fn map_rows(rows: &Vec<RowDiff>) -> (r: Vec<(PrimaryValue, Vec<(ColName, Vec<(String, String)>)>)>)
        ensures
            rows_json_view(r@) == rows_shown(rows@.map_values(|x: RowDiff| x@)),
    {
        let mut r: Vec<(PrimaryValue, Vec<(ColName, Vec<(String, String)>)>)> = Vec::new();
        let mut i: usize = 0;
        while i < rows.len()
            invariant
                i <= rows@.len(),
                r@.len() == i,
                forall|j: int| 0 <= j < i ==> #[trigger] r@[j].0@ == rows@[j].primary_value@ && cols_json_view(r@[j].1@) == cells_shown(entries_view(rows@[j].cols@)),
            decreases rows.len() - i,
        {
            let cols = Self::map_cols(&rows[i].cols);
            r.push((rows[i].primary_value.clone(), cols));
            i = i + 1;
        }
        assert forall|j: int| 0 <= j < rows@.len() implies #[trigger] rows_json_view(r@)[j] == rows_shown(rows@.map_values(|x: RowDiff| x@))[j] by {
            assert(rows@.map_values(|x: RowDiff| x@)[j] == rows@[j]@);
        }
        assert(rows_json_view(r@) =~= rows_shown(rows@.map_values(|x: RowDiff| x@)));
        r
    }

    fn map_cols(cols: &Vec<ColEntry>) -> (r: Vec<(ColName, Vec<(String, String)>)>)
        ensures
            cols_json_view(r@) == cells_shown(entries_view(cols@)),
    {
        let mut r: Vec<(ColName, Vec<(String, String)>)> = Vec::new();
        let mut i: usize = 0;
        while i < cols.len()
            invariant
                i <= cols@.len(),
                r@.len() == i,
                forall|j: int| 0 <= j < i ==> #[trigger] r@[j].0@ == cols@[j].col_name@ && fields_view(r@[j].1@) == fields_of(cols@[j].col_diff@),
            decreases cols.len() - i,
        {
            r.push((cols[i].col_name.clone(), Self::map(&cols[i].col_diff)));
            i = i + 1;
        }
        assert(cols_json_view(r@) =~= cells_shown(entries_view(cols@)));
        r
    }

    /// The fields shown for one cell.
    pub fn map(col_diff: &ColDiff) -> (r: Vec<(String, String)>)
        ensures
            fields_view(r@) == fields_of(col_diff@),
    {
        let r = match col_diff {
            ColDiff::NoValue => Vec::new(),
            ColDiff::Stay(v) => vec![
                (String::from_str("status"), String::from_str("stay")),
                (String::from_str("value"), v.as_display_value()),
            ],
            ColDiff::Added(v) => vec![
                (String::from_str("status"), String::from_str("added")),
                (String::from_str("value"), v.as_display_value()),
            ],
            ColDiff::Deleted(v) => vec![
                (String::from_str("status"), String::from_str("deleted")),
                (String::from_str("value"), v.as_display_value()),
            ],
        };
        assert(fields_view(r@) =~= fields_of(col_diff@));
        r
    }
}

/// `j` is the shown form of the table diff `d`.
pub open spec fn shows_table_diff(j: TableDiffJson, d: TableDiffView) -> bool {
    &&& j.table_name@ == d.table_name
    &&& texts_view(j.primary_values@) == d.primary_keys.map_values(|k: Seq<ValueView>| primary_value_of(k))
    &&& j.primary_col_name@ == d.primary_col_name
    &&& texts_view(j.col_names@) == d.col_names
    &&& rows_json_view(j.row_diffs1@) == rows_shown(d.row_diffs1)
    &&& rows_json_view(j.row_diffs2@) == rows_shown(d.row_diffs2)
}

/// The shape in which the result of a comparison is shown.
pub struct SnapshotDiffJson {
    pub diff_id: DiffId,
    pub snapshot_id1: SnapshotId,
    pub snapshot_id2: SnapshotId,
    pub table_diffs: Vec<TableDiffJson>,
}

impl SnapshotDiffJson {
    pub fn from(snapshot_diff: SnapshotDiff) -> (r: Self)
        ensures
            r.diff_id@ == snapshot_diff.diff_id@,
            r.snapshot_id1@ == snapshot_diff.snapshot_id1@,
            r.snapshot_id2@ == snapshot_diff.snapshot_id2@,
            r.table_diffs@.len() == snapshot_diff.table_diffs@.len(),
            forall|i: int| 0 <= i < r.table_diffs@.len() ==> shows_table_diff(#[trigger] r.table_diffs@[i], snapshot_diff.table_diffs@[i]@),
    {
        let ghost src = snapshot_diff.table_diffs@;
        let mut table_diffs: Vec<TableDiffJson> = Vec::new();
        let mut rest = snapshot_diff.table_diffs;
        while rest.len() > 0
            invariant
                table_diffs@.len() <= src.len(),
                rest@ == src.subrange(table_diffs@.len() as int, src.len() as int),
                forall|i: int| 0 <= i < table_diffs@.len() ==> shows_table_diff(#[trigger] table_diffs@[i], src[i]@),
            decreases rest.len(),
        {
            let d = rest.remove(0);
            table_diffs.push(TableDiffJson::from(d));
        }
        Self {
            diff_id: snapshot_diff.diff_id,
            snapshot_id1: snapshot_diff.snapshot_id1,
            snapshot_id2: snapshot_diff.snapshot_id2,
            table_diffs,
        }
    }
}

} // verus!
