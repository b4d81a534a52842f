use vstd::prelude::*;

use crate::text::{join, join_spec, texts_view};

verus! {

pub type TableName = String;

pub type PrimaryColName = String;

pub type ColName = String;

pub type PrimaryValue = String;

pub type Hash = String;

/// A column as the source database declares it.
#[derive(Clone, Debug, PartialEq, Eq)]
pub struct ColSchema {
    pub col_name: ColName,
    pub data_type: String,
    pub col_type: String,
}

pub struct ColSchemaView {
    pub col_name: Seq<char>,
    pub data_type: Seq<char>,
    pub col_type: Seq<char>,
}

impl View for ColSchema {
    type V = ColSchemaView;

    open spec fn view(&self) -> ColSchemaView {
        ColSchemaView { col_name: self.col_name@, data_type: self.data_type@, col_type: self.col_type@ }
    }
}

pub open spec fn schemas_view(v: Seq<ColSchema>) -> Seq<ColSchemaView> {
    v.map_values(|c: ColSchema| c@)
}

pub open spec fn col_names_of(v: Seq<ColSchemaView>) -> Seq<Seq<char>> {
    v.map_values(|c: ColSchemaView| c.col_name)
}

impl ColSchema {
    /// A copy of this column.
    pub fn copy_schema(&self) -> (r: Self)
        ensures
            r@ == self@,
    {
        ColSchema { col_name: self.col_name.clone(), data_type: self.data_type.clone(), col_type: self.col_type.clone() }
    }
}

fn copy_schemas(v: &[ColSchema]) -> (r: Vec<ColSchema>)
    ensures
        schemas_view(r@) == schemas_view(v@),
{
    let mut r: Vec<ColSchema> = Vec::new();
    let mut i: usize = 0;
    while i < v.len()
        invariant
            i <= v@.len(),
            r@.len() == i,
            forall|j: int| 0 <= j < i ==> #[trigger] r@[j]@ == v@[j]@,
        decreases v.len() - i,
    {
        r.push(v[i].copy_schema());
        i = i + 1;
    }
    assert(schemas_view(r@) =~= schemas_view(v@));
    r
}

fn names_of(v: &Vec<ColSchema>) -> (r: Vec<String>)
    ensures
        texts_view(r@) == col_names_of(schemas_view(v@)),
{
    let mut r: Vec<String> = Vec::new();
    let mut i: usize = 0;
    while i < v.len()
        invariant
            i <= v@.len(),
            r@.len() == i,
            forall|j: int| 0 <= j < i ==> #[trigger] r@[j]@ == v@[j].col_name@,
        decreases v.len() - i,
    {
        r.push(v[i].col_name.clone());
        i = i + 1;
    }
    assert(texts_view(r@) =~= col_names_of(schemas_view(v@)));
    r
}

/// The key columns and the other columns of a table.
pub struct TableSchema {
    pub table_name: TableName,
    pub primary_cols: Vec<ColSchema>,
    pub cols: Vec<ColSchema>,
}

impl TableSchema {
    pub fn new(table_name: &TableName, primary_cols: &[ColSchema], cols: &[ColSchema]) -> (r: Self)
        ensures
            r.table_name@ == table_name@,
            schemas_view(r.primary_cols@) == schemas_view(primary_cols@),
            schemas_view(r.cols@) == schemas_view(cols@),
    {
        Self { table_name: table_name.clone(), primary_cols: copy_schemas(primary_cols), cols: copy_schemas(cols) }
    }

    pub fn has_any_primary_cols(&self) -> (r: bool)
        ensures
            r == (self.primary_cols@.len() > 0),
    {
        self.primary_cols.len() > 0
    }

    /// The key column names joined by `-`, and the other column names.
    pub fn get_all_col_names(&self) -> (r: (PrimaryColName, Vec<ColName>))
        ensures
            r.0@ == join_spec(col_names_of(schemas_view(self.primary_cols@)), "-"@),
            texts_view(r.1@) == col_names_of(schemas_view(self.cols@)),
    {
        let primary = names_of(&self.primary_cols);
        (join(&primary, "-"), names_of(&self.cols))
    }

    /// The key columns, then the other columns.
    pub fn get_all_col_refs(&self) -> (r: Vec<&ColSchema>)
        ensures
            r@.len() == self.primary_cols@.len() + self.cols@.len(),
            forall|i: int| 0 <= i < self.primary_cols@.len() ==> *#[trigger] r@[i] == self.primary_cols@[i],
            forall|i: int| 0 <= i < self.cols@.len() ==> *#[trigger] r@[self.primary_cols@.len() + i] == self.cols@[i],
    {
        let mut r: Vec<&ColSchema> = Vec::new();
        let mut i: usize = 0;
        while i < self.primary_cols.len()
            invariant
                i <= self.primary_cols@.len(),
                r@.len() == i,
                forall|j: int| 0 <= j < i ==> *#[trigger] r@[j] == self.primary_cols@[j],
            decreases self.primary_cols.len() - i,
        {
            r.push(&self.primary_cols[i]);
            i = i + 1;
        }
        let n = self.primary_cols.len();
        let mut i: usize = 0;
        while i < self.cols.len()
            invariant
                n == self.primary_cols@.len(),
                i <= self.cols@.len(),
                r@.len() == n + i,
                forall|j: int| 0 <= j < n ==> *#[trigger] r@[j] == self.primary_cols@[j],
                forall|j: int| 0 <= j < i ==> *#[trigger] r@[n + j] == self.cols@[j],
            decreases self.cols.len() - i,
        {
            r.push(&self.cols[i]);
            i = i + 1;
        }
        r
    }

    /// For each column, key columns first, its position and whether it belongs to the key.
    pub fn get_col_indices(&self) -> (r: Vec<(usize, bool)>)
        requires
            self.primary_cols@.len() + self.cols@.len() <= usize::MAX,
        ensures
            r@.len() == self.primary_cols@.len() + self.cols@.len(),
            forall|i: int| 0 <= i < r@.len() ==> #[trigger] r@[i] == (i as usize, i < self.primary_cols@.len()),
    {
        let mut r: Vec<(usize, bool)> = Vec::new();
        let n = self.primary_cols.len();
        let total = n + self.cols.len();
        let mut i: usize = 0;
        while i < total
            invariant
                n == self.primary_cols@.len(),
                total == n + self.cols@.len(),
                i <= total,
                r@.len() == i,
                forall|j: int| 0 <= j < i ==> #[trigger] r@[j] == (j as usize, j < n),
            decreases total - i,
        {
            r.push((i, i < n));
            i = i + 1;
        }
        r
    }
}

} // verus!
