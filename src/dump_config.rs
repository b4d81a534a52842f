use vstd::prelude::*;
use vstd::seq_lib::to_multiset_insert;

use crate::text::{copy_texts, starts_with, strict_total, text_less, text_lt, text_order, lemma_text_order, texts_view};

verus! {

/// Which rows of a table to capture: the column to order by, `limited`, or `ignore`.
#[derive(Debug, PartialEq, Eq)]
pub struct DumpConfig {
    pub table_name: String,
    pub col_names: Vec<String>,
    pub value: String,
}

pub struct DumpConfigView {
    pub table_name: Seq<char>,
    pub col_names: Seq<Seq<char>>,
    pub value: Seq<char>,
}

impl View for DumpConfig {
    type V = DumpConfigView;

    open spec fn view(&self) -> DumpConfigView {
        DumpConfigView { table_name: self.table_name@, col_names: texts_view(self.col_names@), value: self.value@ }
    }
}

pub open spec fn strs_view(v: Seq<&str>) -> Seq<Seq<char>> {
    v.map_values(|s: &str| s@)
}

pub open spec fn configs_view(v: Seq<DumpConfig>) -> Seq<DumpConfigView> {
    v.map_values(|d: DumpConfig| d@)
}

pub open spec fn has_prefix(s: Seq<char>, p: Seq<char>) -> bool {
    p.len() <= s.len() && s.subrange(0, p.len() as int) == p
}

/// The last name of `names` that begins with `p`.
pub open spec fn last_with_prefix(names: Seq<Seq<char>>, p: Seq<char>) -> Option<Seq<char>>
    decreases names.len(),
{
    if names.len() == 0 {
        None
    } else if has_prefix(names.last(), p) {
        Some(names.last())
    } else {
        last_with_prefix(names.drop_last(), p)
    }
}

/// The default choice for a table: its last `update..` column, else its last
/// `create..` column, else `ignore`.
pub open spec fn default_value(names: Seq<Seq<char>>) -> Seq<char> {
    match last_with_prefix(names, "update"@) {
        Some(u) => u,
        None => match last_with_prefix(names, "create"@) {
            Some(c) => c,
            None => "ignore"@,
        },
    }
}

/// The value saved for table `name` in `found` (the last one, should the name repeat).
pub open spec fn saved_value(found: Seq<DumpConfigView>, name: Seq<char>) -> Option<Seq<char>>
    decreases found.len(),
{
    if found.len() == 0 {
        None
    } else if found.last().table_name == name {
        Some(found.last().value)
    } else {
        saved_value(found.drop_last(), name)
    }
}

/// The configuration `d` with the saved value for its table, where there is one.
pub open spec fn merged_config(d: DumpConfigView, found: Seq<DumpConfigView>) -> DumpConfigView {
    DumpConfigView {
        table_name: d.table_name,
        col_names: d.col_names,
        value: match saved_value(found, d.table_name) {
            Some(v) => v,
            None => d.value,
        },
    }
}

/// No configuration comes after one whose table name is greater.
pub open spec fn sorted_by_table_name(v: Seq<DumpConfigView>) -> bool {
    forall|i: int, j: int| 0 <= i < j < v.len() ==> !text_lt(#[trigger] v[j].table_name, #[trigger] v[i].table_name)
}

fn last_prefixed(names: &Vec<String>, p: &str) -> (r: Option<usize>)
    ensures
        match r {
            Some(i) => i < names@.len() && last_with_prefix(texts_view(names@), p@) == Some(names@[i as int]@),
            None => last_with_prefix(texts_view(names@), p@) is None,
        },
{
    let ghost tv = texts_view(names@);
    let mut i: usize = names.len();
    assert(tv.subrange(0, tv.len() as int) =~= tv);
    while i > 0
        invariant
            tv == texts_view(names@),
            i <= tv.len(),
            last_with_prefix(tv, p@) == last_with_prefix(tv.subrange(0, i as int), p@),
        decreases i,
    {
        let ghost pre = tv.subrange(0, i as int);
        assert(pre.drop_last() =~= tv.subrange(0, i - 1));
        assert(pre.last() == names@[i - 1]@);
        if starts_with(names[i - 1].as_str(), p) {
            return Some(i - 1);
        }
        i = i - 1;
    }
    None
}

impl DumpConfig {
    /// The configuration of a table with its default choice.
    pub fn init(table_name: &str, col_names: Vec<&str>) -> (r: Self)
        ensures
            r@.table_name == table_name@,
            r@.col_names == strs_view(col_names@),
            r@.value == default_value(strs_view(col_names@)),
    {
        Self::from_columns(String::from_str(table_name), to_strings(&col_names))
    }

    /// The configuration of a table with its default choice, from owned names.
    pub fn from_columns(table_name: String, col_names: Vec<String>) -> (r: Self)
        ensures
            r@.table_name == table_name@,
            r@.col_names == texts_view(col_names@),
            r@.value == default_value(texts_view(col_names@)),
    {
        let value = match last_prefixed(&col_names, "update") {
            Some(i) => col_names[i].clone(),
            None => match last_prefixed(&col_names, "create") {
                Some(i) => col_names[i].clone(),
                None => String::from_str("ignore"),
            },
        };
        Self { table_name, col_names, value }
    }

    pub fn new(table_name: &str, col_names: Vec<&str>, value: &str) -> (r: Self)
        ensures
            r@.table_name == table_name@,
            r@.col_names == strs_view(col_names@),
            r@.value == value@,
    {
        Self { table_name: String::from_str(table_name), col_names: to_strings(&col_names), value: String::from_str(value) }
    }

    fn set_value(&self, value: &str) -> (r: Self)
        ensures
            r@.table_name == self@.table_name,
            r@.col_names == self@.col_names,
            r@.value == value@,
    {
        Self { table_name: self.table_name.clone(), col_names: copy_texts(&self.col_names), value: String::from_str(value) }
    }

    /// The configurations of `def`, each with the value saved for its table in `found`
    /// where there is one.
    pub fn merge(def: Vec<Self>, found: Vec<Self>) -> (r: Vec<Self>)
        ensures
            r@.len() == def@.len(),
            forall|i: int| 0 <= i < def@.len() ==> #[trigger] r@[i]@ == merged_config(def@[i]@, configs_view(found@)),
    {
        let ghost fv = configs_view(found@);
        let mut r: Vec<Self> = Vec::new();
        let mut i: usize = 0;
        while i < def.len()
            invariant
                fv == configs_view(found@),
                i <= def@.len(),
                r@.len() == i,
                forall|j: int| 0 <= j < i ==> #[trigger] r@[j]@ == merged_config(def@[j]@, fv),
            decreases def.len() - i,
        {
            let d = &def[i];
            let saved = find_saved(&found, &d.table_name);
            let e = match saved {
                Some(k) => d.set_value(found[k].value.as_str()),
                None => d.set_value(d.value.as_str()),
            };
            r.push(e);
            i = i + 1;
        }
        r
    }

    /// The configurations ordered by table name; those of equal names keep their order.
    pub fn sort(dump_configs: Vec<Self>) -> (r: Vec<Self>)
        ensures
            sorted_by_table_name(configs_view(r@)),
            configs_view(r@).to_multiset() == configs_view(dump_configs@).to_multiset(),
    {
        broadcast use vstd::seq_lib::group_to_multiset_ensures;

        proof {
            lemma_text_order();
        }
        let ghost lt = text_order();
        let ghost input = configs_view(dump_configs@);
        let mut rest = dump_configs;
        let mut r: Vec<Self> = Vec::new();
        assert(configs_view(r@).to_multiset() =~= vstd::multiset::Multiset::empty());
        while rest.len() > 0
            invariant
                strict_total(lt),
                lt == text_order(),
                sorted_by_table_name(configs_view(r@)),
                configs_view(r@).to_multiset().add(configs_view(rest@).to_multiset()) == input.to_multiset(),
            decreases rest.len(),
        {
            let ghost before_rest = configs_view(rest@);
            let x = rest.pop().unwrap();
            proof {
                assert(before_rest =~= configs_view(rest@).push(x@));
                vstd::seq_lib::to_multiset_build(configs_view(rest@), x@);
            }
            let mut pos: usize = 0;
            while pos < r.len() && text_less(r[pos].table_name.as_str(), x.table_name.as_str())
                invariant
                    pos <= r@.len(),
                    forall|j: int| 0 <= j < pos ==> text_lt(#[trigger] r@[j]@.table_name, x@.table_name),
                decreases r.len() - pos,
            {
                pos = pos + 1;
            }
            let ghost old_r = configs_view(r@);
            r.insert(pos, x);
            proof {
                let nr = configs_view(r@);
                let xn = x@.table_name;
                assert(nr =~= old_r.insert(pos as int, x@));
                to_multiset_insert(old_r, pos as int, x@);
                assert(forall|j: int| 0 <= j < pos ==> lt(#[trigger] old_r[j].table_name, xn));
                assert forall|i: int, j: int| 0 <= i < j < nr.len() implies !text_lt(#[trigger] nr[j].table_name, #[trigger] nr[i].table_name) by {
                    if i < pos && j < pos {
                        assert(nr[i] == old_r[i] && nr[j] == old_r[j]);
                        assert(!lt(old_r[j].table_name, old_r[i].table_name));
                    } else if i < pos && j == pos {
                        assert(lt(old_r[i].table_name, xn));
                        assert(!lt(xn, old_r[i].table_name));
                    } else if i < pos {
                        assert(nr[i] == old_r[i] && nr[j] == old_r[j - 1]);
                        assert(!lt(old_r[j - 1].table_name, old_r[i].table_name));
                    } else if i == pos {
                        assert(nr[j] == old_r[j - 1]);
                        let p = old_r[pos as int].table_name;
                        let q = old_r[j - 1].table_name;
                        assert(!lt(p, xn));
                        if j - 1 > pos {
                            assert(!lt(q, p));
                        }
                        if lt(q, xn) {
                            if p != xn {
                                assert(lt(xn, p));
                                assert(lt(q, p));
                            }
                        }
                    } else {
                        assert(nr[i] == old_r[i - 1] && nr[j] == old_r[j - 1]);
                        assert(!lt(old_r[j - 1].table_name, old_r[i - 1].table_name));
                    }
                }
            }
        }
        assert(configs_view(rest@).to_multiset() =~= vstd::multiset::Multiset::empty());
        r
    }
}

/// The index of the configuration whose value is saved for table `name` in `found`.
pub fn find_saved(found: &Vec<DumpConfig>, name: &String) -> (r: Option<usize>)
    ensures
        match r {
            Some(k) => k < found@.len() && saved_value(configs_view(found@), name@) == Some(found@[k as int]@.value),
            None => saved_value(configs_view(found@), name@) is None,
        },
{
    let ghost fv = configs_view(found@);
    let mut j: usize = found.len();
    assert(fv.subrange(0, fv.len() as int) =~= fv);
    while j > 0
        invariant
            fv == configs_view(found@),
            j <= fv.len(),
            saved_value(fv, name@) == saved_value(fv.subrange(0, j as int), name@),
        decreases j,
    {
        let ghost pre = fv.subrange(0, j as int);
        assert(pre.drop_last() =~= fv.subrange(0, j - 1));
        assert(pre.last() == found@[j - 1]@);
        if found[j - 1].table_name == *name {
            return Some(j - 1);
        }
        j = j - 1;
    }
    None
}

/// The strings of `v`, owned.
fn to_strings(v: &Vec<&str>) -> (r: Vec<String>)
    ensures
        texts_view(r@) == strs_view(v@),
{
    let mut r: Vec<String> = Vec::new();
    let mut i: usize = 0;
    while i < v.len()
        invariant
            i <= v@.len(),
            r@.len() == i,
            forall|j: int| 0 <= j < i ==> #[trigger] r@[j]@ == v@[j]@,
        decreases v.len() - i,
    {
        r.push(String::from_str(v[i]));
        i = i + 1;
    }
    assert(texts_view(r@) =~= strs_view(v@));
    r
}

} // verus!
