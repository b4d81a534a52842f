use vstd::prelude::*;

use crate::digest::{md5_hex, md5_hex_of};
use crate::text::{join, join_spec, lex_lt, strict_total, text_less, text_lt, lemma_text_order, lemma_lex_strict_total};

verus! {

/// A captured column value. Each kind keeps the text it was read as.
#[derive(Clone, Debug, PartialEq, Eq, Hash)]
pub enum ColValue {
    SimpleNumber(String),
    BitNumber(String),
    SimpleString(String),
    DateString(String),
    BinaryString(String),
    JsonString(String),
    Null,
    ParseError,
}

/// The mathematical model of a `ColValue`.
pub enum ValueView {
    SimpleNumber(Seq<char>),
    BitNumber(Seq<char>),
    SimpleString(Seq<char>),
    DateString(Seq<char>),
    BinaryString(Seq<char>),
    JsonString(Seq<char>),
    Null,
    ParseError,
}

impl View for ColValue {
    type V = ValueView;

    open spec fn view(&self) -> ValueView {
        match self {
            ColValue::SimpleNumber(t) => ValueView::SimpleNumber(t@),
            ColValue::BitNumber(t) => ValueView::BitNumber(t@),
            ColValue::SimpleString(t) => ValueView::SimpleString(t@),
            ColValue::DateString(t) => ValueView::DateString(t@),
            ColValue::BinaryString(t) => ValueView::BinaryString(t@),
            ColValue::JsonString(t) => ValueView::JsonString(t@),
            ColValue::Null => ValueView::Null,
            ColValue::ParseError => ValueView::ParseError,
        }
    }
}

/// The position of the value's kind in the declaration.
pub open spec fn kind_rank(v: ValueView) -> nat {
    match v {
        ValueView::SimpleNumber(_) => 0,
        ValueView::BitNumber(_) => 1,
        ValueView::SimpleString(_) => 2,
        ValueView::DateString(_) => 3,
        ValueView::BinaryString(_) => 4,
        ValueView::JsonString(_) => 5,
        ValueView::Null => 6,
        ValueView::ParseError => 7,
    }
}

/// The text a value carries; empty for the kinds without one.
pub open spec fn payload(v: ValueView) -> Seq<char> {
    match v {
        ValueView::SimpleNumber(t) => t,
        ValueView::BitNumber(t) => t,
        ValueView::SimpleString(t) => t,
        ValueView::DateString(t) => t,
        ValueView::BinaryString(t) => t,
        ValueView::JsonString(t) => t,
        ValueView::Null => Seq::empty(),
        ValueView::ParseError => Seq::empty(),
    }
}

/// Values are ordered by kind first, then by their text.
pub open spec fn value_lt(a: ValueView, b: ValueView) -> bool {
    kind_rank(a) < kind_rank(b) || (kind_rank(a) == kind_rank(b) && text_lt(payload(a), payload(b)))
}

pub open spec fn value_order() -> spec_fn(ValueView, ValueView) -> bool {
    |a: ValueView, b: ValueView| value_lt(a, b)
}

/// Primary-key tuples are ordered lexicographically by their values.
pub open spec fn key_lt(a: Seq<ValueView>, b: Seq<ValueView>) -> bool {
    lex_lt(a, b, value_order())
}

pub open spec fn key_order() -> spec_fn(Seq<ValueView>, Seq<ValueView>) -> bool {
    |a: Seq<ValueView>, b: Seq<ValueView>| key_lt(a, b)
}

pub proof fn lemma_value_order()
    ensures
        strict_total(value_order()),
{
    lemma_text_order();
    let tl = crate::text::text_order();
    let vl = value_order();
    assert forall|x: ValueView| !#[trigger] vl(x, x) by {
        assert(!tl(payload(x), payload(x)));
    }
    assert forall|x: ValueView, y: ValueView, z: ValueView| #[trigger] vl(x, y) && #[trigger] vl(
        y,
        z,
    ) implies vl(x, z) by {
        if kind_rank(x) == kind_rank(y) && kind_rank(y) == kind_rank(z) {
            assert(tl(payload(x), payload(y)) && tl(payload(y), payload(z)));
        }
    }
    assert forall|x: ValueView, y: ValueView| x != y implies #[trigger] vl(x, y) || #[trigger] vl(
        y,
        x,
    ) by {
        if kind_rank(x) == kind_rank(y) {
            assert(payload(x) != payload(y));
            assert(tl(payload(x), payload(y)) || tl(payload(y), payload(x)));
        }
    }
}

/// The order of primary-key tuples is a strict total order.
pub proof fn lemma_key_order()
    ensures
        strict_total(key_order()),
{
    lemma_value_order();
    lemma_lex_strict_total(value_order());
    let l = |a: Seq<ValueView>, b: Seq<ValueView>| lex_lt(a, b, value_order());
    assert(key_order() == l);
}

/// The human-readable form of a value.
pub open spec fn display_of(v: ValueView) -> Seq<char> {
    match v {
        ValueView::SimpleNumber(t) => t,
        ValueView::BitNumber(t) => "bit("@ + t + ")"@,
        ValueView::SimpleString(t) => "\""@ + t + "\""@,
        ValueView::DateString(t) => "\""@ + t + "\""@,
        ValueView::BinaryString(_) => "binary"@,
        ValueView::JsonString(t) => t,
        ValueView::Null => "<null>"@,
        ValueView::ParseError => "parse error"@,
    }
}

/// What a value contributes to a row hash: binary values and null
/// contribute a digest of their own, the others their text.
pub open spec fn hash_part_of(v: ValueView) -> Seq<char> {
    match v {
        ValueView::SimpleNumber(t) => t,
        ValueView::BitNumber(t) => t,
        ValueView::SimpleString(t) => t,
        ValueView::DateString(t) => t,
        ValueView::BinaryString(t) => md5_hex_of(t),
        ValueView::JsonString(t) => t,
        ValueView::Null => md5_hex_of("<null>"@),
        ValueView::ParseError => "parse error"@,
    }
}

fn quoted(t: &String) -> (r: String)
    ensures
        r@ == "\""@ + t@ + "\""@,
{
    let mut r = String::from_str("\"");
    r.append(t.as_str());
    r.append("\"");
    r
}

impl ColValue {
    /// A copy of this value.
    pub fn copy_value(&self) -> (r: ColValue)
        ensures
            r@ == self@,
    {
        match self {
            ColValue::SimpleNumber(t) => ColValue::SimpleNumber(t.clone()),
            ColValue::BitNumber(t) => ColValue::BitNumber(t.clone()),
            ColValue::SimpleString(t) => ColValue::SimpleString(t.clone()),
            ColValue::DateString(t) => ColValue::DateString(t.clone()),
            ColValue::BinaryString(t) => ColValue::BinaryString(t.clone()),
            ColValue::JsonString(t) => ColValue::JsonString(t.clone()),
            ColValue::Null => ColValue::Null,
            ColValue::ParseError => ColValue::ParseError,
        }
    }

    fn rank(&self) -> (r: u8)
        ensures
            r as nat == kind_rank(self@),
    {
        match self {
            ColValue::SimpleNumber(_) => 0,
            ColValue::BitNumber(_) => 1,
            ColValue::SimpleString(_) => 2,
            ColValue::DateString(_) => 3,
            ColValue::BinaryString(_) => 4,
            ColValue::JsonString(_) => 5,
            ColValue::Null => 6,
            ColValue::ParseError => 7,
        }
    }

    fn text(&self) -> (r: &str)
        ensures
            r@ == payload(self@),
    {
        match self {
            ColValue::SimpleNumber(t) => t.as_str(),
            ColValue::BitNumber(t) => t.as_str(),
            ColValue::SimpleString(t) => t.as_str(),
            ColValue::DateString(t) => t.as_str(),
            ColValue::BinaryString(t) => t.as_str(),
            ColValue::JsonString(t) => t.as_str(),
            _ => {
                proof {
                    reveal_strlit("");
                }
                ""
            },
        }
    }

    /// Whether the two values are the same.
    pub fn same_as(&self, other: &ColValue) -> (r: bool)
        ensures
            r == (self@ == other@),
    {
        match (self, other) {
            (ColValue::SimpleNumber(a), ColValue::SimpleNumber(b)) => *a == *b,
            (ColValue::BitNumber(a), ColValue::BitNumber(b)) => *a == *b,
            (ColValue::SimpleString(a), ColValue::SimpleString(b)) => *a == *b,
            (ColValue::DateString(a), ColValue::DateString(b)) => *a == *b,
            (ColValue::BinaryString(a), ColValue::BinaryString(b)) => *a == *b,
            (ColValue::JsonString(a), ColValue::JsonString(b)) => *a == *b,
            (ColValue::Null, ColValue::Null) => true,
            (ColValue::ParseError, ColValue::ParseError) => true,
            _ => false,
        }
    }

    /// Whether this value comes before `other`.
    pub fn less_than(&self, other: &ColValue) -> (r: bool)
        ensures
            r == value_lt(self@, other@),
    {
        let a = self.rank();
        let b = other.rank();
        if a < b {
            true
        } else if a > b {
            false
        } else {
            text_less(self.text(), other.text())
        }
    }

    /// The human-readable form: strings and dates quoted, bit fields as `bit(..)`,
    /// binaries as a placeholder, null as `<null>`.
    pub fn as_display_value(&self) -> (r: String)
        ensures
            r@ == display_of(self@),
    {
        match self {
            ColValue::SimpleNumber(t) => t.clone(),
            ColValue::BitNumber(t) => {
                let mut r = String::from_str("bit(");
                r.append(t.as_str());
                r.append(")");
                r
            },
            ColValue::SimpleString(t) => quoted(t),
            ColValue::DateString(t) => quoted(t),
            ColValue::BinaryString(_) => String::from_str("binary"),
            ColValue::JsonString(t) => t.clone(),
            ColValue::Null => String::from_str("<null>"),
            ColValue::ParseError => String::from_str("parse error"),
        }
    }

    /// What the value contributes to a row hash.
    pub fn as_hash_parts(&self) -> (r: String)
        ensures
            r@ == hash_part_of(self@),
    {
        match self {
            ColValue::SimpleNumber(t) => t.clone(),
            ColValue::BitNumber(t) => t.clone(),
            ColValue::SimpleString(t) => t.clone(),
            ColValue::DateString(t) => t.clone(),
            ColValue::BinaryString(t) => md5_hex(t.as_str()),
            ColValue::JsonString(t) => t.clone(),
            ColValue::Null => md5_hex("<null>"),
            ColValue::ParseError => String::from_str("parse error"),
        }
    }
}

pub open spec fn values_view(v: Seq<ColValue>) -> Seq<ValueView> {
    v.map_values(|c: ColValue| c@)
}

/// Copies each value of `v`.
pub fn copy_values(v: &Vec<ColValue>) -> (r: Vec<ColValue>)
    ensures
        values_view(r@) == values_view(v@),
{
    let mut r: Vec<ColValue> = Vec::new();
    let mut i: usize = 0;
    while i < v.len()
        invariant
            i <= v@.len(),
            r@.len() == i,
            forall|j: int| 0 <= j < i ==> #[trigger] r@[j]@ == v@[j]@,
        decreases v.len() - i,
    {
        r.push(v[i].copy_value());
        i = i + 1;
    }
    assert(values_view(r@) =~= values_view(v@));
    r
}

/// The display forms of the values, in order.
pub open spec fn displays_of(v: Seq<ValueView>) -> Seq<Seq<char>> {
    v.map_values(|c: ValueView| display_of(c))
}

/// The display value of a primary-key tuple: its display forms joined by `-`.
pub open spec fn primary_value_of(k: Seq<ValueView>) -> Seq<char> {
    join_spec(displays_of(k), "-"@)
}

/// The values of a composite primary key, in key-column order.
#[derive(Clone, Debug, PartialEq, Eq, Hash)]
pub struct PrimaryColValues {
    pub col_values: Vec<ColValue>,
}

impl View for PrimaryColValues {
    type V = Seq<ValueView>;

    open spec fn view(&self) -> Seq<ValueView> {
        values_view(self.col_values@)
    }
}

impl PrimaryColValues {
    pub fn new(col_values: Vec<ColValue>) -> (r: Self)
        ensures
            r@ == values_view(col_values@),
    {
        Self { col_values }
    }

    /// A copy of this key.
    pub fn copy_key(&self) -> (r: Self)
        ensures
            r@ == self@,
    {
        Self { col_values: copy_values(&self.col_values) }
    }

    /// The externally visible row identifier.
    pub fn as_primary_value(&self) -> (r: String)
        ensures
            r@ == primary_value_of(self@),
    {
        let mut parts: Vec<String> = Vec::new();
        let mut i: usize = 0;
        while i < self.col_values.len()
            invariant
                i <= self.col_values@.len(),
                parts@.len() == i,
                forall|j: int| 0 <= j < i ==> #[trigger] parts@[j]@ == display_of(self.col_values@[j]@),
            decreases self.col_values.len() - i,
        {
            parts.push(self.col_values[i].as_display_value());
            i = i + 1;
        }
        let r = join(&parts, "-");
        assert(crate::text::texts_view(parts@) =~= displays_of(self@));
        r
    }

    /// Whether the two keys hold the same values.
    pub fn same_as(&self, other: &PrimaryColValues) -> (r: bool)
        ensures
            r == (self@ == other@),
    {
        let n = self.col_values.len();
        if n != other.col_values.len() {
            assert(self@.len() != other@.len());
            return false;
        }
        let mut i: usize = 0;
        while i < n
            invariant
                n == self.col_values@.len(),
                n == other.col_values@.len(),
                i <= n,
                forall|j: int| 0 <= j < i ==> self.col_values@[j]@ == other.col_values@[j]@,
            decreases n - i,
        {
            if !self.col_values[i].same_as(&other.col_values[i]) {
                assert(self@[i as int] != other@[i as int]);
                return false;
            }
            i = i + 1;
        }
        assert(self@ =~= other@);
        true
    }

    /// Whether this key comes before `other` in the order of keys.
    pub fn less_than(&self, other: &PrimaryColValues) -> (r: bool)
        ensures
            r == key_lt(self@, other@),
    {
        let ghost vl = value_order();
        let ghost a = self@;
        let ghost b = other@;
        let n = self.col_values.len();
        let m = other.col_values.len();
        let mut i: usize = 0;
        assert(a.subrange(0, n as int) =~= a);
        assert(b.subrange(0, m as int) =~= b);
        while i < n && i < m
            invariant
                vl == value_order(),
                a == self@,
                b == other@,
                n == a.len(),
                m == b.len(),
                i <= n,
                i <= m,
                lex_lt(a, b, vl) == lex_lt(a.subrange(i as int, n as int), b.subrange(i as int, m as int), vl),
            decreases n - i,
        {
            let x = &self.col_values[i];
            let y = &other.col_values[i];
            let ghost sa = a.subrange(i as int, n as int);
            let ghost sb = b.subrange(i as int, m as int);
            assert(sa.len() > 0 && sb.len() > 0 && sa[0] == x@ && sb[0] == y@);
            if x.less_than(y) {
                return true;
            }
            if !x.same_as(y) {
                assert(!vl(sa[0], sb[0]) && sa[0] != sb[0]);
                return false;
            }
            proof {
                lemma_value_order();
                assert(!vl(sa[0], sb[0]));
                assert(sa.drop_first() =~= a.subrange(i + 1, n as int));
                assert(sb.drop_first() =~= b.subrange(i + 1, m as int));
            }
            i = i + 1;
        }
        i < m
    }
}

} // verus!
