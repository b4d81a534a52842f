use vstd::prelude::*;

verus! {

/// The index of the first occurrence of `x` in `s`, or -1 where there is none.
pub open spec fn first_index<A>(s: Seq<A>, x: A) -> int
    decreases s.len(),
{
    if s.len() == 0 {
        -1
    } else if s[0] == x {
        0
    } else {
        let r = first_index(s.drop_first(), x);
        if r < 0 {
            -1
        } else {
            r + 1
        }
    }
}

pub proof fn lemma_first_index_found<A>(s: Seq<A>, x: A, i: int)
    requires
        0 <= i < s.len(),
        s[i] == x,
        forall|j: int| 0 <= j < i ==> s[j] != x,
    ensures
        first_index(s, x) == i,
    decreases s.len(),
{
    if i > 0 {
        let t = s.drop_first();
        assert forall|j: int| 0 <= j < i - 1 implies t[j] != x by {
            assert(s[j + 1] != x);
        }
        lemma_first_index_found(t, x, i - 1);
    }
}

pub proof fn lemma_first_index_absent<A>(s: Seq<A>, x: A)
    requires
        forall|j: int| 0 <= j < s.len() ==> s[j] != x,
    ensures
        first_index(s, x) == -1,
    decreases s.len(),
{
    if s.len() > 0 {
        let t = s.drop_first();
        assert forall|j: int| 0 <= j < t.len() implies t[j] != x by {
            assert(s[j + 1] != x);
        }
        lemma_first_index_absent(t, x);
    }
}

pub proof fn lemma_first_index_bounds<A>(s: Seq<A>, x: A)
    ensures
        -1 <= first_index(s, x) < s.len(),
        first_index(s, x) >= 0 ==> s[first_index(s, x)] == x,
        first_index(s, x) < 0 <==> !s.contains(x),
    decreases s.len(),
{
    if s.len() > 0 {
        let t = s.drop_first();
        lemma_first_index_bounds(t, x);
        if s[0] != x {
            if s.contains(x) {
                let j = choose|j: int| 0 <= j < s.len() && s[j] == x;
                assert(t[j - 1] == x);
            }
            if t.contains(x) {
                let j = choose|j: int| 0 <= j < t.len() && t[j] == x;
                assert(s[j + 1] == x);
            }
        } else {
            assert(s.contains(x));
        }
    }
}

/// `s` with every element after its first occurrence left out.
pub open spec fn distinct<A>(s: Seq<A>) -> Seq<A>
    decreases s.len(),
{
    if s.len() == 0 {
        s
    } else {
        let d = distinct(s.drop_last());
        if d.contains(s.last()) {
            d
        } else {
            d.push(s.last())
        }
    }
}

/// The first element of `a`, then the first of `b`, then the second of `a`, and so on;
/// the rest of the longer sequence follows.
pub open spec fn interleave<A>(a: Seq<A>, b: Seq<A>) -> Seq<A>
    decreases a.len() + b.len(),
{
    if a.len() == 0 {
        b
    } else if b.len() == 0 {
        a
    } else {
        seq![a[0], b[0]] + interleave(a.drop_first(), b.drop_first())
    }
}

pub proof fn lemma_interleave_push_both<A>(a: Seq<A>, b: Seq<A>, x: A, y: A)
    requires
        a.len() == b.len(),
    ensures
        interleave(a.push(x), b.push(y)) == interleave(a, b) + seq![x, y],
    decreases a.len(),
{
    if a.len() == 0 {
        assert(interleave(a.push(x), b.push(y)) =~= seq![x, y] + interleave(
            a.push(x).drop_first(),
            b.push(y).drop_first(),
        ));
        assert(a.push(x).drop_first() =~= Seq::<A>::empty());
        assert(interleave(a, b) =~= Seq::<A>::empty());
        assert(interleave(a.push(x), b.push(y)) =~= interleave(a, b) + seq![x, y]);
    } else {
        assert(a.push(x).drop_first() =~= a.drop_first().push(x));
        assert(b.push(y).drop_first() =~= b.drop_first().push(y));
        lemma_interleave_push_both(a.drop_first(), b.drop_first(), x, y);
        assert(interleave(a.push(x), b.push(y)) =~= interleave(a, b) + seq![x, y]);
    }
}

pub proof fn lemma_interleave_push_right<A>(a: Seq<A>, b: Seq<A>, y: A)
    requires
        a.len() <= b.len(),
    ensures
        interleave(a, b.push(y)) == interleave(a, b).push(y),
    decreases a.len(),
{
    if a.len() == 0 {
    } else {
        assert(b.push(y).drop_first() =~= b.drop_first().push(y));
        lemma_interleave_push_right(a.drop_first(), b.drop_first(), y);
        assert(interleave(a, b.push(y)) =~= interleave(a, b).push(y));
    }
}

pub proof fn lemma_interleave_push_left<A>(a: Seq<A>, b: Seq<A>, x: A)
    requires
        b.len() <= a.len(),
    ensures
        interleave(a.push(x), b) == interleave(a, b).push(x),
    decreases b.len(),
{
    if b.len() == 0 {
    } else {
        assert(a.push(x).drop_first() =~= a.drop_first().push(x));
        lemma_interleave_push_left(a.drop_first(), b.drop_first(), x);
        assert(interleave(a.push(x), b) =~= interleave(a, b).push(x));
    }
}

pub proof fn lemma_prefix_contains<A>(s: Seq<A>, i: int, x: A)
    requires
        0 <= i < s.len(),
    ensures
        s.subrange(0, i + 1).contains(x) <==> s.subrange(0, i).contains(x) || x == s[i],
{
    let p = s.subrange(0, i);
    let q = s.subrange(0, i + 1);
    assert(q =~= p.push(s[i]));
    if q.contains(x) {
        let j = choose|j: int| 0 <= j < q.len() && q[j] == x;
        if j < i {
            assert(p[j] == x);
        }
    }
    if p.contains(x) {
        let j = choose|j: int| 0 <= j < p.len() && p[j] == x;
        assert(q[j] == x);
    }
    if x == s[i] {
        assert(q[i] == x);
    }
}

pub proof fn lemma_push_contains<A>(s: Seq<A>, a: A, x: A)
    ensures
        s.push(a).contains(x) <==> s.contains(x) || x == a,
{
    let q = s.push(a);
    if q.contains(x) {
        let j = choose|j: int| 0 <= j < q.len() && q[j] == x;
        if j < s.len() {
            assert(s[j] == x);
        }
    }
    if s.contains(x) {
        let j = choose|j: int| 0 <= j < s.len() && s[j] == x;
        assert(q[j] == x);
    }
    if x == a {
        assert(q[s.len() as int] == x);
    }
}

/// Every element of `s` is in `distinct(s)`, and nothing else.
pub proof fn lemma_distinct_contains<A>(s: Seq<A>, x: A)
    ensures
        distinct(s).contains(x) <==> s.contains(x),
    decreases s.len(),
{
    if s.len() > 0 {
        let p = s.drop_last();
        assert(s =~= p.push(s.last()));
        lemma_push_contains(p, s.last(), x);
        lemma_distinct_contains(p, x);
        lemma_distinct_contains(p, s.last());
        lemma_push_contains(distinct(p), s.last(), x);
    }
}

/// An element of either sequence is in their interleaving, and nothing else.
pub proof fn lemma_interleave_contains<A>(a: Seq<A>, b: Seq<A>, x: A)
    ensures
        interleave(a, b).contains(x) <==> a.contains(x) || b.contains(x),
    decreases a.len() + b.len(),
{
    if a.len() > 0 && b.len() > 0 {
        let ta = a.drop_first();
        let tb = b.drop_first();
        lemma_interleave_contains(ta, tb, x);
        let rest = interleave(ta, tb);
        let s = seq![a[0], b[0]] + rest;
        assert(interleave(a, b) == s);
        if s.contains(x) {
            let j = choose|j: int| 0 <= j < s.len() && s[j] == x;
            if j >= 2 {
                assert(rest[j - 2] == x);
            } else if j == 0 {
                assert(a[0] == x);
            } else {
                assert(b[0] == x);
            }
        }
        if rest.contains(x) {
            let j = choose|j: int| 0 <= j < rest.len() && rest[j] == x;
            assert(s[j + 2] == x);
        }
        if a.contains(x) {
            let j = choose|j: int| 0 <= j < a.len() && a[j] == x;
            if j == 0 {
                assert(s[0] == x);
            } else {
                assert(ta[j - 1] == x);
            }
        }
        if b.contains(x) {
            let j = choose|j: int| 0 <= j < b.len() && b[j] == x;
            if j == 0 {
                assert(s[1] == x);
            } else {
                assert(tb[j - 1] == x);
            }
        }
        if ta.contains(x) {
            let j = choose|j: int| 0 <= j < ta.len() && ta[j] == x;
            assert(a[j + 1] == x);
        }
        if tb.contains(x) {
            let j = choose|j: int| 0 <= j < tb.len() && tb[j] == x;
            assert(b[j + 1] == x);
        }
    }
}

/// No element occurs twice in `distinct(s)`.
pub proof fn lemma_distinct_no_duplicates<A>(s: Seq<A>)
    ensures
        distinct(s).no_duplicates(),
    decreases s.len(),
{
    if s.len() > 0 {
        let p = s.drop_last();
        lemma_distinct_no_duplicates(p);
        let d = distinct(p);
        if !d.contains(s.last()) {
            let e = d.push(s.last());
            assert forall|i: int, j: int| 0 <= i < e.len() && 0 <= j < e.len() && i != j implies e[i] != e[j] by {
                if i == d.len() as int {
                    assert(d[j] == e[j]);
                } else if j == d.len() as int {
                    assert(d[i] == e[i]);
                }
            }
        }
    }
}

/// `s` is strictly increasing under `lt`.
pub open spec fn strictly_sorted<A>(s: Seq<A>, lt: spec_fn(A, A) -> bool) -> bool {
    forall|i: int, j: int| 0 <= i < j < s.len() ==> #[trigger] lt(s[i], s[j])
}

} // verus!
