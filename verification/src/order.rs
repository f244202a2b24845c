//! Sorted lists.

use vstd::prelude::*;

use crate::text::{
    lemma_text_lt_irreflexive, lemma_text_lt_total, lemma_text_lt_transitive, less, same, text_lt,
    texts,
};

verus! {

/// A type whose values can be put in order, by what they stand for.
pub trait Ranked: Sized + View {
    /// Whether `a` comes before `b`.
    spec fn before(a: Self::V, b: Self::V) -> bool;

    fn comes_before(&self, other: &Self) -> (r: bool)
        ensures
            r == Self::before(self@, other@),
    ;
}

/// The order of a type.
pub open spec fn order_of<T: Ranked>() -> spec_fn(T::V, T::V) -> bool {
    |a: T::V, b: T::V| T::before(a, b)
}

/// What the items of a list stand for.
pub open spec fn views<T: View>(s: Seq<T>) -> Seq<T::V> {
    s.map_values(|x: T| x@)
}

/// The numbers of a list.
pub open spec fn as_ints(v: Seq<usize>) -> Seq<int> {
    v.map_values(|x: usize| x as int)
}

/// The list `s` with `x` behind the last item that does not come after it.
pub open spec fn inserted<A>(s: Seq<A>, x: A, lt: spec_fn(A, A) -> bool) -> Seq<A>
    decreases s.len(),
{
    if s.len() > 0 && lt(x, s.last()) {
        inserted(s.drop_last(), x, lt).push(s.last())
    } else {
        s.push(x)
    }
}

/// The items of `s` in order; items of the same rank keep the order that they have in `s`.
pub open spec fn stable_sorted<A>(s: Seq<A>, lt: spec_fn(A, A) -> bool) -> Seq<A>
    decreases s.len(),
{
    if s.len() == 0 {
        s
    } else {
        inserted(stable_sorted(s.drop_last(), lt), s.last(), lt)
    }
}

proof fn lemma_inserted_at<A>(s: Seq<A>, x: A, i: int, lt: spec_fn(A, A) -> bool)
    requires
        0 <= i <= s.len(),
        forall|j: int| i <= j < s.len() ==> lt(x, #[trigger] s[j]),
        i > 0 ==> !lt(x, s[i - 1]),
    ensures
        inserted(s, x, lt) == s.insert(i, x),
    decreases s.len(),
{
    if i == s.len() {
        assert(s.insert(i, x) =~= s.push(x));
    } else {
        assert(lt(x, s[s.len() - 1]));
        let t = s.drop_last();
        lemma_inserted_at(t, x, i, lt);
        assert(s.insert(i, x) =~= t.insert(i, x).push(s.last()));
    }
}

/// The items of `v` in order; items of the same rank keep their order.
pub fn stable_sort<T: Ranked>(v: Vec<T>) -> (r: Vec<T>)
    ensures
        views(r@) == stable_sorted(views(v@), order_of::<T>()),
{
    let ghost s = views(v@);
    let ghost lt = order_of::<T>();
    let mut rest = v;
    let mut queue: Vec<T> = Vec::new();
    while rest.len() > 0
        invariant
            rest@.len() + queue@.len() == s.len(),
            views(rest@) == s.subrange(0, rest@.len() as int),
            forall|j: int| 0 <= j < queue@.len() ==> (#[trigger] queue@[j])@ == s[s.len() - 1 - j],
        decreases rest@.len(),
    {
        let ghost before = rest@;
        match rest.pop() {
            Some(x) => {
                proof {
                    assert(views(before)[before.len() - 1] == x@);
                    assert(views(rest@) =~= s.subrange(0, rest@.len() as int)) by {
                        assert forall|k: int| 0 <= k < rest@.len() implies views(rest@)[k]
                            == s[k] by {
                            assert(views(before)[k] == before[k]@);
                        }
                    }
                }
                queue.push(x);
            },
            None => {},
        }
    }
    let mut out: Vec<T> = Vec::new();
    assert(s.subrange(0, 0) =~= Seq::<T::V>::empty());
    assert(views(out@) =~= Seq::<T::V>::empty());
    while queue.len() > 0
        invariant
            queue@.len() <= s.len(),
            lt == order_of::<T>(),
            forall|j: int| 0 <= j < queue@.len() ==> (#[trigger] queue@[j])@ == s[s.len() - 1 - j],
            views(out@) == stable_sorted(s.subrange(0, s.len() - queue@.len()), lt),
        decreases queue@.len(),
    {
        let ghost done = s.len() - queue@.len();
        match queue.pop() {
            Some(x) => {
                let mut i: usize = out.len();
                let ghost o = views(out@);
                while i > 0 && x.comes_before(&out[i - 1])
                    invariant
                        i <= out@.len(),
                        o == views(out@),
                        lt == order_of::<T>(),
                        forall|j: int| i <= j < out@.len() ==> lt(x@, #[trigger] o[j]),
                    decreases i,
                {
                    assert(o[i - 1] == out@[i - 1]@);
                    i = i - 1;
                }
                proof {
                    if i > 0 {
                        assert(o[i - 1] == out@[i - 1]@);
                    }
                    lemma_inserted_at(o, x@, i as int, lt);
                    let u = s.subrange(0, done + 1);
                    assert(u.drop_last() =~= s.subrange(0, done));
                    assert(u.last() == x@);
                }
                out.insert(i, x);
                assert(views(out@) =~= o.insert(i as int, x@));
            },
            None => {},
        }
    }
    assert(s.subrange(0, s.len() as int) =~= s);
    out
}

proof fn lemma_inserted_multiset<A>(s: Seq<A>, x: A, lt: spec_fn(A, A) -> bool)
    ensures
        inserted(s, x, lt).to_multiset() =~= s.to_multiset().insert(x),
    decreases s.len(),
{
    broadcast use vstd::seq_lib::group_to_multiset_ensures;

    if s.len() > 0 && lt(x, s.last()) {
        lemma_inserted_multiset(s.drop_last(), x, lt);
        assert(s.drop_last().push(s.last()) =~= s);
    }
}

/// Sorting loses no item and invents none.
pub proof fn sorting_keeps_the_items<A>(s: Seq<A>, lt: spec_fn(A, A) -> bool)
    ensures
        stable_sorted(s, lt).to_multiset() =~= s.to_multiset(),
    decreases s.len(),
{
    broadcast use vstd::seq_lib::group_to_multiset_ensures;

    if s.len() > 0 {
        sorting_keeps_the_items(s.drop_last(), lt);
        lemma_inserted_multiset(stable_sorted(s.drop_last(), lt), s.last(), lt);
        assert(s.drop_last().push(s.last()) =~= s);
    }
}

/// No item comes before an earlier one.
pub open spec fn in_order<A>(s: Seq<A>, lt: spec_fn(A, A) -> bool) -> bool {
    forall|i: int, j: int| 0 <= i < j < s.len() ==> !lt(#[trigger] s[j], #[trigger] s[i])
}

/// A strict weak order: no item comes before itself, what comes before an item comes before all
/// that come after it, and the same of what does not come before.
pub open spec fn is_weak_order<A>(lt: spec_fn(A, A) -> bool) -> bool {
    &&& forall|a: A| !(#[trigger] lt(a, a))
    &&& forall|a: A, b: A, c: A| #[trigger] lt(a, b) && #[trigger] lt(b, c) ==> lt(a, c)
    &&& forall|a: A, b: A, c: A| !(#[trigger] lt(b, a)) && !(#[trigger] lt(c, b)) ==> !lt(c, a)
}

proof fn lemma_inserted_in_order<A>(s: Seq<A>, x: A, lt: spec_fn(A, A) -> bool)
    requires
        in_order(s, lt),
        is_weak_order(lt),
    ensures
        in_order(inserted(s, x, lt), lt),
        inserted(s, x, lt).len() == s.len() + 1,
        forall|i: int|
            0 <= i < inserted(s, x, lt).len() ==> #[trigger] inserted(s, x, lt)[i] == x || exists|
                j: int,
            | 0 <= j < s.len() && inserted(s, x, lt)[i] == #[trigger] s[j],
    decreases s.len(),
{
    if s.len() > 0 && lt(x, s.last()) {
        let t = s.drop_last();
        assert(in_order(t, lt));
        lemma_inserted_in_order(t, x, lt);
        let u = inserted(t, x, lt);
        let w = inserted(s, x, lt);
        assert(w == u.push(s.last()));
        assert forall|i: int, j: int| 0 <= i < j < w.len() implies !lt(
            #[trigger] w[j],
            #[trigger] w[i],
        ) by {
            if j < u.len() {
                assert(!lt(u[j], u[i]));
            } else {
                assert(w[i] == u[i]);
                if u[i] != x {
                    let k = choose|k: int| 0 <= k < t.len() && u[i] == #[trigger] t[k];
                    assert(t[k] == s[k]);
                    assert(!lt(s[s.len() - 1], s[k]));
                } else if lt(s.last(), x) {
                    assert(lt(x, x));
                }
            }
        }
        assert forall|i: int| 0 <= i < w.len() implies #[trigger] w[i] == x || exists|j: int|
            0 <= j < s.len() && w[i] == #[trigger] s[j] by {
            if i < u.len() {
                assert(w[i] == u[i]);
                if u[i] != x {
                    let k = choose|k: int| 0 <= k < t.len() && u[i] == #[trigger] t[k];
                    assert(s[k] == t[k]);
                }
            } else {
                assert(w[i] == s[s.len() - 1]);
            }
        }
    } else {
        let w = s.push(x);
        assert forall|i: int, j: int| 0 <= i < j < w.len() implies !lt(
            #[trigger] w[j],
            #[trigger] w[i],
        ) by {
            if j == s.len() && i < s.len() - 1 {
                assert(!lt(s[s.len() - 1], s[i]));
                assert(!lt(x, s[s.len() - 1]));
            }
        }
        assert forall|i: int| 0 <= i < w.len() implies #[trigger] w[i] == x || exists|j: int|
            0 <= j < s.len() && w[i] == #[trigger] s[j] by {
            if i < s.len() {
                assert(w[i] == s[i]);
            }
        }
    }
}

/// What is sorted is in order.
pub proof fn sorting_puts_in_order<A>(s: Seq<A>, lt: spec_fn(A, A) -> bool)
    requires
        is_weak_order(lt),
    ensures
        in_order(stable_sorted(s, lt), lt),
    decreases s.len(),
{
    if s.len() > 0 {
        sorting_puts_in_order(s.drop_last(), lt);
        lemma_inserted_in_order(stable_sorted(s.drop_last(), lt), s.last(), lt);
    }
}

/// Whether an item has the rank of `r`: neither comes before the other.
pub open spec fn ranks_with<A>(r: A, lt: spec_fn(A, A) -> bool) -> spec_fn(A) -> bool {
    |a: A| !lt(a, r) && !lt(r, a)
}

proof fn lemma_inserted_rank<A>(s: Seq<A>, x: A, r: A, lt: spec_fn(A, A) -> bool)
    requires
        is_weak_order(lt),
    ensures
        inserted(s, x, lt).filter(ranks_with(r, lt)) == s.push(x).filter(ranks_with(r, lt)),
    decreases s.len(),
{
    reveal(Seq::filter);
    let p = ranks_with(r, lt);
    assert(s.push(x).drop_last() =~= s);
    if s.len() > 0 && lt(x, s.last()) {
        let t = s.drop_last();
        lemma_inserted_rank(t, x, r, lt);
        assert(t.push(x).drop_last() =~= t);
        let w = inserted(s, x, lt);
        assert(w.drop_last() =~= inserted(t, x, lt));
        assert(w.last() == s.last());
        assert(s.filter(p) == if p(s.last()) { t.filter(p).push(s.last()) } else { t.filter(p) });
        assert(t.push(x).filter(p) == if p(x) { t.filter(p).push(x) } else { t.filter(p) });
        if p(x) && p(s.last()) {
            assert(!lt(r, s.last()) && !lt(x, r));
            assert(!lt(x, s.last()));
        }
    }
}

/// Sorting is stable: items of one rank keep their order.
pub proof fn sorting_is_stable<A>(s: Seq<A>, r: A, lt: spec_fn(A, A) -> bool)
    requires
        is_weak_order(lt),
    ensures
        stable_sorted(s, lt).filter(ranks_with(r, lt)) == s.filter(ranks_with(r, lt)),
    decreases s.len(),
{
    if s.len() > 0 {
        reveal(Seq::filter);
        let t = s.drop_last();
        sorting_is_stable(t, r, lt);
        lemma_inserted_rank(stable_sorted(t, lt), s.last(), r, lt);
        assert(stable_sorted(t, lt).push(s.last()).drop_last() =~= stable_sorted(t, lt));
    }
}

proof fn lemma_last_is_there<A>(a: Seq<A>, b: Seq<A>, lt: spec_fn(A, A) -> bool)
    requires
        is_weak_order(lt),
        a.len() > 0,
        a.filter(ranks_with(a.last(), lt)) == b.filter(ranks_with(a.last(), lt)),
    ensures
        b.contains(a.last()),
{
    reveal(Seq::filter);
    let p = ranks_with(a.last(), lt);
    assert(!lt(a.last(), a.last()));
    let f = a.filter(p);
    assert(f.last() == a.last());
    lemma_filtered_is_there(b, p, f.len() - 1);
}

proof fn lemma_filtered_is_there<A>(s: Seq<A>, p: spec_fn(A) -> bool, i: int)
    requires
        0 <= i < s.filter(p).len(),
    ensures
        s.contains(s.filter(p)[i]),
    decreases s.len(),
{
    reveal(Seq::filter);
    if s.len() > 0 {
        let t = s.drop_last();
        if i < t.filter(p).len() {
            lemma_filtered_is_there(t, p, i);
            let k = choose|k: int| 0 <= k < t.len() && t[k] == t.filter(p)[i];
            assert(s[k] == s.filter(p)[i]);
        } else {
            assert(s[s.len() - 1] == s.filter(p)[i]);
        }
    }
}

/// A list in order is fixed by its items of each rank.
pub proof fn ranks_fix_ordered_lists<A>(a: Seq<A>, b: Seq<A>, lt: spec_fn(A, A) -> bool)
    requires
        is_weak_order(lt),
        in_order(a, lt),
        in_order(b, lt),
        forall|r: A| #[trigger] a.filter(ranks_with(r, lt)) == b.filter(ranks_with(r, lt)),
    ensures
        a == b,
    decreases a.len(),
{
    reveal(Seq::filter);
    if a.len() == 0 {
        if b.len() > 0 {
            let y = b.last();
            assert(a.filter(ranks_with(y, lt)) == b.filter(ranks_with(y, lt)));
            lemma_last_is_there(b, a, lt);
        }
        assert(a =~= b);
    } else {
        let x = a.last();
        assert(a.filter(ranks_with(x, lt)) == b.filter(ranks_with(x, lt)));
        lemma_last_is_there(a, b, lt);
        let y = b.last();
        assert(a.filter(ranks_with(y, lt)) == b.filter(ranks_with(y, lt)));
        lemma_last_is_there(b, a, lt);
        let m = choose|m: int| 0 <= m < b.len() && b[m] == x;
        let k = choose|k: int| 0 <= k < a.len() && a[k] == y;
        assert(!lt(x, x) && !lt(y, y));
        if k < a.len() - 1 {
            assert(!lt(a[a.len() - 1], a[k]));
        }
        if m < b.len() - 1 {
            assert(!lt(b[b.len() - 1], b[m]));
        }
        assert(!lt(x, y) && !lt(y, x));
        assert(a.filter(ranks_with(x, lt)).last() == x);
        assert(b.filter(ranks_with(x, lt)).last() == y);
        let c = a.drop_last();
        let d = b.drop_last();
        assert forall|r: A| #[trigger] c.filter(ranks_with(r, lt)) == d.filter(
            ranks_with(r, lt),
        ) by {
            let p = ranks_with(r, lt);
            assert(a.filter(p) == b.filter(p));
            if p(x) {
                assert(a.filter(p).drop_last() =~= c.filter(p));
                assert(b.filter(p).drop_last() =~= d.filter(p));
            }
        }
        ranks_fix_ordered_lists(c, d, lt);
        assert(a =~= c.push(x));
        assert(b =~= d.push(x));
    }
}

/// Lists that have the same items of each rank, in the same order, are sorted to the same list.
pub proof fn sorting_looks_at_ranks<A>(a: Seq<A>, b: Seq<A>, lt: spec_fn(A, A) -> bool)
    requires
        is_weak_order(lt),
        forall|r: A| #[trigger] a.filter(ranks_with(r, lt)) == b.filter(ranks_with(r, lt)),
    ensures
        stable_sorted(a, lt) == stable_sorted(b, lt),
{
    let x = stable_sorted(a, lt);
    let y = stable_sorted(b, lt);
    sorting_puts_in_order(a, lt);
    sorting_puts_in_order(b, lt);
    assert forall|r: A| #[trigger] x.filter(ranks_with(r, lt)) == y.filter(ranks_with(r, lt)) by {
        sorting_is_stable(a, r, lt);
        sorting_is_stable(b, r, lt);
        assert(a.filter(ranks_with(r, lt)) == b.filter(ranks_with(r, lt)));
    }
    ranks_fix_ordered_lists(x, y, lt);
}

/// The items without those that occurred before.
pub open spec fn distinct<A>(s: Seq<A>) -> Seq<A>
    decreases s.len(),
{
    if s.len() == 0 {
        s
    } else if distinct(s.drop_last()).contains(s.last()) {
        distinct(s.drop_last())
    } else {
        distinct(s.drop_last()).push(s.last())
    }
}

/// The distinct items of a list are the items of the list, each once.
pub proof fn distinct_items<A>(s: Seq<A>)
    ensures
        distinct(s).no_duplicates(),
        distinct(s).to_set() == s.to_set(),
    decreases s.len(),
{
    if s.len() > 0 {
        let t = s.drop_last();
        distinct_items(t);
        let d = distinct(t);
        let e = distinct(s);
        assert forall|x: A| e.to_set().contains(x) == s.to_set().contains(x) by {
            assert(d.to_set().contains(x) == t.to_set().contains(x));
            if t.contains(x) {
                let k = choose|k: int| 0 <= k < t.len() && t[k] == x;
                assert(s[k] == x);
                assert(d.contains(x));
                let m = choose|m: int| 0 <= m < d.len() && d[m] == x;
                assert(e[m] == x);
            }
            if s.contains(x) && !t.contains(x) {
                let k = choose|k: int| 0 <= k < s.len() && s[k] == x;
                if k < t.len() {
                    assert(t[k] == x);
                }
                assert(x == s.last());
                if !d.contains(x) {
                    assert(e[d.len() as int] == x);
                }
            }
            if e.contains(x) {
                let k = choose|k: int| 0 <= k < e.len() && e[k] == x;
                if k < d.len() {
                    assert(d[k] == x);
                    assert(d.contains(x));
                } else {
                    assert(s[s.len() - 1] == x);
                }
            }
        }
        assert(e.to_set() =~= s.to_set());
    } else {
        assert(distinct(s) =~= s);
    }
}

/// The texts are in alphabetical order, and none occurs twice.
pub open spec fn strictly_sorted(s: Seq<Seq<char>>) -> bool {
    forall|i: int, j: int| 0 <= i < j < s.len() ==> text_lt(#[trigger] s[i], #[trigger] s[j])
}

/// `r` lists the texts of `s` in alphabetical order, each once.
pub open spec fn sorted_set_of(r: Seq<Seq<char>>, s: Seq<Seq<char>>) -> bool {
    strictly_sorted(r) && r.to_set() == s.to_set()
}

/// Each item comes before all later ones.
pub open spec fn strictly_ordered<A>(s: Seq<A>, lt: spec_fn(A, A) -> bool) -> bool {
    forall|i: int, j: int| 0 <= i < j < s.len() ==> lt(#[trigger] s[i], #[trigger] s[j])
}

/// A strict total order: no item comes before itself, what comes before an item comes before all
/// that come after it, and of two items one comes before the other.
pub open spec fn is_total_order<A>(lt: spec_fn(A, A) -> bool) -> bool {
    &&& forall|a: A| !(#[trigger] lt(a, a))
    &&& forall|a: A, b: A, c: A| #[trigger] lt(a, b) && #[trigger] lt(b, c) ==> lt(a, c)
    &&& forall|a: A, b: A| a == b || #[trigger] lt(a, b) || lt(b, a)
}

/// There is only one way to list items in a strict total order, each once.
pub proof fn ordered_sets_are_unique<A>(a: Seq<A>, b: Seq<A>, lt: spec_fn(A, A) -> bool)
    requires
        is_total_order(lt),
        strictly_ordered(a, lt),
        strictly_ordered(b, lt),
        a.to_set() == b.to_set(),
    ensures
        a == b,
    decreases a.len(),
{
    if a.len() == 0 {
        if b.len() > 0 {
            assert(b.to_set().contains(b[0]));
            assert(a.to_set().contains(b[0]));
        }
        assert(a =~= b);
    } else {
        assert(a.to_set().contains(a.last()));
        assert(b.to_set().contains(a.last()));
        let p = choose|p: int| 0 <= p < b.len() && b[p] == a.last();
        assert(b.to_set().contains(b.last()));
        assert(a.to_set().contains(b.last()));
        let q = choose|q: int| 0 <= q < a.len() && a[q] == b.last();
        if p < b.len() - 1 {
            assert(lt(b[p], b[b.len() - 1]));
            if q < a.len() - 1 {
                assert(lt(a[q], a[a.len() - 1]));
                assert(lt(a.last(), a.last()));
            }
            assert(!lt(a.last(), a.last()));
        }
        assert(a.last() == b.last());
        let x = a.last();
        let c = a.drop_last();
        let d = b.drop_last();
        assert(strictly_ordered(c, lt));
        assert(strictly_ordered(d, lt));
        assert(c.to_set() =~= d.to_set()) by {
            assert forall|e: A| c.to_set().contains(e) == d.to_set().contains(e) by {
                if c.contains(e) {
                    let k = choose|k: int| 0 <= k < c.len() && c[k] == e;
                    assert(a[k] == e);
                    assert(lt(a[k], a[a.len() - 1]));
                    assert(a.to_set().contains(e));
                    assert(b.to_set().contains(e));
                    let m = choose|m: int| 0 <= m < b.len() && b[m] == e;
                    assert(!lt(e, e));
                    assert(d[m] == e);
                }
                if d.contains(e) {
                    let k = choose|k: int| 0 <= k < d.len() && d[k] == e;
                    assert(b[k] == e);
                    assert(lt(b[k], b[b.len() - 1]));
                    assert(b.to_set().contains(e));
                    assert(a.to_set().contains(e));
                    let m = choose|m: int| 0 <= m < a.len() && a[m] == e;
                    assert(!lt(e, e));
                    assert(c[m] == e);
                }
            }
        }
        ordered_sets_are_unique(c, d, lt);
        assert(a =~= c.push(x));
        assert(b =~= d.push(x));
    }
}

/// Distinct items that are sorted in a strict total order come strictly one before the other, and
/// they are the same items.
pub proof fn sorting_orders_strictly<A>(s: Seq<A>, lt: spec_fn(A, A) -> bool)
    requires
        is_total_order(lt),
        s.no_duplicates(),
    ensures
        strictly_ordered(stable_sorted(s, lt), lt),
        stable_sorted(s, lt).to_set() == s.to_set(),
{
    broadcast use vstd::seq_lib::group_to_multiset_ensures;

    let r = stable_sorted(s, lt);
    assert forall|a: A, b: A, c: A|
        !(#[trigger] lt(b, a)) && !(#[trigger] lt(c, b)) implies !lt(c, a) by {
        if lt(c, a) {
            assert(a == b || lt(a, b));
            assert(b == c || lt(b, c));
            assert(lt(a, b) && lt(b, c) ==> lt(a, c));
            assert(lt(a, c) && lt(c, a) ==> lt(a, a));
        }
    }
    sorting_puts_in_order(s, lt);
    sorting_keeps_the_items(s, lt);
    s.lemma_multiset_has_no_duplicates();
    r.lemma_multiset_has_no_duplicates_conv();
    assert forall|i: int, j: int| 0 <= i < j < r.len() implies lt(#[trigger] r[i], #[trigger] r[j]) by {
        assert(!lt(r[j], r[i]));
    }
    assert(r.to_set() =~= s.to_set()) by {
        assert forall|x: A| r.to_set().contains(x) == s.to_set().contains(x) by {
            assert(r.contains(x) <==> r.to_multiset().count(x) > 0);
            assert(s.contains(x) <==> s.to_multiset().count(x) > 0);
        }
    }
}

/// The alphabetical order.
pub open spec fn text_order() -> spec_fn(Seq<char>, Seq<char>) -> bool {
    |a: Seq<char>, b: Seq<char>| text_lt(a, b)
}

/// The alphabetical order is a strict total order.
pub proof fn texts_are_ordered()
    ensures
        is_total_order(text_order()),
{
    let lt = text_order();
    assert forall|a: Seq<char>| !(#[trigger] lt(a, a)) by {
        lemma_text_lt_irreflexive(a);
    }
    assert forall|a: Seq<char>, b: Seq<char>, c: Seq<char>| #[trigger]
        lt(a, b) && #[trigger] lt(b, c) implies lt(a, c) by {
        lemma_text_lt_transitive(a, b, c);
    }
    assert forall|a: Seq<char>, b: Seq<char>| a == b || #[trigger] lt(a, b) || lt(b, a) by {
        lemma_text_lt_total(a, b);
    }
}

/// There is only one way to list texts in alphabetical order, each once.
pub proof fn sorted_sets_are_unique(a: Seq<Seq<char>>, b: Seq<Seq<char>>, s: Seq<Seq<char>>)
    requires
        sorted_set_of(a, s),
        sorted_set_of(b, s),
    ensures
        a == b,
{
    texts_are_ordered();
    ordered_sets_are_unique(a, b, text_order());
}

/// Adds a text to a list in alphabetical order, unless it is in the list.
pub fn insert_text(v: &mut Vec<String>, x: String)
    requires
        strictly_sorted(texts(old(v)@)),
    ensures
        strictly_sorted(texts(final(v)@)),
        texts(final(v)@).to_set() == texts(old(v)@).to_set().insert(x@),
{
    let ghost s = texts(v@);
    let mut i: usize = 0;
    while i < v.len() && less(v[i].as_str(), x.as_str())
        invariant
            i <= v@.len(),
            s == texts(v@),
            v@ == old(v)@,
            forall|j: int| 0 <= j < i ==> text_lt(#[trigger] s[j], x@),
        decreases v@.len() - i,
    {
        i = i + 1;
    }
    if i < v.len() && same(v[i].as_str(), x.as_str()) {
        assert(s[i as int] == x@);
        assert(s.to_set() =~= s.to_set().insert(x@));
        return;
    }
    let ghost text = x@;
    v.insert(i, x);
    proof {
        let u = texts(v@);
        assert(u =~= s.insert(i as int, text));
        if i < s.len() {
            lemma_text_lt_total(s[i as int], text);
        }
        assert forall|a: int, b: int| 0 <= a < b < u.len() implies text_lt(
            #[trigger] u[a],
            #[trigger] u[b],
        ) by {
            if a < i && b < i {
                assert(text_lt(s[a], s[b]));
            } else if a < i && b > i {
                assert(text_lt(s[a], s[b - 1]));
            } else if a > i {
                assert(text_lt(s[a - 1], s[b - 1]));
            } else if a == i {
                if b - 1 > i {
                    assert(text_lt(s[i as int], s[b - 1]));
                    lemma_text_lt_transitive(text, s[i as int], s[b - 1]);
                }
            }
        }
        assert(u.to_set() =~= s.to_set().insert(text)) by {
            assert forall|e: Seq<char>| u.to_set().contains(e) == s.to_set().insert(
                text,
            ).contains(e) by {
                if s.contains(e) {
                    let k = choose|k: int| 0 <= k < s.len() && s[k] == e;
                    if k < i {
                        assert(u[k] == e);
                    } else {
                        assert(u[k + 1] == e);
                    }
                }
                if u.contains(e) && e != text {
                    let k = choose|k: int| 0 <= k < u.len() && u[k] == e;
                    if k < i {
                        assert(s[k] == e);
                    } else {
                        assert(s[k - 1] == e);
                    }
                }
                assert(u[i as int] == text);
            }
        }
    }
}

/// The texts of `v` in alphabetical order, each once.
pub fn sorted_set(v: &Vec<String>) -> (r: Vec<String>)
    ensures
        sorted_set_of(texts(r@), texts(v@)),
{
    let mut out: Vec<String> = Vec::new();
    let ghost s = texts(v@);
    let mut i: usize = 0;
    assert(texts(out@) =~= Seq::<Seq<char>>::empty());
    assert(texts(out@).to_set() =~= s.subrange(0, 0).to_set());
    while i < v.len()
        invariant
            i <= v@.len(),
            s == texts(v@),
            strictly_sorted(texts(out@)),
            texts(out@).to_set() == s.subrange(0, i as int).to_set(),
        decreases v@.len() - i,
    {
        insert_text(&mut out, v[i].clone());
        proof {
            let t = s.subrange(0, i as int);
            let u = s.subrange(0, i + 1);
            assert(u.to_set() =~= t.to_set().insert(s[i as int])) by {
                assert forall|e: Seq<char>| u.to_set().contains(e) == t.to_set().insert(
                    s[i as int],
                ).contains(e) by {
                    if u.contains(e) && e != s[i as int] {
                        let k = choose|k: int| 0 <= k < u.len() && u[k] == e;
                        assert(t[k] == e);
                    }
                    if t.contains(e) {
                        let k = choose|k: int| 0 <= k < t.len() && t[k] == e;
                        assert(u[k] == e);
                    }
                    assert(u[i as int] == s[i as int]);
                }
            }
        }
        i = i + 1;
    }
    assert(s.subrange(0, s.len() as int) =~= s);
    out
}

} // verus!
