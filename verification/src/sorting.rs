//! Stable sorting by a strict order.
use vstd::prelude::*;

verus! {

/// A list with one item put in before the first item that it comes before.
pub open spec fn insert_by<V>(list: Seq<V>, x: V, before: spec_fn(V, V) -> bool) -> Seq<V>
    decreases list.len(),
{
    if list.len() == 0 {
        seq![x]
    } else if before(x, list.last()) {
        insert_by(list.drop_last(), x, before).push(list.last())
    } else {
        list.push(x)
    }
}

/// The items of a list in order; items of which neither comes before the other
/// keep theirs.
pub open spec fn sorted_by<V>(list: Seq<V>, before: spec_fn(V, V) -> bool) -> Seq<V>
    decreases list.len(),
{
    if list.len() == 0 {
        seq![]
    } else {
        insert_by(sorted_by(list.drop_last(), before), list.last(), before)
    }
}

pub open spec fn views_of<T: View>(v: Seq<T>) -> Seq<T::V> {
    v.map_values(|x: T| x@)
}

/// Sorts items by a strict order, which `f` decides.
pub(crate) fn sort_items<T: View, F: Fn(&T, &T) -> bool>(
    items: Vec<T>,
    f: F,
    before: Ghost<spec_fn(T::V, T::V) -> bool>,
) -> (r: Vec<T>)
    requires
        forall|a: &T, b: &T| call_requires(f, (a, b)),
        forall|a: &T, b: &T, res: bool| call_ensures(f, (a, b), res) ==> res == before@(a@, b@),
    ensures
        views_of(r@) == sorted_by(views_of(items@), before@),
{
    let ghost all = views_of(items@);
    let ghost n = items@.len();
    let mut rest = items;
    let mut waiting: Vec<T> = Vec::new();
    // The items in reverse, so that they can be taken from the end.
    while rest.len() > 0
        invariant
            rest@ == items@.take(rest@.len() as int),
            rest@.len() + waiting@.len() == items@.len(),
            forall|k: int| 0 <= k < waiting@.len() ==> waiting@[k] == items@[items@.len() - 1 - k],
        decreases rest@.len(),
    {
        let ghost m = rest@.len();
        if let Some(x) = rest.pop() {
            waiting.push(x);
        }
        assert(rest@ =~= items@.take(rest@.len() as int));
    }
    let mut out: Vec<T> = Vec::new();
    assert(views_of(out@) =~= seq![]);
    assert(all.take(0) =~= seq![]);
    while waiting.len() > 0
        invariant
            all == views_of(items@),
            out@.len() + waiting@.len() == items@.len(),
            forall|k: int| 0 <= k < waiting@.len() ==> waiting@[k] == items@[items@.len() - 1 - k],
            forall|a: &T, b: &T| call_requires(f, (a, b)),
            forall|a: &T, b: &T, res: bool|
                call_ensures(f, (a, b), res) ==> res == before@(a@, b@),
            views_of(out@) == sorted_by(all.take(out@.len() as int), before@),
        decreases waiting@.len(),
    {
        let ghost i = out@.len() as int;
        let ghost sorted = views_of(out@);
        match waiting.pop() {
            Some(x) => {
                proof {
                    assert(x == items@[i]);
                    let t = all.take(i + 1);
                    assert(t.drop_last() =~= all.take(i));
                    assert(t.last() == x@);
                }
                let ghost xv = x@;
                let mut k: usize = out.len();
                assert(sorted.take(k as int) =~= sorted);
                assert(sorted.skip(k as int) =~= seq![]);
                assert(insert_by(sorted, xv, before@) =~= insert_by(
                    sorted.take(k as int),
                    xv,
                    before@,
                ) + sorted.skip(k as int));
                while k > 0 && f(&x, &out[k - 1])
                    invariant
                        sorted == views_of(out@),
                        xv == x@,
                        k <= out@.len(),
                        forall|a: &T, b: &T| call_requires(f, (a, b)),
                        forall|a: &T, b: &T, res: bool|
                            call_ensures(f, (a, b), res) ==> res == before@(a@, b@),
                        insert_by(sorted, xv, before@) == insert_by(
                            sorted.take(k as int),
                            xv,
                            before@,
                        ) + sorted.skip(k as int),
                    decreases k,
                {
                    proof {
                        let t = sorted.take(k as int);
                        assert(t.last() == out@[k - 1]@);
                        assert(t.drop_last() =~= sorted.take(k - 1));
                        assert(insert_by(sorted.take(k - 1), xv, before@).push(t.last())
                            + sorted.skip(k as int) =~= insert_by(
                            sorted.take(k - 1),
                            xv,
                            before@,
                        ) + sorted.skip(k - 1));
                    }
                    k -= 1;
                }
                proof {
                    if k > 0 {
                        let t = sorted.take(k as int);
                        assert(t.last() == out@[k - 1]@);
                    }
                }
                let ghost before_insert = out@;
                out.insert(k, x);
                assert(views_of(out@) =~= sorted.take(k as int).push(xv) + sorted.skip(k as int));
                proof {
                    if k == 0 {
                        assert(sorted.take(0) =~= seq![]);
                        assert(sorted.take(0).push(xv) =~= seq![xv]);
                    }
                }
            },
            None => {},
        }
    }
    assert(all.take(all.len() as int) =~= all);
    out
}

// ---------------------------------------------------------------------------
// Laws
// ---------------------------------------------------------------------------

proof fn lemma_insert_multiset<V>(list: Seq<V>, x: V, before: spec_fn(V, V) -> bool)
    ensures
        insert_by(list, x, before).to_multiset() == list.to_multiset().insert(x),
    decreases list.len(),
{
    broadcast use vstd::seq_lib::group_to_multiset_ensures;

    if list.len() == 0 {
        assert(seq![x] =~= Seq::<V>::empty().push(x));
        assert(list =~= Seq::<V>::empty());
    } else if before(x, list.last()) {
        lemma_insert_multiset(list.drop_last(), x, before);
        assert(list =~= list.drop_last().push(list.last()));
        assert(list.to_multiset() =~= list.drop_last().to_multiset().insert(list.last()));
        assert(insert_by(list, x, before).to_multiset() =~= list.to_multiset().insert(x));
    }
}

/// Sorting keeps the items: each occurs as often as before.
pub proof fn law_sorting_keeps_items<V>(list: Seq<V>, before: spec_fn(V, V) -> bool)
    ensures
        sorted_by(list, before).to_multiset() == list.to_multiset(),
        sorted_by(list, before).len() == list.len(),
    decreases list.len(),
{
    broadcast use vstd::seq_lib::group_to_multiset_ensures;

    if list.len() > 0 {
        law_sorting_keeps_items(list.drop_last(), before);
        lemma_insert_multiset(sorted_by(list.drop_last(), before), list.last(), before);
        assert(list =~= list.drop_last().push(list.last()));
    } else {
        assert(list =~= Seq::<V>::empty());
    }
    assert(sorted_by(list, before).to_multiset().len() == list.to_multiset().len());
}

/// Whether no item comes before one that stands ahead of it.
pub open spec fn in_order<V>(list: Seq<V>, before: spec_fn(V, V) -> bool) -> bool {
    forall|i: int, j: int|
        0 <= i < j < list.len() ==> !before(#[trigger] list[j], #[trigger] list[i])
}

/// Whether a relation is, among some items, a strict order whose incomparable
/// items are alike: of two items at most one comes before the other, and what
/// comes before an item comes before all that the item is not after.
pub open spec fn strict_order<V>(
    among: spec_fn(V) -> bool,
    before: spec_fn(V, V) -> bool,
) -> bool {
    (forall|a: V, b: V| among(a) && among(b) && #[trigger] before(a, b) ==> !before(b, a)) && (forall|
        a: V,
        b: V,
        c: V,
    |
        among(a) && among(b) && among(c) && #[trigger] before(a, b) && !(#[trigger] before(c, b))
            ==> before(a, c))
}

/// Whether every item of a list is one of some items.
pub open spec fn all_among<V>(list: Seq<V>, among: spec_fn(V) -> bool) -> bool {
    forall|i: int| 0 <= i < list.len() ==> among(#[trigger] list[i])
}

proof fn lemma_insert_ordered<V>(
    list: Seq<V>,
    x: V,
    among: spec_fn(V) -> bool,
    before: spec_fn(V, V) -> bool,
)
    requires
        in_order(list, before),
        strict_order(among, before),
        all_among(list, among),
        among(x),
    ensures
        in_order(insert_by(list, x, before), before),
        all_among(insert_by(list, x, before), among),
        forall|i: int|
            0 <= i < insert_by(list, x, before).len() ==> #[trigger] insert_by(list, x, before)[i]
                == x || list.contains(insert_by(list, x, before)[i]),
    decreases list.len(),
{
    let r = insert_by(list, x, before);
    if list.len() > 0 {
        let rest = list.drop_last();
        let last = list.last();
        assert(in_order(rest, before)) by {
            assert forall|i: int, j: int| 0 <= i < j < rest.len() implies !before(
                #[trigger] rest[j],
                #[trigger] rest[i],
            ) by {
                assert(rest[i] == list[i] && rest[j] == list[j]);
            }
        }
        assert(list[list.len() - 1] == last);
        assert(all_among(rest, among)) by {
            assert forall|i: int| 0 <= i < rest.len() implies among(#[trigger] rest[i]) by {
                assert(rest[i] == list[i]);
            }
        }
        if before(x, last) {
            lemma_insert_ordered(rest, x, among, before);
            let inner = insert_by(rest, x, before);
            assert forall|i: int, j: int| 0 <= i < j < r.len() implies !before(
                #[trigger] r[j],
                #[trigger] r[i],
            ) by {
                if j < inner.len() {
                    assert(r[i] == inner[i] && r[j] == inner[j]);
                } else {
                    assert(r[j] == last);
                    assert(r[i] == inner[i]);
                    if inner[i] == x {
                        assert(before(x, last));
                    } else {
                        assert(rest.contains(inner[i]));
                        let k = choose|k: int| 0 <= k < rest.len() && rest[k] == inner[i];
                        assert(list[k] == inner[i]);
                        assert(!before(list[list.len() - 1], list[k]));
                    }
                }
            }
            assert forall|i: int| 0 <= i < r.len() implies #[trigger] r[i] == x || list.contains(
                r[i],
            ) by {
                if i < inner.len() {
                    assert(r[i] == inner[i]);
                    if inner[i] != x {
                        let k = choose|k: int| 0 <= k < rest.len() && rest[k] == inner[i];
                        assert(list[k] == r[i]);
                    }
                } else {
                    assert(list[list.len() - 1] == r[i]);
                }
            }
        } else {
            assert forall|i: int, j: int| 0 <= i < j < r.len() implies !before(
                #[trigger] r[j],
                #[trigger] r[i],
            ) by {
                if j < list.len() {
                    assert(r[i] == list[i] && r[j] == list[j]);
                } else {
                    assert(r[j] == x && r[i] == list[i]);
                    if before(x, list[i]) {
                        if i < list.len() - 1 {
                            assert(!before(list[list.len() - 1], list[i]));
                            assert(before(x, last));
                        }
                    }
                }
            }
            assert forall|i: int| 0 <= i < r.len() implies #[trigger] r[i] == x || list.contains(
                r[i],
            ) by {
                if i < list.len() {
                    assert(list[i] == r[i]);
                }
            }
        }
    }
}

/// Sorting by a strict order puts the items in order.
pub proof fn law_sorting_orders_items<V>(
    list: Seq<V>,
    among: spec_fn(V) -> bool,
    before: spec_fn(V, V) -> bool,
)
    requires
        strict_order(among, before),
        all_among(list, among),
    ensures
        in_order(sorted_by(list, before), before),
        all_among(sorted_by(list, before), among),
    decreases list.len(),
{
    if list.len() > 0 {
        let rest = list.drop_last();
        assert forall|i: int| 0 <= i < rest.len() implies among(#[trigger] rest[i]) by {
            assert(rest[i] == list[i]);
        }
        assert(list[list.len() - 1] == list.last());
        law_sorting_orders_items(rest, among, before);
        lemma_insert_ordered(sorted_by(rest, before), list.last(), among, before);
    }
}

} // verus!
