//! The order of texts, and stable sorting.
use vstd::prelude::*;

use crate::text::chars_of;

verus! {

/// Whether `a` stands before `b` in the order of code points.
pub open spec fn text_before(a: Seq<char>, b: Seq<char>) -> bool
    decreases b.len(),
{
    b.len() > 0 && (a.len() == 0 || a[0] < b[0] || (a[0] == b[0] && text_before(
        a.skip(1),
        b.skip(1),
    )))
}

/// No text stands before itself.
pub proof fn law_text_order_irreflexive(a: Seq<char>)
    ensures
        !text_before(a, a),
    decreases a.len(),
{
    if a.len() > 0 {
        law_text_order_irreflexive(a.skip(1));
    }
}

/// The order of texts is transitive.
pub proof fn law_text_order_transitive(a: Seq<char>, b: Seq<char>, c: Seq<char>)
    requires
        text_before(a, b),
        text_before(b, c),
    ensures
        text_before(a, c),
    decreases a.len(),
{
    if a.len() > 0 && a[0] == b[0] && b[0] == c[0] {
        law_text_order_transitive(a.skip(1), b.skip(1), c.skip(1));
    }
}

/// Of two different texts one stands before the other.
pub proof fn law_text_order_total(a: Seq<char>, b: Seq<char>)
    ensures
        text_before(a, b) || text_before(b, a) || a == b,
    decreases a.len(),
{
    if a.len() > 0 && b.len() > 0 && a[0] == b[0] {
        law_text_order_total(a.skip(1), b.skip(1));
        if a.skip(1) == b.skip(1) {
            assert(a =~= seq![a[0]] + a.skip(1));
            assert(b =~= seq![b[0]] + b.skip(1));
        }
    } else if a.len() == 0 && b.len() == 0 {
        assert(a =~= b);
    }
}

/// Whether `a` stands before `b`.
pub fn stands_before(a: &str, b: &str) -> (r: bool)
    ensures
        r == text_before(a@, b@),
{
    let left = chars_of(a);
    let right = chars_of(b);
    let mut i: usize = 0;
    proof {
        assert(a@.skip(0) =~= a@);
        assert(b@.skip(0) =~= b@);
    }
    while i < left.len() && i < right.len()
        invariant
            left@ == a@,
            right@ == b@,
            i <= left@.len(),
            i <= right@.len(),
            text_before(a@, b@) == text_before(a@.skip(i as int), b@.skip(i as int)),
        decreases left@.len() - i,
    {
        proof {
            assert(a@.skip(i as int).skip(1) =~= a@.skip(i + 1));
            assert(b@.skip(i as int).skip(1) =~= b@.skip(i + 1));
        }
        if left[i] < right[i] {
            return true;
        }
        if right[i] < left[i] {
            return false;
        }
        i = i + 1;
    }
    i >= left.len() && i < right.len()
}

/// Things with a rank: some must come before others.
pub trait Ranked: View + Sized {
    /// Whether a thing with the values `a` must come before one with the values `b`.
    spec fn ranks_before(a: Self::V, b: Self::V) -> bool;

    /// Decides `ranks_before`.
    fn before(&self, other: &Self) -> (r: bool)
        ensures
            r == Self::ranks_before(self@, other@),
    ;
}

/// The values of things.
pub open spec fn values<T: View>(items: Seq<T>) -> Seq<T::V> {
    items.map_values(|t: T| t@)
}

/// The rank of `T` as a relation.
pub open spec fn rank_of<T: Ranked>() -> spec_fn(T::V, T::V) -> bool {
    |a: T::V, b: T::V| T::ranks_before(a, b)
}

/// `sorted` with `x` put behind everything that it need not come before.
pub open spec fn insert_ranked<V>(
    sorted: Seq<V>,
    x: V,
    before: spec_fn(V, V) -> bool,
) -> Seq<V>
    decreases sorted.len(),
{
    if sorted.len() == 0 || !before(x, sorted.last()) {
        sorted.push(x)
    } else {
        insert_ranked(sorted.drop_last(), x, before).push(sorted.last())
    }
}

/// `items` by rank; items of equal rank keep their order.
pub open spec fn stable_sorted<V>(items: Seq<V>, before: spec_fn(V, V) -> bool) -> Seq<V>
    decreases items.len(),
{
    if items.len() == 0 {
        items
    } else {
        insert_ranked(stable_sorted(items.drop_last(), before), items.last(), before)
    }
}

/// Inserting adds the item and nothing else.
proof fn lemma_insert_ranked_multiset<V>(sorted: Seq<V>, x: V, before: spec_fn(V, V) -> bool)
    ensures
        insert_ranked(sorted, x, before).to_multiset() == sorted.to_multiset().insert(x),
        insert_ranked(sorted, x, before).len() == sorted.len() + 1,
    decreases sorted.len(),
{
    broadcast use vstd::seq_lib::group_to_multiset_ensures;

    if sorted.len() == 0 || !before(x, sorted.last()) {
    } else {
        lemma_insert_ranked_multiset(sorted.drop_last(), x, before);
        let inner = insert_ranked(sorted.drop_last(), x, before);
        assert(sorted =~= sorted.drop_last().push(sorted.last()));
        assert(inner.push(sorted.last()).to_multiset() =~= sorted.to_multiset().insert(x));
    }
}

/// Sorting neither loses nor invents an item.
pub proof fn law_sort_is_permutation<V>(items: Seq<V>, before: spec_fn(V, V) -> bool)
    ensures
        stable_sorted(items, before).to_multiset() == items.to_multiset(),
        stable_sorted(items, before).len() == items.len(),
    decreases items.len(),
{
    broadcast use vstd::seq_lib::group_to_multiset_ensures;

    if items.len() > 0 {
        law_sort_is_permutation(items.drop_last(), before);
        lemma_insert_ranked_multiset(
            stable_sorted(items.drop_last(), before),
            items.last(),
            before,
        );
        assert(items =~= items.drop_last().push(items.last()));
    }
}

/// An item is among the sorted ones exactly if it was among the given ones.
pub proof fn lemma_sort_contains<V>(items: Seq<V>, before: spec_fn(V, V) -> bool, x: V)
    ensures
        stable_sorted(items, before).contains(x) <==> items.contains(x),
{
    broadcast use vstd::seq_lib::group_to_multiset_ensures;

    law_sort_is_permutation(items, before);
    assert(stable_sorted(items, before).contains(x) <==> stable_sorted(
        items,
        before,
    ).to_multiset().count(x) > 0);
    assert(items.contains(x) <==> items.to_multiset().count(x) > 0);
}

/// A strict weak order: nothing comes before itself, "before" is transitive, and so is
/// "not before".
pub open spec fn is_order<V>(before: spec_fn(V, V) -> bool) -> bool {
    &&& forall|a: V| !#[trigger] before(a, a)
    &&& forall|a: V, b: V, c: V|
        #[trigger] before(a, b) && #[trigger] before(b, c) ==> before(a, c)
    &&& forall|a: V, b: V, c: V|
        !(#[trigger] before(a, b)) && !(#[trigger] before(b, c)) ==> !before(a, c)
}

/// No item comes before an earlier one.
pub open spec fn in_order<V>(items: Seq<V>, before: spec_fn(V, V) -> bool) -> bool {
    forall|i: int, j: int|
        0 <= i < j < items.len() ==> !before(#[trigger] items[j], #[trigger] items[i])
}

proof fn lemma_insert_ranked_in_order<V>(sorted: Seq<V>, x: V, before: spec_fn(V, V) -> bool)
    requires
        is_order(before),
        in_order(sorted, before),
    ensures
        in_order(insert_ranked(sorted, x, before), before),
        forall|i: int|
            0 <= i < insert_ranked(sorted, x, before).len() ==> (#[trigger] insert_ranked(
                sorted,
                x,
                before,
            )[i] == x || sorted.contains(insert_ranked(sorted, x, before)[i])),
    decreases sorted.len(),
{
    let r = insert_ranked(sorted, x, before);
    if sorted.len() == 0 || !before(x, sorted.last()) {
        assert forall|i: int, j: int| 0 <= i < j < r.len() implies !before(
            #[trigger] r[j],
            #[trigger] r[i],
        ) by {
            if j == sorted.len() {
                if i < sorted.len() - 1 {
                    let last = sorted[sorted.len() - 1];
                    assert(!before(last, sorted[i]));
                    assert(!before(x, last));
                }
            }
        }
        assert forall|i: int| 0 <= i < r.len() implies (#[trigger] r[i] == x || sorted.contains(
            r[i],
        )) by {
            if i < sorted.len() {
                assert(r[i] == sorted[i]);
            }
        }
    } else {
        let front = sorted.drop_last();
        let last = sorted.last();
        let inner = insert_ranked(front, x, before);
        lemma_insert_ranked_in_order(front, x, before);
        assert forall|i: int, j: int| 0 <= i < j < r.len() implies !before(
            #[trigger] r[j],
            #[trigger] r[i],
        ) by {
            if j == inner.len() {
                assert(r[i] == inner[i]);
                if inner[i] != x {
                    let k = choose|k: int| 0 <= k < front.len() && front[k] == inner[i];
                    assert(sorted[k] == front[k]);
                    assert(!before(sorted[sorted.len() - 1], sorted[k]));
                } else {
                    assert(before(x, last));
                    if before(last, x) {
                        assert(before(x, x));
                    }
                }
            } else {
                assert(r[i] == inner[i] && r[j] == inner[j]);
            }
        }
        assert forall|i: int| 0 <= i < r.len() implies (#[trigger] r[i] == x || sorted.contains(
            r[i],
        )) by {
            if i < inner.len() {
                assert(r[i] == inner[i]);
                if inner[i] != x {
                    let k = choose|k: int| 0 <= k < front.len() && front[k] == inner[i];
                    assert(sorted[k] == r[i]);
                }
            } else {
                assert(sorted[sorted.len() - 1] == r[i]);
            }
        }
    }
}

/// Sorting by an order puts the items in that order.
pub proof fn law_sort_is_ordered<V>(items: Seq<V>, before: spec_fn(V, V) -> bool)
    requires
        is_order(before),
    ensures
        in_order(stable_sorted(items, before), before),
    decreases items.len(),
{
    if items.len() > 0 {
        law_sort_is_ordered(items.drop_last(), before);
        lemma_insert_ranked_in_order(
            stable_sorted(items.drop_last(), before),
            items.last(),
            before,
        );
    }
}

/// Whether no two items have the same key.
pub open spec fn distinct_keys<V, K>(items: Seq<V>, key: spec_fn(V) -> K) -> bool {
    forall|i: int, j: int|
        0 <= i < j < items.len() ==> key(#[trigger] items[i]) != key(#[trigger] items[j])
}

proof fn lemma_insert_ranked_keys<V, K>(
    sorted: Seq<V>,
    x: V,
    before: spec_fn(V, V) -> bool,
    key: spec_fn(V) -> K,
)
    requires
        distinct_keys(sorted, key),
        forall|i: int| 0 <= i < sorted.len() ==> key(#[trigger] sorted[i]) != key(x),
    ensures
        distinct_keys(insert_ranked(sorted, x, before), key),
        forall|i: int|
            0 <= i < insert_ranked(sorted, x, before).len() ==> (#[trigger] insert_ranked(
                sorted,
                x,
                before,
            )[i] == x || sorted.contains(insert_ranked(sorted, x, before)[i])),
    decreases sorted.len(),
{
    let r = insert_ranked(sorted, x, before);
    if sorted.len() == 0 || !before(x, sorted.last()) {
        assert forall|i: int| 0 <= i < r.len() implies (#[trigger] r[i] == x || sorted.contains(
            r[i],
        )) by {
            if i < sorted.len() {
                assert(r[i] == sorted[i]);
            }
        }
    } else {
        let front = sorted.drop_last();
        let inner = insert_ranked(front, x, before);
        lemma_insert_ranked_keys(front, x, before, key);
        assert forall|i: int| 0 <= i < r.len() implies (#[trigger] r[i] == x || sorted.contains(
            r[i],
        )) by {
            if i < inner.len() {
                assert(r[i] == inner[i]);
                if inner[i] != x {
                    let k = choose|k: int| 0 <= k < front.len() && front[k] == inner[i];
                    assert(sorted[k] == r[i]);
                }
            } else {
                assert(sorted[sorted.len() - 1] == r[i]);
            }
        }
        assert forall|i: int, j: int| 0 <= i < j < r.len() implies key(#[trigger] r[i]) != key(
            #[trigger] r[j],
        ) by {
            assert(r[i] == inner[i]);
            if j == inner.len() {
                assert(r[j] == sorted[sorted.len() - 1]);
                if inner[i] != x {
                    let k = choose|k: int| 0 <= k < front.len() && front[k] == inner[i];
                    assert(sorted[k] == inner[i]);
                }
            } else {
                assert(r[j] == inner[j]);
            }
        }
    }
}

/// Sorting keeps keys apart.
pub proof fn lemma_sort_keys<V, K>(
    items: Seq<V>,
    before: spec_fn(V, V) -> bool,
    key: spec_fn(V) -> K,
)
    requires
        distinct_keys(items, key),
    ensures
        distinct_keys(stable_sorted(items, before), key),
    decreases items.len(),
{
    if items.len() > 0 {
        let front = items.drop_last();
        let sorted = stable_sorted(front, before);
        assert(distinct_keys(front, key));
        lemma_sort_keys(front, before, key);
        assert forall|i: int| 0 <= i < sorted.len() implies key(#[trigger] sorted[i]) != key(
            items.last(),
        ) by {
            lemma_sort_contains(front, before, sorted[i]);
            assert(sorted.contains(sorted[i]));
            let k = choose|k: int| 0 <= k < front.len() && front[k] == sorted[i];
            assert(items[k] == sorted[i]);
            assert(key(items[k]) != key(items[items.len() - 1]));
        }
        lemma_insert_ranked_keys(sorted, items.last(), before, key);
    }
}

/// What is in order already stays as it is.
pub proof fn lemma_sorted_stays<V>(items: Seq<V>, before: spec_fn(V, V) -> bool)
    requires
        in_order(items, before),
    ensures
        stable_sorted(items, before) == items,
    decreases items.len(),
{
    if items.len() > 0 {
        let front = items.drop_last();
        assert forall|i: int, j: int| 0 <= i < j < front.len() implies !before(
            #[trigger] front[j],
            #[trigger] front[i],
        ) by {
            assert(!before(items[j], items[i]));
        }
        lemma_sorted_stays(front, before);
        if front.len() > 0 {
            assert(!before(items[items.len() - 1], items[front.len() - 1]));
        }
        assert(items =~= front.push(items.last()));
    }
}

/// A part of what is in order is in order, and its last item is one of the whole.
pub proof fn lemma_part_in_order<V>(
    items: Seq<V>,
    before: spec_fn(V, V) -> bool,
    keep: spec_fn(V) -> bool,
)
    requires
        in_order(items, before),
    ensures
        in_order(items.filter(keep), before),
        forall|i: int|
            0 <= i < items.filter(keep).len() ==> items.contains(#[trigger] items.filter(keep)[i]),
    decreases items.len(),
{
    reveal(Seq::filter);
    if items.len() > 0 {
        let front = items.drop_last();
        let part = front.filter(keep);
        let r = items.filter(keep);
        assert forall|i: int, j: int| 0 <= i < j < front.len() implies !before(
            #[trigger] front[j],
            #[trigger] front[i],
        ) by {
            assert(!before(items[j], items[i]));
        }
        lemma_part_in_order(front, before, keep);
        assert forall|i: int| 0 <= i < r.len() implies items.contains(#[trigger] r[i]) by {
            if i < part.len() {
                assert(r[i] == part[i]);
                let k = choose|k: int| 0 <= k < front.len() && front[k] == part[i];
                assert(items[k] == r[i]);
            } else {
                assert(items[items.len() - 1] == r[i]);
            }
        }
        assert forall|i: int, j: int| 0 <= i < j < r.len() implies !before(
            #[trigger] r[j],
            #[trigger] r[i],
        ) by {
            assert(r[i] == part[i]);
            if j < part.len() {
                assert(r[j] == part[j]);
            } else {
                let k = choose|k: int| 0 <= k < front.len() && front[k] == part[i];
                assert(!before(items[items.len() - 1], items[k]));
            }
        }
    }
}

proof fn lemma_insert_ranked_part<V>(
    sorted: Seq<V>,
    x: V,
    before: spec_fn(V, V) -> bool,
    keep: spec_fn(V) -> bool,
)
    requires
        is_order(before),
        in_order(sorted, before),
    ensures
        insert_ranked(sorted, x, before).filter(keep) == (if keep(x) {
            insert_ranked(sorted.filter(keep), x, before)
        } else {
            sorted.filter(keep)
        }),
    decreases sorted.len(),
{
    reveal(Seq::filter);
    let part = sorted.filter(keep);
    if sorted.len() == 0 || !before(x, sorted.last()) {
        assert(sorted.push(x).drop_last() =~= sorted);
        if keep(x) && part.len() > 0 {
            lemma_part_in_order(sorted, before, keep);
            let e = part[part.len() - 1];
            let k = choose|k: int| 0 <= k < sorted.len() && sorted[k] == e;
            let last = sorted[sorted.len() - 1];
            if k < sorted.len() - 1 {
                assert(!before(last, sorted[k]));
            }
            assert(!before(x, e));
        }
    } else {
        let front = sorted.drop_last();
        let inner = insert_ranked(front, x, before);
        assert forall|i: int, j: int| 0 <= i < j < front.len() implies !before(
            #[trigger] front[j],
            #[trigger] front[i],
        ) by {
            assert(!before(sorted[j], sorted[i]));
        }
        lemma_insert_ranked_part(front, x, before, keep);
        assert(inner.push(sorted.last()).drop_last() =~= inner);
        if keep(sorted.last()) {
            assert(part.drop_last() =~= front.filter(keep));
        }
    }
}

/// Sorting a part is taking the part of what is sorted.
pub proof fn lemma_sort_part<V>(
    items: Seq<V>,
    before: spec_fn(V, V) -> bool,
    keep: spec_fn(V) -> bool,
)
    requires
        is_order(before),
    ensures
        stable_sorted(items, before).filter(keep) == stable_sorted(items.filter(keep), before),
    decreases items.len(),
{
    reveal(Seq::filter);
    if items.len() > 0 {
        let front = items.drop_last();
        let part = items.filter(keep);
        lemma_sort_part(front, before, keep);
        law_sort_is_ordered(front, before);
        lemma_insert_ranked_part(stable_sorted(front, before), items.last(), before, keep);
        if keep(items.last()) {
            assert(part.drop_last() =~= front.filter(keep));
        }
    }
}

/// Puts `x` into `sorted`, behind everything that it need not come before.
fn insert_by_rank<T: Ranked>(sorted: &mut Vec<T>, x: T)
    ensures
        values(final(sorted)@) == insert_ranked(values(old(sorted)@), x@, rank_of::<T>()),
{
    let ghost all = values(sorted@);
    let ghost before = rank_of::<T>();
    let mut at: usize = sorted.len();
    proof {
        assert(all.take(at as int) =~= all);
        assert(all.skip(at as int) =~= Seq::empty());
        assert(insert_ranked(all, x@, before) + Seq::<T::V>::empty() =~= insert_ranked(
            all,
            x@,
            before,
        ));
    }
    while at > 0 && x.before(&sorted[at - 1])
        invariant
            at <= sorted@.len(),
            values(sorted@) == all,
            before == rank_of::<T>(),
            insert_ranked(all, x@, before) == insert_ranked(all.take(at as int), x@, before)
                + all.skip(at as int),
        decreases at,
    {
        proof {
            let front = all.take(at as int);
            assert(front.drop_last() =~= all.take(at - 1));
            assert(front.last() == all[at - 1]);
            assert(all[at - 1] == sorted@[at - 1]@);
            assert(all.skip(at - 1) =~= seq![all[at - 1]] + all.skip(at as int));
            assert(insert_ranked(all.take(at - 1), x@, before).push(all[at - 1]) + all.skip(
                at as int,
            ) =~= insert_ranked(all.take(at - 1), x@, before) + all.skip(at - 1));
        }
        at = at - 1;
    }
    proof {
        if at > 0 {
            assert(all.take(at as int).last() == all[at - 1]);
            assert(all[at - 1] == sorted@[at - 1]@);
        }
        assert(values(sorted@.insert(at as int, x)) =~= all.take(at as int).push(x@) + all.skip(
            at as int,
        ));
    }
    sorted.insert(at, x);
}

/// Sorts by rank; items of equal rank keep their order.
pub fn sort_by_rank<T: Ranked>(items: Vec<T>) -> (r: Vec<T>)
    ensures
        values(r@) == stable_sorted(values(items@), rank_of::<T>()),
{
    let ghost all = items@;
    let mut sorted: Vec<T> = Vec::new();
    proof {
        assert(values(sorted@) =~= Seq::empty());
        assert(values(all.take(0)) =~= Seq::empty());
    }
    for x in it: items
        invariant
            it.seq() == all,
            values(sorted@) == stable_sorted(values(all.take(it.index())), rank_of::<T>()),
    {
        proof {
            let next = values(all.take(it.index() + 1));
            assert(next.drop_last() =~= values(all.take(it.index())));
            assert(next.last() == x@);
        }
        insert_by_rank(&mut sorted, x);
    }
    proof {
        assert(all.take(all.len() as int) =~= all);
    }
    sorted
}

impl Ranked for String {
    open spec fn ranks_before(a: Seq<char>, b: Seq<char>) -> bool {
        text_before(a, b)
    }

    fn before(&self, other: &String) -> (r: bool) {
        stands_before(self.as_str(), other.as_str())
    }
}

/// The order of texts is an order.
pub proof fn lemma_text_rank_is_order()
    ensures
        is_order(rank_of::<String>()),
{
    let before = rank_of::<String>();
    assert forall|a: Seq<char>| !#[trigger] before(a, a) by {
        law_text_order_irreflexive(a);
    }
    assert forall|a: Seq<char>, b: Seq<char>, c: Seq<char>|
        #[trigger] before(a, b) && #[trigger] before(b, c) implies before(a, c) by {
        law_text_order_transitive(a, b, c);
    }
    assert forall|a: Seq<char>, b: Seq<char>, c: Seq<char>|
        !(#[trigger] before(a, b)) && !(#[trigger] before(b, c)) implies !before(a, c) by {
        law_text_order_total(a, b);
        law_text_order_total(b, c);
        if text_before(a, c) {
            if a == b {
            } else if b == c {
            } else {
                law_text_order_transitive(c, b, a);
                law_text_order_transitive(a, c, a);
                law_text_order_irreflexive(a);
            }
        }
    }
}

/// Each text of `items` stands before the next.
pub open spec fn strictly_increasing(items: Seq<Seq<char>>) -> bool {
    forall|i: int, j: int|
        0 <= i < j < items.len() ==> text_before(#[trigger] items[i], #[trigger] items[j])
}

} // verus!
