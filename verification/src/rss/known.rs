//! Which items were seen or loaded, and when.
use vstd::prelude::*;

use crate::order::{
    distinct_keys, is_order, law_sort_is_ordered, law_sort_is_permutation, lemma_part_in_order,
    lemma_sort_contains, lemma_sort_keys, lemma_sort_part, lemma_sorted_stays, rank_of,
    sort_by_rank, stable_sorted, values, Ranked,
};
use crate::text::{lemma_filter_cons, views};

verus! {

/// An item that is remembered, and the time at which it was last met.
pub struct KnownItem {
    pub id: String,
    pub seconds: i64,
}

/// The values of a remembered item.
pub type KnownView = (Seq<char>, i64);

impl View for KnownItem {
    type V = KnownView;

    open spec fn view(&self) -> KnownView {
        (self.id@, self.seconds)
    }
}

impl Ranked for KnownItem {
    open spec fn ranks_before(a: KnownView, b: KnownView) -> bool {
        a.1 > b.1
    }

    fn before(&self, other: &KnownItem) -> (r: bool) {
        self.seconds > other.seconds
    }
}

/// Remembered items, no identity twice.
pub struct KnownItems {
    pub entries: Vec<KnownItem>,
}

impl View for KnownItems {
    type V = Seq<KnownView>;

    open spec fn view(&self) -> Seq<KnownView> {
        values(self.entries@)
    }
}

/// Whether no identity occurs twice.
pub open spec fn distinct_ids(items: Seq<KnownView>) -> bool {
    forall|i: int, j: int|
        0 <= i < j < items.len() ==> (#[trigger] items[i]).0 != (#[trigger] items[j]).0
}

/// Whether an identity is remembered.
pub open spec fn knows(items: Seq<KnownView>, id: Seq<char>) -> bool {
    exists|i: int| 0 <= i < items.len() && (#[trigger] items[i]).0 == id
}

/// The time at which an identity was last met.
pub open spec fn time_of(items: Seq<KnownView>, id: Seq<char>) -> Option<i64>
    decreases items.len(),
{
    if items.len() == 0 {
        None
    } else if items.last().0 == id {
        Some(items.last().1)
    } else {
        time_of(items.drop_last(), id)
    }
}

/// `items` with `id` remembered at `seconds`: its time is replaced where it is
/// remembered already, else it comes last.
pub open spec fn remembered(items: Seq<KnownView>, id: Seq<char>, seconds: i64) -> Seq<
    KnownView,
>
    decreases items.len(),
{
    if items.len() == 0 {
        seq![(id, seconds)]
    } else if items[0].0 == id {
        seq![(id, seconds)] + items.skip(1)
    } else {
        seq![items[0]] + remembered(items.skip(1), id, seconds)
    }
}

/// A remembered identity has a time, and no other has.
pub proof fn lemma_time_of(items: Seq<KnownView>, id: Seq<char>)
    ensures
        time_of(items, id) is Some <==> knows(items, id),
        time_of(items, id) matches Some(t) ==> items.contains((id, t)),
    decreases items.len(),
{
    if items.len() > 0 {
        let front = items.drop_last();
        lemma_time_of(front, id);
        if items.last().0 == id {
            assert(items[items.len() - 1] == (id, items.last().1));
        } else {
            if knows(items, id) {
                let i = choose|i: int| 0 <= i < items.len() && (#[trigger] items[i]).0 == id;
                assert(front[i].0 == id);
            }
            if knows(front, id) {
                let i = choose|i: int| 0 <= i < front.len() && (#[trigger] front[i]).0 == id;
                assert(items[i].0 == id);
                let t = time_of(items, id).unwrap();
                let k = choose|k: int| 0 <= k < front.len() && front[k] == (id, t);
                assert(items[k] == (id, t));
            }
        }
    }
}

/// Where no identity occurs twice, an entry gives the time of its identity.
pub proof fn lemma_entry_time(items: Seq<KnownView>, i: int)
    requires
        distinct_ids(items),
        0 <= i < items.len(),
    ensures
        time_of(items, items[i].0) == Some(items[i].1),
{
    lemma_time_of(items, items[i].0);
    assert(knows(items, items[i].0));
    let t = time_of(items, items[i].0).unwrap();
    let k = choose|k: int| 0 <= k < items.len() && items[k] == (items[i].0, t);
    if k < i {
        assert(items[k].0 != items[i].0);
    } else if i < k {
        assert(items[i].0 != items[k].0);
    }
}

/// Remembering an identity: it is remembered at the given time, every other identity is
/// remembered as before, none occurs twice, and at most one comes to them.
pub proof fn law_remembered(items: Seq<KnownView>, id: Seq<char>, seconds: i64)
    requires
        distinct_ids(items),
    ensures
        distinct_ids(remembered(items, id, seconds)),
        forall|other: Seq<char>| #[trigger]
            knows(remembered(items, id, seconds), other) <==> knows(items, other) || other == id,
        forall|other: Seq<char>|
            #[trigger] time_of(remembered(items, id, seconds), other) == (if other == id {
                Some(seconds)
            } else {
                time_of(items, other)
            }),
        remembered(items, id, seconds).len() == items.len() + (if knows(items, id) {
            0int
        } else {
            1
        }),
{
    let r = remembered(items, id, seconds);
    lemma_remembered_shape(items, id, seconds);
    assert forall|i: int, j: int| 0 <= i < j < r.len() implies (#[trigger] r[i]).0
        != (#[trigger] r[j]).0 by {
        if j < items.len() {
            assert(items[i].0 != items[j].0);
        }
    }
    assert forall|other: Seq<char>| #[trigger] knows(r, other) <==> knows(items, other) || other
        == id by {
        if knows(r, other) {
            let k = choose|k: int| 0 <= k < r.len() && (#[trigger] r[k]).0 == other;
            if k < items.len() {
                assert(items[k].0 == other || other == id);
            }
        }
        if knows(items, other) {
            let k = choose|k: int| 0 <= k < items.len() && (#[trigger] items[k]).0 == other;
            assert(r[k].0 == other);
        }
        if other == id {
            let k = choose|k: int| 0 <= k < r.len() && #[trigger] r[k] == (id, seconds);
            assert(r[k].0 == id);
        }
    }
    assert forall|other: Seq<char>| #[trigger] time_of(r, other) == (if other == id {
        Some(seconds)
    } else {
        time_of(items, other)
    }) by {
        lemma_time_of(r, other);
        lemma_time_of(items, other);
        if other == id {
            let k = choose|k: int| 0 <= k < r.len() && #[trigger] r[k] == (id, seconds);
            lemma_entry_time(r, k);
        } else if knows(items, other) {
            let k = choose|k: int| 0 <= k < items.len() && (#[trigger] items[k]).0 == other;
            lemma_entry_time(items, k);
            assert(r[k] == items[k]);
            lemma_entry_time(r, k);
        } else {
            assert(!knows(r, other));
        }
    }
}

/// Where the entries stand after an identity was remembered.
proof fn lemma_remembered_shape(items: Seq<KnownView>, id: Seq<char>, seconds: i64)
    requires
        distinct_ids(items),
    ensures
        ({
            let r = remembered(items, id, seconds);
            &&& r.len() == items.len() + (if knows(items, id) { 0int } else { 1 })
            &&& forall|k: int| 0 <= k < items.len() ==> (#[trigger] r[k]) == (if items[k].0 == id {
                (id, seconds)
            } else {
                items[k]
            })
            &&& !knows(items, id) ==> r.last() == (id, seconds)
            &&& exists|k: int| 0 <= k < r.len() && #[trigger] r[k] == (id, seconds)
        }),
    decreases items.len(),
{
    let r = remembered(items, id, seconds);
    if items.len() == 0 {
        assert(r[0] == (id, seconds));
    } else if items[0].0 == id {
        assert(r[0] == (id, seconds));
        assert forall|k: int| 0 <= k < items.len() implies (#[trigger] r[k]) == (if items[k].0
            == id {
            (id, seconds)
        } else {
            items[k]
        }) by {
            if k > 0 {
                assert(items[0].0 != items[k].0);
                assert(items.skip(1)[k - 1] == items[k]);
            }
        }
        assert(knows(items, id));
    } else {
        let rest = items.skip(1);
        assert(distinct_ids(rest)) by {
            assert forall|i: int, j: int| 0 <= i < j < rest.len() implies (#[trigger] rest[i]).0
                != (#[trigger] rest[j]).0 by {
                assert(items[i + 1].0 != items[j + 1].0);
            }
        }
        lemma_remembered_shape(rest, id, seconds);
        let inner = remembered(rest, id, seconds);
        assert(knows(items, id) == knows(rest, id)) by {
            if knows(items, id) {
                let i = choose|i: int| 0 <= i < items.len() && (#[trigger] items[i]).0 == id;
                assert(rest[i - 1].0 == id);
            }
            if knows(rest, id) {
                let i = choose|i: int| 0 <= i < rest.len() && (#[trigger] rest[i]).0 == id;
                assert(items[i + 1].0 == id);
            }
        }
        assert forall|k: int| 0 <= k < items.len() implies (#[trigger] r[k]) == (if items[k].0
            == id {
            (id, seconds)
        } else {
            items[k]
        }) by {
            if k > 0 {
                assert(r[k] == inner[k - 1]);
                assert(rest[k - 1] == items[k]);
            }
        }
        let k = choose|k: int| 0 <= k < inner.len() && #[trigger] inner[k] == (id, seconds);
        assert(r[k + 1] == (id, seconds));
    }
}

impl KnownItems {
    /// No items.
    pub fn new() -> (r: KnownItems)
        ensures
            r@ == Seq::<KnownView>::empty(),
    {
        let r = KnownItems { entries: Vec::new() };
        proof {
            assert(r@ =~= Seq::empty());
        }
        r
    }

    /// The same items once more.
    pub fn copy(&self) -> (r: KnownItems)
        ensures
            r@ == self@,
    {
        let mut entries: Vec<KnownItem> = Vec::new();
        let mut i: usize = 0;
        while i < self.entries.len()
            invariant
                i <= self.entries@.len(),
                values(entries@) == self@.take(i as int),
            decreases self.entries@.len() - i,
        {
            let ghost before = values(entries@);
            let entry = KnownItem {
                id: self.entries[i].id.clone(),
                seconds: self.entries[i].seconds,
            };
            entries.push(entry);
            i = i + 1;
            proof {
                assert(values(entries@) =~= before.push(entry@));
                assert(self@.take(i as int) =~= before.push(entry@));
            }
        }
        proof {
            assert(self@.take(i as int) =~= self@);
        }
        KnownItems { entries }
    }

    /// The time at which an identity was last met.
    pub fn get(&self, id: &String) -> (r: Option<i64>)
        ensures
            r == time_of(self@, id@),
    {
        let mut n: usize = self.entries.len();
        proof {
            assert(self@.take(n as int) =~= self@);
        }
        while n > 0
            invariant
                n <= self.entries@.len(),
                time_of(self@, id@) == time_of(self@.take(n as int), id@),
            decreases n,
        {
            proof {
                assert(self@.take(n as int).last() == self.entries@[n - 1]@);
                assert(self@.take(n as int).drop_last() =~= self@.take(n - 1));
            }
            if self.entries[n - 1].id == *id {
                return Some(self.entries[n - 1].seconds);
            }
            n = n - 1;
        }
        None
    }

    /// Whether an identity is remembered.
    pub fn contains(&self, id: &String) -> (r: bool)
        ensures
            r == knows(self@, id@),
    {
        proof {
            lemma_time_of(self@, id@);
        }
        self.get(id).is_some()
    }

    /// Remembers an identity.
    pub fn insert(&mut self, id: &String, seconds: i64)
        ensures
            final(self)@ == remembered(old(self)@, id@, seconds),
    {
        let ghost all = self@;
        let mut i: usize = 0;
        proof {
            assert(all.skip(0) =~= all);
            assert(all.take(0) + remembered(all, id@, seconds) =~= remembered(all, id@, seconds));
        }
        while i < self.entries.len()
            invariant
                i <= self.entries@.len(),
                all == old(self)@,
                self@ == all,
                remembered(all, id@, seconds) == all.take(i as int) + remembered(
                    all.skip(i as int),
                    id@,
                    seconds,
                ),
            decreases self.entries@.len() - i,
        {
            let ghost rest = all.skip(i as int);
            proof {
                assert(rest[0] == self.entries@[i as int]@);
                assert(rest.skip(1) =~= all.skip(i + 1));
            }
            if self.entries[i].id == *id {
                let entry = KnownItem { id: id.clone(), seconds };
                self.entries.set(i, entry);
                proof {
                    assert(self@ =~= all.take(i as int) + (seq![(id@, seconds)] + rest.skip(1)));
                }
                return;
            }
            proof {
                assert(all.take(i + 1) + remembered(rest.skip(1), id@, seconds) =~= all.take(
                    i as int,
                ) + (seq![rest[0]] + remembered(rest.skip(1), id@, seconds)));
            }
            i = i + 1;
        }
        let entry = KnownItem { id: id.clone(), seconds };
        self.entries.push(entry);
        proof {
            assert(all.skip(i as int) =~= Seq::empty());
            assert(all.take(i as int) =~= all);
            assert(self@ =~= all + seq![(id@, seconds)]);
        }
    }
}

/// The remembered items among `ids`, in the order in which `ids` names them.
pub open spec fn kept_among(items: Seq<KnownView>, ids: Seq<Seq<char>>) -> Seq<KnownView>
    decreases ids.len(),
{
    if ids.len() == 0 {
        Seq::empty()
    } else {
        let front = kept_among(items, ids.drop_last());
        match time_of(items, ids.last()) {
            Some(t) => remembered(front, ids.last(), t),
            None => front,
        }
    }
}

/// `kept`, filled from the front of `more` with what is not yet there, as long as there
/// are fewer than `limit`.
pub open spec fn filled(kept: Seq<KnownView>, more: Seq<KnownView>, limit: nat) -> Seq<
    KnownView,
>
    decreases more.len(),
{
    if more.len() == 0 || kept.len() >= limit {
        kept
    } else if knows(kept, more[0].0) {
        filled(kept, more.skip(1), limit)
    } else {
        filled(kept.push(more[0]), more.skip(1), limit)
    }
}

/// What stays remembered: the items among `ids`, and the latest of the others up to
/// `limit`.
pub open spec fn pruned(items: Seq<KnownView>, ids: Seq<Seq<char>>, limit: nat) -> Seq<
    KnownView,
> {
    filled(
        kept_among(items, ids),
        stable_sorted(items, rank_of::<KnownItem>()),
        limit,
    )
}

impl KnownItems {
    /// Forgets all but the items among `ids` and the latest of the others up to `limit`.
    pub fn prune(&mut self, ids: &Vec<String>, limit: usize)
        ensures
            final(self)@ == pruned(old(self)@, views(ids@), limit as nat),
    {
        let ghost all = self@;
        let ghost names = views(ids@);
        let mut kept = KnownItems::new();
        let mut i: usize = 0;
        proof {
            assert(names.take(0) =~= Seq::empty());
        }
        while i < ids.len()
            invariant
                i <= ids@.len(),
                self@ == all,
                names == views(ids@),
                kept@ == kept_among(all, names.take(i as int)),
            decreases ids@.len() - i,
        {
            proof {
                assert(names.take(i + 1).drop_last() =~= names.take(i as int));
                assert(names.take(i + 1).last() == ids@[i as int]@);
            }
            if let Some(t) = self.get(&ids[i]) {
                kept.insert(&ids[i], t);
            }
            i = i + 1;
        }
        proof {
            assert(names.take(i as int) =~= names);
        }
        let copied = self.copy();
        let sorted = sort_by_rank(copied.entries);
        let ghost more = values(sorted@);
        let mut j: usize = 0;
        proof {
            assert(more.skip(0) =~= more);
        }
        while j < sorted.len() && kept.entries.len() < limit
            invariant
                j <= sorted@.len(),
                more == values(sorted@),
                filled(kept_among(all, names), more, limit as nat) == filled(
                    kept@,
                    more.skip(j as int),
                    limit as nat,
                ),
            decreases sorted@.len() - j,
        {
            let ghost rest = more.skip(j as int);
            let ghost before = kept@;
            proof {
                assert(rest[0] == sorted@[j as int]@);
                assert(rest.skip(1) =~= more.skip(j + 1));
            }
            let next = &sorted[j];
            if !kept.contains(&next.id) {
                let entry = KnownItem { id: next.id.clone(), seconds: next.seconds };
                kept.entries.push(entry);
                proof {
                    assert(kept@ =~= before.push(next@));
                }
            }
            j = j + 1;
        }
        *self = kept;
    }
}

/// The remembered items among some identities, told by identity.
proof fn lemma_kept_among(items: Seq<KnownView>, ids: Seq<Seq<char>>)
    ensures
        distinct_ids(kept_among(items, ids)),
        forall|id: Seq<char>|
            #[trigger] time_of(kept_among(items, ids), id) == (if ids.contains(id) {
                time_of(items, id)
            } else {
                None
            }),
    decreases ids.len(),
{
    if ids.len() > 0 {
        let front = ids.drop_last();
        let last = ids.last();
        lemma_kept_among(items, front);
        assert forall|id: Seq<char>| #[trigger] ids.contains(id) <==> front.contains(id) || id
            == last by {
            if ids.contains(id) {
                let k = choose|k: int| 0 <= k < ids.len() && ids[k] == id;
                if k < front.len() {
                    assert(front[k] == id);
                }
            }
            if front.contains(id) {
                let k = choose|k: int| 0 <= k < front.len() && front[k] == id;
                assert(ids[k] == id);
            }
            if id == last {
                assert(ids[ids.len() - 1] == id);
            }
        }
        if let Some(t) = time_of(items, last) {
            law_remembered(kept_among(items, front), last, t);
        }
    }
}

/// What filling leaves: `kept` first, then entries out of the first `n` of `more`, of
/// which none is missing; `n` falls short of all only where the limit is reached.
proof fn lemma_filled(kept: Seq<KnownView>, more: Seq<KnownView>, limit: nat) -> (n: int)
    requires
        distinct_ids(kept),
    ensures
        0 <= n <= more.len(),
        distinct_ids(filled(kept, more, limit)),
        kept.len() <= filled(kept, more, limit).len(),
        filled(kept, more, limit).take(kept.len() as int) == kept,
        filled(kept, more, limit).len() <= limit || filled(kept, more, limit) == kept,
        n < more.len() ==> filled(kept, more, limit).len() >= limit,
        forall|k: int|
            kept.len() <= k < filled(kept, more, limit).len() ==> more.take(n).contains(
                #[trigger] filled(kept, more, limit)[k],
            ),
        forall|j: int| 0 <= j < n ==> knows(filled(kept, more, limit), (#[trigger] more[j]).0),
    decreases more.len(),
{
    let r = filled(kept, more, limit);
    if more.len() == 0 || kept.len() >= limit {
        assert(r.take(kept.len() as int) =~= kept);
        0
    } else {
        let rest = more.skip(1);
        let next = if knows(kept, more[0].0) {
            kept
        } else {
            kept.push(more[0])
        };
        assert(distinct_ids(next));
        let m = lemma_filled(next, rest, limit);
        assert(more.take(m + 1) =~= seq![more[0]] + rest.take(m));
        assert(kept =~= next.take(kept.len() as int));
        assert(r.take(kept.len() as int) =~= r.take(next.len() as int).take(kept.len() as int));
        assert forall|k: int| kept.len() <= k < r.len() implies more.take(m + 1).contains(
            #[trigger] r[k],
        ) by {
            if k < next.len() {
                assert(r[k] == r.take(next.len() as int)[k]);
                assert(more.take(m + 1)[0] == r[k]);
            } else {
                let j = choose|j: int| 0 <= j < rest.take(m).len() && rest.take(m)[j] == r[k];
                assert(more.take(m + 1)[j + 1] == r[k]);
            }
        }
        assert forall|j: int| 0 <= j < m + 1 implies knows(r, (#[trigger] more[j]).0) by {
            if j == 0 {
                let k = if knows(kept, more[0].0) {
                    choose|k: int| 0 <= k < kept.len() && (#[trigger] kept[k]).0 == more[0].0
                } else {
                    kept.len() as int
                };
                assert(next[k].0 == more[0].0);
                assert(r[k] == r.take(next.len() as int)[k]);
            } else {
                assert(rest[j - 1] == more[j]);
                assert(knows(r, rest[j - 1].0));
            }
        }
        m + 1
    }
}

/// Entries of which no two have the same identity, all of them out of `items` but for the
/// one at `gap`, are fewer than `items`.
proof fn lemma_fewer(part: Seq<KnownView>, items: Seq<KnownView>, gap: Option<int>)
    requires
        distinct_ids(part),
        forall|k: int| 0 <= k < part.len() ==> items.contains(#[trigger] part[k]),
        gap matches Some(g) ==> 0 <= g < items.len() && !part.contains(items[g]),
    ensures
        part.len() + (if gap is Some {
            1int
        } else {
            0
        }) <= items.len(),
    decreases items.len(),
{
    assert(part.no_duplicates()) by {
        assert forall|i: int, j: int|
            0 <= i < part.len() && 0 <= j < part.len() && i != j implies part[i] != part[j] by {
            if i < j {
                assert(part[i].0 != part[j].0);
            } else {
                assert(part[j].0 != part[i].0);
            }
        }
    }
    part.unique_seq_to_set();
    items.lemma_cardinality_of_set();
    match gap {
        None => {
            assert(part.to_set().subset_of(items.to_set()));
            vstd::set_lib::lemma_len_subset(part.to_set(), items.to_set());
        },
        Some(g) => {
            let smaller = items.to_set().remove(items[g]);
            assert(items.to_set().contains(items[g]));
            assert(part.to_set().subset_of(smaller));
            vstd::set_lib::lemma_len_subset(part.to_set(), smaller);
        },
    }
}

/// Pruning forgets nothing that `ids` names and changes no time. Of the others it keeps
/// the latest: whatever is forgotten is no later than whatever of them stays. Nothing is
/// forgotten while there are no more than `limit`, and more than `limit` stay only where
/// `ids` names them all.
pub proof fn law_pruned(items: Seq<KnownView>, ids: Seq<Seq<char>>, limit: nat)
    requires
        distinct_ids(items),
    ensures
        distinct_ids(pruned(items, ids, limit)),
        forall|id: Seq<char>|
            knows(pruned(items, ids, limit), id) ==> #[trigger] time_of(
                pruned(items, ids, limit),
                id,
            ) == time_of(items, id),
        forall|id: Seq<char>|
            ids.contains(id) && knows(items, id) ==> #[trigger] knows(pruned(items, ids, limit), id),
        items.len() <= limit ==> forall|id: Seq<char>|
            knows(items, id) ==> #[trigger] knows(pruned(items, ids, limit), id),
        pruned(items, ids, limit).len() > limit ==> forall|id: Seq<char>|
            #[trigger] knows(pruned(items, ids, limit), id) ==> ids.contains(id),
        forall|stays: Seq<char>, goes: Seq<char>|
            #[trigger] knows(pruned(items, ids, limit), stays) && !ids.contains(stays) && knows(
                items,
                goes,
            ) && !#[trigger] knows(pruned(items, ids, limit), goes) ==> time_of(items, stays).unwrap()
                >= time_of(items, goes).unwrap(),
{
    let before = rank_of::<KnownItem>();
    let kept = kept_among(items, ids);
    let more = stable_sorted(items, before);
    let r = pruned(items, ids, limit);
    lemma_kept_among(items, ids);
    law_sort_is_permutation(items, before);
    assert(is_order(before));
    law_sort_is_ordered(items, before);
    let n = lemma_filled(kept, more, limit);
    // Every entry of the result is an entry of `items`.
    assert forall|k: int| 0 <= k < r.len() implies items.contains(#[trigger] r[k]) by {
        if k < kept.len() {
            assert(r[k] == r.take(kept.len() as int)[k]);
            lemma_entry_time(kept, k);
            lemma_time_of(items, r[k].0);
            assert(time_of(kept, kept[k].0) == time_of(items, kept[k].0));
        } else {
            let j = choose|j: int| 0 <= j < more.take(n).len() && more.take(n)[j] == r[k];
            assert(more[j] == r[k]);
            lemma_sort_contains(items, before, r[k]);
        }
    }
    assert forall|id: Seq<char>| knows(r, id) implies #[trigger] time_of(r, id) == time_of(
        items,
        id,
    ) by {
        let k = choose|k: int| 0 <= k < r.len() && (#[trigger] r[k]).0 == id;
        let i = choose|i: int| 0 <= i < items.len() && items[i] == r[k];
        lemma_entry_time(r, k);
        lemma_entry_time(items, i);
    }
    assert forall|id: Seq<char>| ids.contains(id) && knows(items, id) implies #[trigger] knows(
        r,
        id,
    ) by {
        lemma_time_of(items, id);
        assert(time_of(kept, id) == time_of(items, id));
        lemma_time_of(kept, id);
        let k = choose|k: int| 0 <= k < kept.len() && (#[trigger] kept[k]).0 == id;
        assert(r[k] == r.take(kept.len() as int)[k]);
    }
    // What is not in the result stands in `more` behind the first `n`.
    assert forall|id: Seq<char>| knows(items, id) && !knows(r, id) implies r.len() >= limit && r.len()
        < items.len() && exists|j: int| n <= j < more.len() && (#[trigger] more[j]).0 == id by {
        let i = choose|i: int| 0 <= i < items.len() && (#[trigger] items[i]).0 == id;
        lemma_sort_contains(items, before, items[i]);
        let j = choose|j: int| 0 <= j < more.len() && more[j] == items[i];
        assert(more[j].0 == id);
        assert(n <= j);
        if r.contains(items[i]) {
            let k = choose|k: int| 0 <= k < r.len() && r[k] == items[i];
            assert(r[k].0 == id);
        }
        lemma_fewer(r, items, Some(i));
    }
    assert forall|stays: Seq<char>, goes: Seq<char>|
        #[trigger] knows(r, stays) && !ids.contains(stays) && knows(items, goes)
            && !#[trigger] knows(r, goes) implies time_of(items, stays).unwrap() >= time_of(
        items,
        goes,
    ).unwrap() by {
        let k = choose|k: int| 0 <= k < r.len() && (#[trigger] r[k]).0 == stays;
        if k < kept.len() {
            assert(r[k] == r.take(kept.len() as int)[k]);
            lemma_entry_time(kept, k);
            assert(time_of(kept, stays) is Some);
        }
        let i = choose|i: int| 0 <= i < more.take(n).len() && more.take(n)[i] == r[k];
        assert(more[i] == r[k]);
        let j = choose|j: int| n <= j < more.len() && (#[trigger] more[j]).0 == goes;
        assert(!before(more[j], more[i]));
        lemma_sort_contains(items, before, more[i]);
        lemma_sort_contains(items, before, more[j]);
        let a = choose|a: int| 0 <= a < items.len() && items[a] == more[i];
        let b = choose|b: int| 0 <= b < items.len() && items[b] == more[j];
        lemma_entry_time(items, a);
        lemma_entry_time(items, b);
    }
    if r.len() > limit {
        assert forall|id: Seq<char>| #[trigger] knows(r, id) implies ids.contains(id) by {
            let k = choose|k: int| 0 <= k < r.len() && (#[trigger] r[k]).0 == id;
            lemma_entry_time(kept, k);
            assert(time_of(kept, id) is Some);
        }
    }
}

/// Which items are not among `kept`.
pub open spec fn not_in(kept: Seq<KnownView>) -> spec_fn(KnownView) -> bool {
    |x: KnownView| !knows(kept, x.0)
}

/// How many of `n` items there is room for beside `kept`.
pub open spec fn room_for(kept: Seq<KnownView>, n: nat, limit: nat) -> int {
    if kept.len() >= limit {
        0
    } else if kept.len() + n <= limit {
        n as int
    } else {
        limit - kept.len()
    }
}

proof fn lemma_filter_agrees(
    items: Seq<KnownView>,
    p: spec_fn(KnownView) -> bool,
    q: spec_fn(KnownView) -> bool,
)
    requires
        forall|i: int| 0 <= i < items.len() ==> p(#[trigger] items[i]) == q(items[i]),
    ensures
        items.filter(p) == items.filter(q),
    decreases items.len(),
{
    reveal(Seq::filter);
    if items.len() > 0 {
        let front = items.drop_last();
        assert forall|i: int| 0 <= i < front.len() implies p(#[trigger] front[i]) == q(
            front[i],
        ) by {
            assert(front[i] == items[i]);
        }
        lemma_filter_agrees(front, p, q);
        assert(p(items[items.len() - 1]) == q(items[items.len() - 1]));
    }
}

/// Filling puts the first of the other items behind `kept`, as far as there is room.
proof fn lemma_filled_exactly(kept: Seq<KnownView>, more: Seq<KnownView>, limit: nat)
    requires
        distinct_ids(more),
    ensures
        ({
            let others = more.filter(not_in(kept));
            filled(kept, more, limit) == kept + others.take(room_for(kept, others.len(), limit))
        }),
    decreases more.len(),
{
    let others = more.filter(not_in(kept));
    if more.len() == 0 || kept.len() >= limit {
        reveal(Seq::filter);
        assert(kept + others.take(0) =~= kept);
    } else {
        let x = more[0];
        let rest = more.skip(1);
        assert(distinct_ids(rest)) by {
            assert forall|i: int, j: int| 0 <= i < j < rest.len() implies (#[trigger] rest[i]).0
                != (#[trigger] rest[j]).0 by {
                assert(more[i + 1].0 != more[j + 1].0);
            }
        }
        assert(more =~= seq![x] + rest);
        lemma_filter_cons(x, rest, not_in(kept));
        if knows(kept, x.0) {
            lemma_filled_exactly(kept, rest, limit);
        } else {
            let next = kept.push(x);
            lemma_filled_exactly(next, rest, limit);
            assert forall|i: int| 0 <= i < rest.len() implies not_in(next)(#[trigger] rest[i])
                == not_in(kept)(rest[i]) by {
                assert(more[0].0 != more[i + 1].0);
                if knows(next, rest[i].0) {
                    let k = choose|k: int|
                        0 <= k < next.len() && (#[trigger] next[k]).0 == rest[i].0;
                    assert(kept[k].0 == rest[i].0);
                }
                if knows(kept, rest[i].0) {
                    let k = choose|k: int|
                        0 <= k < kept.len() && (#[trigger] kept[k]).0 == rest[i].0;
                    assert(next[k].0 == rest[i].0);
                }
            }
            lemma_filter_agrees(rest, not_in(next), not_in(kept));
            let behind = rest.filter(not_in(kept));
            let m = room_for(next, behind.len(), limit);
            assert(others =~= seq![x] + behind);
            assert(room_for(kept, others.len(), limit) == m + 1);
            assert(next + behind.take(m) =~= kept + others.take(m + 1));
        }
    }
}

/// What is kept depends only on the times of the named items.
proof fn lemma_kept_agrees(a: Seq<KnownView>, b: Seq<KnownView>, ids: Seq<Seq<char>>)
    requires
        forall|i: int|
            0 <= i < ids.len() ==> time_of(a, #[trigger] ids[i]) == time_of(b, ids[i]),
    ensures
        kept_among(a, ids) == kept_among(b, ids),
    decreases ids.len(),
{
    if ids.len() > 0 {
        let front = ids.drop_last();
        assert forall|i: int| 0 <= i < front.len() implies time_of(a, #[trigger] front[i])
            == time_of(b, front[i]) by {
            assert(front[i] == ids[i]);
        }
        lemma_kept_agrees(a, b, front);
        assert(time_of(a, ids[ids.len() - 1]) == time_of(b, ids[ids.len() - 1]));
    }
}

/// Pruning what was pruned changes nothing.
#[verifier::rlimit(40)]
pub proof fn law_pruned_once(items: Seq<KnownView>, ids: Seq<Seq<char>>, limit: nat)
    requires
        distinct_ids(items),
    ensures
        pruned(pruned(items, ids, limit), ids, limit) == pruned(items, ids, limit),
{
    let before = rank_of::<KnownItem>();
    let key = |x: KnownView| x.0;
    let kept = kept_among(items, ids);
    let more = stable_sorted(items, before);
    let r = pruned(items, ids, limit);
    let again = stable_sorted(r, before);
    let keep = not_in(kept);
    law_pruned(items, ids, limit);
    lemma_kept_among(items, ids);
    assert(is_order(before));
    // The named items are the same.
    assert forall|i: int| 0 <= i < ids.len() implies time_of(r, #[trigger] ids[i]) == time_of(
        items,
        ids[i],
    ) by {
        assert(ids.contains(ids[i]));
        lemma_time_of(items, ids[i]);
        lemma_time_of(r, ids[i]);
        if knows(items, ids[i]) {
            assert(knows(r, ids[i]));
        }
    }
    lemma_kept_agrees(r, items, ids);
    // Behind them stand the first of the others, in order.
    assert(distinct_keys(items, key));
    lemma_sort_keys(items, before, key);
    assert(distinct_ids(more)) by {
        assert forall|i: int, j: int| 0 <= i < j < more.len() implies (#[trigger] more[i]).0
            != (#[trigger] more[j]).0 by {
            assert(key(more[i]) != key(more[j]));
        }
    }
    lemma_filled_exactly(kept, more, limit);
    law_sort_is_ordered(items, before);
    lemma_part_in_order(more, before, keep);
    let others = more.filter(keep);
    let m = room_for(kept, others.len(), limit);
    let extra = others.take(m);
    assert(r == kept + extra);
    assert forall|i: int, j: int| 0 <= i < j < extra.len() implies !before(
        #[trigger] extra[j],
        #[trigger] extra[i],
    ) by {
        assert(!before(others[j], others[i]));
    }
    // They are what is not named in the result, and sorting leaves them as they are.
    assert(r.filter(keep) == extra) by {
        assert(kept.filter(keep) =~= Seq::empty()) by {
            lemma_filter_none(kept, keep);
        }
        assert(extra.filter(keep) == extra) by {
            broadcast use vstd::seq_lib::group_filter_ensures;

            assert forall|i: int| 0 <= i < extra.len() implies keep(#[trigger] extra[i]) by {
                assert(extra[i] == others[i]);
            }
            lemma_filter_all(extra, keep);
        }
        Seq::filter_distributes_over_add(kept, extra, keep);
        assert(r.filter(keep) =~= extra);
    }
    lemma_sort_part(r, before, keep);
    lemma_sorted_stays(extra, before);
    assert(distinct_keys(r, key));
    lemma_sort_keys(r, before, key);
    assert(distinct_ids(again)) by {
        assert forall|i: int, j: int| 0 <= i < j < again.len() implies (#[trigger] again[i]).0
            != (#[trigger] again[j]).0 by {
            assert(key(again[i]) != key(again[j]));
        }
    }
    lemma_filled_exactly(kept, again, limit);
    lemma_room_is_used(kept, others, limit);
}

/// What there was room for once, there is room for again.
proof fn lemma_room_is_used(kept: Seq<KnownView>, others: Seq<KnownView>, limit: nat)
    ensures
        ({
            let extra = others.take(room_for(kept, others.len(), limit));
            extra.take(room_for(kept, extra.len(), limit)) == extra
        }),
{
    let m = room_for(kept, others.len(), limit);
    let extra = others.take(m);
    assert(extra.len() == m);
    assert(room_for(kept, extra.len(), limit) == m);
    assert(extra.take(m) =~= extra);
}

/// Nothing is forgotten as long as fewer than `limit` would stay.
pub proof fn law_pruned_is_full(
    items: Seq<KnownView>,
    ids: Seq<Seq<char>>,
    limit: nat,
    id: Seq<char>,
)
    requires
        distinct_ids(items),
        knows(items, id),
        !knows(pruned(items, ids, limit), id),
    ensures
        pruned(items, ids, limit).len() >= limit,
{
    let before = rank_of::<KnownItem>();
    let kept = kept_among(items, ids);
    let more = stable_sorted(items, before);
    let r = pruned(items, ids, limit);
    lemma_kept_among(items, ids);
    let n = lemma_filled(kept, more, limit);
    let i = choose|i: int| 0 <= i < items.len() && (#[trigger] items[i]).0 == id;
    lemma_sort_contains(items, before, items[i]);
    let j = choose|j: int| 0 <= j < more.len() && more[j] == items[i];
    assert(more[j].0 == id);
    assert(n <= j);
}

proof fn lemma_filter_none(kept: Seq<KnownView>, keep: spec_fn(KnownView) -> bool)
    requires
        forall|i: int| 0 <= i < kept.len() ==> !keep(#[trigger] kept[i]),
    ensures
        kept.filter(keep).len() == 0,
    decreases kept.len(),
{
    reveal(Seq::filter);
    if kept.len() > 0 {
        let front = kept.drop_last();
        assert forall|i: int| 0 <= i < front.len() implies !keep(#[trigger] front[i]) by {
            assert(front[i] == kept[i]);
        }
        lemma_filter_none(front, keep);
        assert(!keep(kept[kept.len() - 1]));
    }
}

proof fn lemma_filter_all(items: Seq<KnownView>, keep: spec_fn(KnownView) -> bool)
    requires
        forall|i: int| 0 <= i < items.len() ==> keep(#[trigger] items[i]),
    ensures
        items.filter(keep) == items,
    decreases items.len(),
{
    reveal(Seq::filter);
    if items.len() > 0 {
        let front = items.drop_last();
        assert forall|i: int| 0 <= i < front.len() implies keep(#[trigger] front[i]) by {
            assert(front[i] == items[i]);
        }
        lemma_filter_all(front, keep);
        assert(keep(items[items.len() - 1]));
        assert(items =~= front.push(items.last()));
    }
}

} // verus!
