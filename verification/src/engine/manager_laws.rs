//! What a pass over the torrents owes to each of them.
use vstd::prelude::*;

use crate::engine::manager::{
    after_taking, bytes_of, fresh_pass, has_room, observed, pass_over, pauses, queued_bytes, started_from,
    starts, within, Limits, PassView, Queued, TorrentFacts,
};
use crate::text::lemma_filter_cons;

verus! {

/// How many bytes of a torrent are still missing.
pub open spec fn missing_bytes(t: TorrentFacts) -> int {
    if t.progress_bytes < t.total_bytes {
        t.total_bytes - t.progress_bytes
    } else {
        0
    }
}

/// Whether a torrent waits for being started: it does not run, it is not complete, and the
/// user wants it.
pub open spec fn is_waiting(t: TorrentFacts) -> bool {
    t.paused && !t.finished && t.started
}

/// Whether the settings let a torrent go on: one that is complete seeds as long as seeding is
/// on and its ratio is not reached.
pub open spec fn may_go_on(limits: Limits, t: TorrentFacts) -> bool {
    !t.finished || (limits.enable_seeding && !t.ratio_reached)
}

/// Whether the places of queued torrents ascend.
pub open spec fn ascending(queue: Seq<Queued>) -> bool {
    forall|i: int, j: int|
        0 <= i < j < queue.len() ==> (#[trigger] queue[i]).slot < (#[trigger] queue[j]).slot
}

/// Those of queued torrents whose place is before `slot`.
pub open spec fn placed_before(queue: Seq<Queued>, slot: usize) -> Seq<Queued> {
    queue.filter(|q: Queued| q.slot < slot)
}

/// How many bytes are missing of the torrents that run.
pub open spec fn running_bytes(torrents: Seq<TorrentFacts>) -> int
    decreases torrents.len(),
{
    if torrents.len() == 0 {
        0
    } else {
        running_bytes(torrents.drop_last()) + (if torrents.last().paused {
            0
        } else {
            missing_bytes(torrents.last())
        })
    }
}

/// How many torrents run.
pub open spec fn running_count(torrents: Seq<TorrentFacts>) -> int
    decreases torrents.len(),
{
    if torrents.len() == 0 {
        0
    } else {
        running_count(torrents.drop_last()) + (if torrents.last().paused {
            0int
        } else {
            1
        })
    }
}

/// How many torrents download.
pub open spec fn running_downloads(torrents: Seq<TorrentFacts>) -> int
    decreases torrents.len(),
{
    if torrents.len() == 0 {
        0
    } else {
        running_downloads(torrents.drop_last()) + (if torrents.last().paused
            || torrents.last().finished {
            0int
        } else {
            1
        })
    }
}

/// The pass behind torrents, begun with `budget` bytes.
pub open spec fn whole_pass(limits: Limits, budget: u64, torrents: Seq<TorrentFacts>) -> PassView {
    pass_over(limits, fresh_pass(budget), torrents)
}

/// Whether the pass tells the torrent at `i` to pause.
pub open spec fn pauses_at(
    limits: Limits,
    budget: u64,
    torrents: Seq<TorrentFacts>,
    i: int,
) -> bool {
    pauses(limits, whole_pass(limits, budget, torrents.take(i)), torrents[i])
}

/// Every torrent that waits is queued, whatever its size and its progress, with the bytes
/// that are missing of it; nothing else is; and the queue keeps the order of the torrents.
pub proof fn law_waiting_is_queued(limits: Limits, budget: u64, torrents: Seq<TorrentFacts>)
    requires
        torrents.len() <= usize::MAX,
    ensures
        ascending(whole_pass(limits, budget, torrents).queue),
        forall|i: int|
            0 <= i < torrents.len() && is_waiting(#[trigger] torrents[i]) ==> exists|k: int|
                0 <= k < whole_pass(limits, budget, torrents).queue.len() && (
                #[trigger] whole_pass(limits, budget, torrents).queue[k]).slot == i,
        forall|k: int|
            0 <= k < whole_pass(limits, budget, torrents).queue.len() ==> {
                let q = #[trigger] whole_pass(limits, budget, torrents).queue[k];
                &&& q.slot < torrents.len()
                &&& is_waiting(torrents[q.slot as int])
                &&& q.remaining == (if missing_bytes(torrents[q.slot as int]) > 0 {
                    Some(missing_bytes(torrents[q.slot as int]) as u64)
                } else {
                    None
                })
            },
    decreases torrents.len(),
{
    if torrents.len() > 0 {
        let front = torrents.drop_last();
        let t = torrents.last();
        law_waiting_is_queued(limits, budget, front);
        let before = whole_pass(limits, budget, front).queue;
        let end = whole_pass(limits, budget, torrents).queue;
        assert forall|i: int| 0 <= i < torrents.len() && is_waiting(#[trigger] torrents[i]) implies
            exists|k: int| 0 <= k < end.len() && (#[trigger] end[k]).slot == i by {
            if i < front.len() {
                assert(is_waiting(front[i]));
                let k = choose|k: int| 0 <= k < before.len() && (#[trigger] before[k]).slot == i;
                assert(end[k].slot == i);
            } else {
                assert(end[end.len() - 1].slot == i);
            }
        }
        assert forall|k: int| 0 <= k < end.len() implies {
            let q = #[trigger] end[k];
            &&& q.slot < torrents.len()
            &&& is_waiting(torrents[q.slot as int])
            &&& q.remaining == (if missing_bytes(torrents[q.slot as int]) > 0 {
                Some(missing_bytes(torrents[q.slot as int]) as u64)
            } else {
                None
            })
        } by {
            if k < before.len() {
                assert(end[k] == before[k]);
                assert(torrents[before[k].slot as int] == front[before[k].slot as int]);
            }
        }
        assert forall|i: int, j: int| 0 <= i < j < end.len() implies (#[trigger] end[i]).slot < (
        #[trigger] end[j]).slot by {
            assert(end[i] == before[i]);
            if j < before.len() {
                assert(end[j] == before[j]);
            }
        }
    }
}

proof fn lemma_started_places(
    limits: Limits,
    queue: Seq<Queued>,
    budget: u64,
    downloading: int,
    active: int,
)
    ensures
        forall|i: int|
            0 <= i < started_from(limits, queue, budget, downloading, active).len()
                ==> queue.contains(
                #[trigger] started_from(limits, queue, budget, downloading, active)[i],
            ),
        ascending(queue) ==> ascending(started_from(limits, queue, budget, downloading, active)),
    decreases queue.len(),
{
    let chosen = started_from(limits, queue, budget, downloading, active);
    if queue.len() > 0 && has_room(limits, downloading, active) {
        let rest = queue.skip(1);
        let takes = within(queue[0].remaining, budget);
        let left = if takes {
            after_taking(budget, queue[0].remaining)
        } else {
            budget
        };
        let more: int = if takes {
            1
        } else {
            0
        };
        let later = started_from(limits, rest, left, downloading + more, active + more);
        lemma_started_places(limits, rest, left, downloading + more, active + more);
        assert(chosen =~= (if takes {
            seq![queue[0]] + later
        } else {
            later
        }));
        assert forall|i: int| 0 <= i < chosen.len() implies queue.contains(#[trigger] chosen[i]) by {
            if takes && i == 0 {
                assert(queue[0] == chosen[0]);
            } else {
                assert(chosen[i] == later[i - more]);
                let k = choose|k: int| 0 <= k < rest.len() && rest[k] == later[i - more];
                assert(queue[k + 1] == chosen[i]);
            }
        }
        if ascending(queue) {
            assert forall|i: int, j: int| 0 <= i < j < rest.len() implies (#[trigger] rest[i]).slot
                < (#[trigger] rest[j]).slot by {
                assert(queue[i + 1].slot < queue[j + 1].slot);
            }
            assert forall|i: int, j: int| 0 <= i < j < chosen.len() implies (
            #[trigger] chosen[i]).slot < (#[trigger] chosen[j]).slot by {
                assert(chosen[j] == later[j - more]);
                if takes && i == 0 {
                    let k = choose|k: int| 0 <= k < rest.len() && rest[k] == later[j - more];
                    assert(queue[0].slot < queue[k + 1].slot);
                } else {
                    assert(chosen[i] == later[i - more]);
                }
            }
        }
    }
}

proof fn lemma_none_before(queue: Seq<Queued>, slot: usize)
    requires
        forall|i: int| 0 <= i < queue.len() ==> (#[trigger] queue[i]).slot >= slot,
    ensures
        placed_before(queue, slot).len() == 0,
    decreases queue.len(),
{
    reveal(Seq::filter);
    if queue.len() > 0 {
        let front = queue.drop_last();
        assert forall|i: int| 0 <= i < front.len() implies (#[trigger] front[i]).slot >= slot by {
            assert(front[i] == queue[i]);
        }
        lemma_none_before(front, slot);
        assert(queue[queue.len() - 1].slot >= slot);
    }
}

/// A queued torrent that is not started found no room when its turn came.
proof fn lemma_left_waiting(
    limits: Limits,
    queue: Seq<Queued>,
    budget: u64,
    downloading: int,
    active: int,
    k: int,
)
    requires
        ascending(queue),
        0 <= k < queue.len(),
        !started_from(limits, queue, budget, downloading, active).contains(queue[k]),
    ensures
        ({
            let earlier = placed_before(
                started_from(limits, queue, budget, downloading, active),
                queue[k].slot,
            );
            ||| limits.max_concurrent_task != 0 && downloading + earlier.len()
                >= limits.max_concurrent_task
            ||| limits.max_active_torrents != 0 && active + earlier.len()
                >= limits.max_active_torrents
            ||| queue[k].remaining is Some && queued_bytes(earlier) + queue[k].remaining.unwrap()
                > budget
        }),
    decreases queue.len(),
{
    let chosen = started_from(limits, queue, budget, downloading, active);
    let slot = queue[k].slot;
    let keep = |q: Queued| q.slot < slot;
    if !has_room(limits, downloading, active) {
        lemma_none_before(chosen, slot);
    } else {
        let rest = queue.skip(1);
        assert forall|i: int, j: int| 0 <= i < j < rest.len() implies (#[trigger] rest[i]).slot < (
        #[trigger] rest[j]).slot by {
            assert(queue[i + 1].slot < queue[j + 1].slot);
        }
        let takes = within(queue[0].remaining, budget);
        if takes {
            let left = after_taking(budget, queue[0].remaining);
            let later = started_from(limits, rest, left, downloading + 1, active + 1);
            assert(chosen =~= seq![queue[0]] + later);
            assert(chosen[0] == queue[0]);
            assert(k > 0);
            assert(queue[0].slot < queue[k].slot);
            assert(rest[k - 1] == queue[k]);
            if later.contains(queue[k]) {
                let m = choose|m: int| 0 <= m < later.len() && later[m] == queue[k];
                assert(chosen[m + 1] == queue[k]);
            }
            lemma_left_waiting(limits, rest, left, downloading + 1, active + 1, k - 1);
            lemma_filter_cons(queue[0], later, keep);
            let more = placed_before(later, slot);
            let earlier = placed_before(chosen, slot);
            assert(earlier =~= seq![queue[0]] + more);
            assert(earlier.skip(1) =~= more);
            assert(earlier[0] == queue[0]);
        } else if k == 0 {
            lemma_started_places(limits, rest, budget, downloading, active);
            assert forall|i: int| 0 <= i < chosen.len() implies (#[trigger] chosen[i]).slot
                >= slot by {
                assert(rest.contains(chosen[i]));
                let m = choose|m: int| 0 <= m < rest.len() && rest[m] == chosen[i];
                assert(queue[0].slot < queue[m + 1].slot);
            }
            lemma_none_before(chosen, slot);
        } else {
            assert(rest[k - 1] == queue[k]);
            lemma_left_waiting(limits, rest, budget, downloading, active, k - 1);
        }
    }
}

/// A torrent that waits and is not started found no room when its turn came: as many
/// torrents ran or downloaded as may, or more of it was missing than was left of the budget
/// behind those that were started before it. Without maxima only the budget keeps it back.
pub proof fn law_waiting_is_started(
    limits: Limits,
    budget: u64,
    torrents: Seq<TorrentFacts>,
    i: int,
)
    requires
        torrents.len() <= usize::MAX,
        0 <= i < torrents.len(),
        is_waiting(torrents[i]),
    ensures
        ({
            let pass = whole_pass(limits, budget, torrents);
            let chosen = starts(limits, pass);
            let earlier = placed_before(chosen, i as usize);
            ||| exists|k: int| 0 <= k < chosen.len() && (#[trigger] chosen[k]).slot == i
            ||| limits.max_concurrent_task != 0 && pass.downloading + earlier.len()
                >= limits.max_concurrent_task
            ||| limits.max_active_torrents != 0 && pass.active + earlier.len()
                >= limits.max_active_torrents
            ||| missing_bytes(torrents[i]) > pass.budget - queued_bytes(earlier)
        }),
{
    law_waiting_is_queued(limits, budget, torrents);
    let pass = whole_pass(limits, budget, torrents);
    let chosen = starts(limits, pass);
    let k = choose|k: int| 0 <= k < pass.queue.len() && (#[trigger] pass.queue[k]).slot == i;
    if chosen.contains(pass.queue[k]) {
        let m = choose|m: int| 0 <= m < chosen.len() && chosen[m] == pass.queue[k];
        assert(chosen[m].slot == i);
    } else {
        lemma_left_waiting(limits, pass.queue, pass.budget, pass.downloading, pass.active, k);
    }
}

/// What is started is started once, in the order of the torrents.
pub proof fn law_started_once(limits: Limits, budget: u64, torrents: Seq<TorrentFacts>)
    requires
        torrents.len() <= usize::MAX,
    ensures
        ascending(starts(limits, whole_pass(limits, budget, torrents))),
{
    law_waiting_is_queued(limits, budget, torrents);
    let pass = whole_pass(limits, budget, torrents);
    lemma_started_places(limits, pass.queue, pass.budget, pass.downloading, pass.active);
}

proof fn lemma_running(limits: Limits, budget: u64, torrents: Seq<TorrentFacts>)
    ensures
        0 <= running_bytes(torrents),
        whole_pass(limits, budget, torrents).budget + running_bytes(torrents) >= budget,
        0 <= whole_pass(limits, budget, torrents).active <= running_count(torrents),
        0 <= whole_pass(limits, budget, torrents).downloading <= running_downloads(torrents),
    decreases torrents.len(),
{
    if torrents.len() > 0 {
        lemma_running(limits, budget, torrents.drop_last());
    }
}

/// A torrent that runs is paused only for a reason: it has seeded enough, there is not room
/// enough on the disk for it and for those before it that run, or those and it are more than
/// may run or download.
pub proof fn law_running_goes_on(limits: Limits, budget: u64, torrents: Seq<TorrentFacts>, i: int)
    requires
        0 <= i < torrents.len(),
        may_go_on(limits, torrents[i]),
        running_bytes(torrents.take(i)) + missing_bytes(torrents[i]) <= budget,
        limits.max_active_torrents > 0 ==> running_count(torrents.take(i))
            < limits.max_active_torrents,
        limits.max_concurrent_task > 0 && !torrents[i].finished ==> running_downloads(
            torrents.take(i),
        ) < limits.max_concurrent_task,
    ensures
        !pauses_at(limits, budget, torrents, i),
{
    lemma_running(limits, budget, torrents.take(i));
}

/// A torrent that runs is paused where the settings do not let it go on, where more of it is
/// missing than was left of the budget, and where as many run or download as may.
pub proof fn law_paused_for_a_reason(
    limits: Limits,
    budget: u64,
    torrents: Seq<TorrentFacts>,
    i: int,
)
    requires
        0 <= i < torrents.len(),
    ensures
        ({
            let pass = whole_pass(limits, budget, torrents.take(i));
            pauses_at(limits, budget, torrents, i) <==> !torrents[i].paused && {
                ||| !may_go_on(limits, torrents[i])
                ||| missing_bytes(torrents[i]) > pass.budget
                ||| limits.max_active_torrents > 0 && pass.active >= limits.max_active_torrents
                ||| limits.max_concurrent_task > 0 && !torrents[i].finished && pass.downloading
                    >= limits.max_concurrent_task
            }
        }),
{
}

/// A torrent that does not run takes nothing of what the others may have, and one that goes
/// on takes the bytes that are missing of it and its place among those that run.
pub proof fn law_taken_by_one(limits: Limits, pass: PassView, t: TorrentFacts, slot: usize)
    ensures
        t.paused ==> observed(limits, pass, t, slot).budget == pass.budget,
        t.paused || pauses(limits, pass, t) ==> observed(limits, pass, t, slot).active
            == pass.active && observed(limits, pass, t, slot).downloading == pass.downloading,
        !t.paused && !pauses(limits, pass, t) ==> {
            let next = observed(limits, pass, t, slot);
            &&& next.budget == pass.budget - missing_bytes(t)
            &&& next.active == pass.active + 1
            &&& t.finished ==> next.downloading == pass.downloading
            &&& !t.finished ==> next.downloading == pass.downloading + 1
        },
        !t.paused && (!may_go_on(limits, t) || missing_bytes(t) > pass.budget) ==> observed(
            limits,
            pass,
            t,
            slot,
        ).budget == pass.budget,
        !t.paused && may_go_on(limits, t) && missing_bytes(t) <= pass.budget ==> observed(
            limits,
            pass,
            t,
            slot,
        ).budget == pass.budget - missing_bytes(t),
        pass.queue.is_prefix_of(observed(limits, pass, t, slot).queue),
{
    let next = observed(limits, pass, t, slot);
    assert(pass.queue =~= next.queue.take(pass.queue.len() as int));
}

/// Without maxima, and with room for all that runs and all that waits, a pass starts every
/// torrent that waits and pauses none that may go on.
pub proof fn law_room_for_all(limits: Limits, budget: u64, torrents: Seq<TorrentFacts>, i: int)
    requires
        torrents.len() <= usize::MAX,
        limits.max_active_torrents == 0,
        limits.max_concurrent_task == 0,
        running_bytes(torrents) + waiting_bytes(torrents) <= budget,
        0 <= i < torrents.len(),
    ensures
        may_go_on(limits, torrents[i]) ==> !pauses_at(limits, budget, torrents, i),
        is_waiting(torrents[i]) ==> exists|k: int|
            0 <= k < starts(limits, whole_pass(limits, budget, torrents)).len() && (
            #[trigger] starts(limits, whole_pass(limits, budget, torrents))[k]).slot == i,
{
    lemma_sums_grow(torrents, i);
    if may_go_on(limits, torrents[i]) && !torrents[i].paused {
        law_running_goes_on(limits, budget, torrents, i);
    }
    if is_waiting(torrents[i]) {
        law_waiting_is_queued(limits, budget, torrents);
        lemma_running(limits, budget, torrents);
        law_waiting_is_started(limits, budget, torrents, i);
        let pass = whole_pass(limits, budget, torrents);
        let chosen = starts(limits, pass);
        lemma_started_places(limits, pass.queue, pass.budget, pass.downloading, pass.active);
        lemma_earlier_bytes(torrents, chosen, i);
    }
}

/// How many bytes are missing of the torrents that wait.
pub open spec fn waiting_bytes(torrents: Seq<TorrentFacts>) -> int
    decreases torrents.len(),
{
    if torrents.len() == 0 {
        0
    } else {
        waiting_bytes(torrents.drop_last()) + (if is_waiting(torrents.last()) {
            missing_bytes(torrents.last())
        } else {
            0
        })
    }
}

proof fn lemma_sums_grow(torrents: Seq<TorrentFacts>, i: int)
    requires
        0 <= i < torrents.len(),
    ensures
        0 <= waiting_bytes(torrents.take(i)),
        0 <= running_bytes(torrents.take(i)),
        waiting_bytes(torrents.take(i)) + (if is_waiting(torrents[i]) {
            missing_bytes(torrents[i])
        } else {
            0
        }) <= waiting_bytes(torrents),
        running_bytes(torrents.take(i)) + (if torrents[i].paused {
            0
        } else {
            missing_bytes(torrents[i])
        }) <= running_bytes(torrents),
    decreases torrents.len(),
{
    let front = torrents.drop_last();
    if i < front.len() {
        lemma_sums_grow(front, i);
        assert(front.take(i) =~= torrents.take(i));
    } else {
        assert(torrents.take(i) =~= front);
        if front.len() > 0 {
            lemma_sums_grow(front, front.len() - 1);
        }
    }
}

/// Queued torrents before a place are missing no more than all that wait before it.
proof fn lemma_earlier_bytes(torrents: Seq<TorrentFacts>, queue: Seq<Queued>, n: int)
    requires
        0 <= n <= torrents.len() <= usize::MAX,
        ascending(queue),
        forall|k: int|
            0 <= k < queue.len() ==> {
                let q = #[trigger] queue[k];
                &&& q.slot < torrents.len()
                &&& is_waiting(torrents[q.slot as int])
                &&& q.remaining == (if missing_bytes(torrents[q.slot as int]) > 0 {
                    Some(missing_bytes(torrents[q.slot as int]) as u64)
                } else {
                    None
                })
            },
    ensures
        queued_bytes(placed_before(queue, n as usize)) <= waiting_bytes(torrents.take(n)),
    decreases n,
{
    let slot = n as usize;
    if n == 0 {
        lemma_none_before(queue, slot);
    } else {
        assert(torrents.take(n).last() == torrents[n - 1]);
        assert(torrents.take(n).drop_last() =~= torrents.take(n - 1));
        lemma_earlier_bytes(torrents, queue, n - 1);
        lemma_one_more(queue, (n - 1) as usize);
        let narrow = placed_before(queue, (n - 1) as usize);
        let wide = placed_before(queue, slot);
        if wide != narrow {
            let q = wide.last();
            assert(queue.contains(q));
            let k = choose|k: int| 0 <= k < queue.len() && queue[k] == q;
            assert(is_waiting(torrents[queue[k].slot as int]));
        }
    }
}

proof fn lemma_bytes_pushed(queue: Seq<Queued>, q: Queued)
    ensures
        queued_bytes(queue.push(q)) == queued_bytes(queue) + bytes_of(q.remaining),
    decreases queue.len(),
{
    if queue.len() == 0 {
        assert(queue.push(q).skip(1) =~= Seq::empty());
        assert(queue.push(q)[0] == q);
        assert(queued_bytes(queue.push(q).skip(1)) == 0);
    } else {
        lemma_bytes_pushed(queue.skip(1), q);
        assert(queue.push(q).skip(1) =~= queue.skip(1).push(q));
        assert(queue.push(q)[0] == queue[0]);
    }
}

/// Going on by one place adds at most the torrent at that place.
proof fn lemma_one_more(queue: Seq<Queued>, slot: usize)
    requires
        ascending(queue),
        slot < usize::MAX,
    ensures
        ({
            let narrow = placed_before(queue, slot);
            let wide = placed_before(queue, (slot + 1) as usize);
            wide == narrow || {
                &&& wide.len() == narrow.len() + 1
                &&& wide.last().slot == slot
                &&& queue.contains(wide.last())
                &&& queued_bytes(wide) == queued_bytes(narrow) + bytes_of(wide.last().remaining)
            }
        }),
    decreases queue.len(),
{
    reveal(Seq::filter);
    if queue.len() > 0 {
        let front = queue.drop_last();
        let q = queue.last();
        assert forall|i: int, j: int| 0 <= i < j < front.len() implies (#[trigger] front[i]).slot
            < (#[trigger] front[j]).slot by {
            assert(queue[i].slot < queue[j].slot);
        }
        lemma_one_more(front, slot);
        let narrow = placed_before(front, slot);
        let wide = placed_before(front, (slot + 1) as usize);
        if wide != narrow {
            let m = choose|m: int| 0 <= m < front.len() && front[m] == wide.last();
            assert(queue[m].slot < queue[queue.len() - 1].slot);
            assert(queue[m] == wide.last());
        } else if q.slot == slot {
            lemma_bytes_pushed(narrow, q);
            assert(queue[queue.len() - 1] == q);
            assert(placed_before(queue, (slot + 1) as usize).last() == q);
        }
    }
}

} // verus!
