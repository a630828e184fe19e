//! Which torrents run: the pass that the engine makes over them again and again.
use vstd::prelude::*;

use crate::engine::utils::{remaining, remaining_download_bytes};

verus! {

/// What the settings allow. A maximum of 0 is none.
#[derive(Clone, Copy, Debug, PartialEq, Eq)]
pub struct Limits {
    pub enable_seeding: bool,
    pub max_active_torrents: i32,
    pub max_concurrent_task: i32,
}

/// What is seen of a torrent. `ratio_reached` says whether a ratio is set and has been
/// reached, `started` whether the user wants it to run.
#[derive(Clone, Copy, Debug, PartialEq, Eq)]
pub struct TorrentFacts {
    pub finished: bool,
    pub paused: bool,
    pub ratio_reached: bool,
    pub started: bool,
    pub total_bytes: u64,
    pub progress_bytes: u64,
}

/// A torrent that waits to be started, by its place in the pass.
#[derive(Clone, Copy, Debug, PartialEq, Eq)]
pub struct Queued {
    pub slot: usize,
    pub remaining: Option<u64>,
}

/// Where a pass stands.
pub struct ManagerPass {
    pub budget: u64,
    pub downloading: i32,
    pub active: i32,
    pub queue: Vec<Queued>,
}

/// The values of a pass.
pub struct PassView {
    pub budget: u64,
    pub downloading: int,
    pub active: int,
    pub queue: Seq<Queued>,
}

impl View for ManagerPass {
    type V = PassView;

    open spec fn view(&self) -> PassView {
        PassView {
            budget: self.budget,
            downloading: self.downloading as int,
            active: self.active as int,
            queue: self.queue@,
        }
    }
}

/// What is left of the budget when `bytes` are taken.
pub open spec fn after_taking(budget: u64, bytes: Option<u64>) -> u64 {
    match bytes {
        Some(b) => if b <= budget {
            (budget - b) as u64
        } else {
            0
        },
        None => budget,
    }
}

/// Whether `bytes` are within `budget`.
pub open spec fn within(bytes: Option<u64>, budget: u64) -> bool {
    bytes matches Some(b) ==> b <= budget
}

/// Whether a torrent has seeded enough.
pub open spec fn is_done_seeding(limits: Limits, t: TorrentFacts) -> bool {
    !t.paused && t.finished && (!limits.enable_seeding || t.ratio_reached)
}

/// 1 for a torrent that still downloads.
pub open spec fn downloads(t: TorrentFacts) -> int {
    if t.finished {
        0
    } else {
        1
    }
}

/// Whether one more torrent runs than may.
pub open spec fn is_over(limits: Limits, pass: PassView, t: TorrentFacts) -> bool {
    ||| limits.max_active_torrents > 0 && pass.active + 1 > limits.max_active_torrents
    ||| !t.finished && limits.max_concurrent_task > 0 && pass.downloading + 1
        > limits.max_concurrent_task
}

/// Whether the torrent is to be paused.
pub open spec fn pauses(limits: Limits, pass: PassView, t: TorrentFacts) -> bool {
    !t.paused && (is_done_seeding(limits, t) || !within(
        remaining(t.total_bytes, t.progress_bytes),
        pass.budget,
    ) || is_over(limits, pass, t))
}

/// The pass behind a torrent.
pub open spec fn observed(
    limits: Limits,
    pass: PassView,
    t: TorrentFacts,
    slot: usize,
) -> PassView {
    let bytes = remaining(t.total_bytes, t.progress_bytes);
    if t.paused {
        if !t.finished && t.started {
            PassView { queue: pass.queue.push(Queued { slot, remaining: bytes }), ..pass }
        } else {
            pass
        }
    } else if is_done_seeding(limits, t) || !within(bytes, pass.budget) {
        pass
    } else if is_over(limits, pass, t) {
        PassView { budget: after_taking(pass.budget, bytes), ..pass }
    } else {
        PassView {
            budget: after_taking(pass.budget, bytes),
            active: pass.active + 1,
            downloading: pass.downloading + downloads(t),
            ..pass
        }
    }
}

/// Whether another torrent may run.
pub open spec fn has_room(limits: Limits, downloading: int, active: int) -> bool {
    &&& downloading < limits.max_concurrent_task || limits.max_concurrent_task == 0
    &&& active < limits.max_active_torrents || limits.max_active_torrents == 0
}

/// Which of the queue are started, as long as there is room.
pub open spec fn started_from(
    limits: Limits,
    queue: Seq<Queued>,
    budget: u64,
    downloading: int,
    active: int,
) -> Seq<Queued>
    decreases queue.len(),
{
    if queue.len() == 0 || !has_room(limits, downloading, active) {
        Seq::empty()
    } else if within(queue[0].remaining, budget) {
        seq![queue[0]] + started_from(
            limits,
            queue.skip(1),
            after_taking(budget, queue[0].remaining),
            downloading + 1,
            active + 1,
        )
    } else {
        started_from(limits, queue.skip(1), budget, downloading, active)
    }
}

/// Which of the queue of a pass are started.
pub open spec fn starts(limits: Limits, pass: PassView) -> Seq<Queued> {
    started_from(limits, pass.queue, pass.budget, pass.downloading, pass.active)
}

/// The places of queued torrents.
pub open spec fn slots(queue: Seq<Queued>) -> Seq<usize> {
    queue.map_values(|q: Queued| q.slot)
}

impl ManagerPass {
    /// A pass that may give out `budget` bytes.
    pub fn new(budget: u64) -> (r: ManagerPass)
        ensures
            r@ == (PassView { budget, downloading: 0, active: 0, queue: Seq::empty() }),
    {
        ManagerPass { budget, downloading: 0, active: 0, queue: Vec::new() }
    }

    /// Takes note of the torrent at `slot`; whether it is to be paused.
    pub fn observe(&mut self, limits: &Limits, t: &TorrentFacts, slot: usize) -> (r: bool)
        requires
            0 <= old(self).downloading <= old(self).active < i32::MAX,
        ensures
            final(self)@ == observed(*limits, old(self)@, *t, slot),
            r == pauses(*limits, old(self)@, *t),
            0 <= final(self).downloading <= final(self).active <= old(self).active + 1,
    {
        let bytes = remaining_download_bytes(t.total_bytes, t.progress_bytes);
        if t.paused {
            if !t.finished && t.started {
                self.queue.push(Queued { slot, remaining: bytes });
            }
            return false;
        }
        if t.finished && (!limits.enable_seeding || t.ratio_reached) {
            return true;
        }
        if let Some(b) = bytes {
            if b > self.budget {
                return true;
            }
            self.budget = self.budget - b;
        }
        if limits.max_active_torrents > 0 && self.active + 1 > limits.max_active_torrents {
            return true;
        }
        if !t.finished && limits.max_concurrent_task > 0 && self.downloading + 1
            > limits.max_concurrent_task {
            return true;
        }
        self.active = self.active + 1;
        if !t.finished {
            self.downloading = self.downloading + 1;
        }
        false
    }

    /// The places of the queued torrents that are to be started.
    pub fn start_queued(&self, limits: &Limits) -> (r: Vec<usize>)
        requires
            0 <= self.downloading <= self.active,
            self.active + self.queue@.len() <= i32::MAX,
        ensures
            r@ == slots(starts(*limits, self@)),
    {
        let ghost goal = starts(*limits, self@);
        let ghost mut done: Seq<Queued> = Seq::empty();
        let mut out: Vec<usize> = Vec::new();
        let mut budget: u64 = self.budget;
        let mut downloading: i32 = self.downloading;
        let mut active: i32 = self.active;
        let mut i: usize = 0;
        proof {
            assert(self.queue@.skip(0) =~= self.queue@);
            assert(done + goal =~= goal);
            assert(out@ =~= slots(done));
        }
        while i < self.queue.len() && (downloading < limits.max_concurrent_task
            || limits.max_concurrent_task == 0) && (active < limits.max_active_torrents
            || limits.max_active_torrents == 0)
            invariant
                i <= self.queue@.len(),
                0 <= downloading <= active <= self.active + i,
                self.active + self.queue@.len() <= i32::MAX,
                out@ == slots(done),
                goal == done + started_from(
                    *limits,
                    self.queue@.skip(i as int),
                    budget,
                    downloading as int,
                    active as int,
                ),
            decreases self.queue@.len() - i,
        {
            let next = self.queue[i];
            let ghost rest = self.queue@.skip(i as int);
            proof {
                assert(rest[0] == next);
                assert(rest.skip(1) =~= self.queue@.skip(i + 1));
            }
            let fits = match next.remaining {
                Some(b) => b <= budget,
                None => true,
            };
            if fits {
                let ghost later = started_from(
                    *limits,
                    rest.skip(1),
                    after_taking(budget, next.remaining),
                    downloading + 1,
                    active + 1,
                );
                if let Some(b) = next.remaining {
                    budget = budget - b;
                }
                out.push(next.slot);
                downloading = downloading + 1;
                active = active + 1;
                proof {
                    assert(done + (seq![next] + later) =~= done.push(next) + later);
                    done = done.push(next);
                    assert(out@ =~= slots(done));
                }
            }
            i = i + 1;
        }
        proof {
            assert(done + Seq::<Queued>::empty() =~= done);
        }
        out
    }
}

/// The pass behind torrents, each at its place among them.
pub open spec fn pass_over(
    limits: Limits,
    pass: PassView,
    torrents: Seq<TorrentFacts>,
) -> PassView
    decreases torrents.len(),
{
    if torrents.len() == 0 {
        pass
    } else {
        observed(
            limits,
            pass_over(limits, pass, torrents.drop_last()),
            torrents.last(),
            (torrents.len() - 1) as usize,
        )
    }
}

/// Whether the pass leaves the last of the torrents running.
pub open spec fn keeps_last(
    limits: Limits,
    pass: PassView,
    torrents: Seq<TorrentFacts>,
) -> bool {
    !torrents.last().paused && !pauses(
        limits,
        pass_over(limits, pass, torrents.drop_last()),
        torrents.last(),
    )
}

/// What is left to download of the torrents that a pass leaves running.
pub open spec fn kept_bytes(
    limits: Limits,
    pass: PassView,
    torrents: Seq<TorrentFacts>,
) -> nat
    decreases torrents.len(),
{
    if torrents.len() == 0 {
        0
    } else {
        let t = torrents.last();
        kept_bytes(limits, pass, torrents.drop_last()) + (if keeps_last(limits, pass, torrents) {
            bytes_of(remaining(t.total_bytes, t.progress_bytes))
        } else {
            0
        })
    }
}

/// A number of bytes, 0 where there is none.
pub open spec fn bytes_of(bytes: Option<u64>) -> nat {
    match bytes {
        Some(b) => b as nat,
        None => 0,
    }
}

/// How many torrents a pass leaves running.
pub open spec fn kept_count(
    limits: Limits,
    pass: PassView,
    torrents: Seq<TorrentFacts>,
) -> nat
    decreases torrents.len(),
{
    if torrents.len() == 0 {
        0
    } else {
        kept_count(limits, pass, torrents.drop_last()) + (if keeps_last(limits, pass, torrents) {
            1nat
        } else {
            0
        })
    }
}

/// How many torrents a pass leaves downloading.
pub open spec fn kept_downloads(
    limits: Limits,
    pass: PassView,
    torrents: Seq<TorrentFacts>,
) -> nat
    decreases torrents.len(),
{
    if torrents.len() == 0 {
        0
    } else {
        kept_downloads(limits, pass, torrents.drop_last()) + (if keeps_last(
            limits,
            pass,
            torrents,
        ) && !torrents.last().finished {
            1nat
        } else {
            0
        })
    }
}

/// What is left to download of queued torrents.
pub open spec fn queued_bytes(queue: Seq<Queued>) -> nat
    decreases queue.len(),
{
    if queue.len() == 0 {
        0
    } else {
        bytes_of(queue[0].remaining) + queued_bytes(queue.skip(1))
    }
}

/// A pass that has seen nothing.
pub open spec fn fresh_pass(budget: u64) -> PassView {
    PassView { budget, downloading: 0, active: 0, queue: Seq::empty() }
}

proof fn lemma_pass(limits: Limits, budget: u64, torrents: Seq<TorrentFacts>)
    ensures
        ({
            let start = fresh_pass(budget);
            let end = pass_over(limits, start, torrents);
            &&& kept_bytes(limits, start, torrents) + end.budget <= budget
            &&& kept_count(limits, start, torrents) == end.active
            &&& kept_downloads(limits, start, torrents) == end.downloading
            &&& 0 <= end.downloading <= end.active
            &&& limits.max_active_torrents > 0 ==> end.active <= limits.max_active_torrents
            &&& limits.max_concurrent_task > 0 ==> end.downloading <= limits.max_concurrent_task
            &&& end.queue.len() <= torrents.len()
            &&& end.active + end.queue.len() <= torrents.len()
            &&& forall|i: int|
                0 <= i < end.queue.len() ==> {
                    let q = #[trigger] end.queue[i];
                    &&& torrents.len() <= usize::MAX ==> q.slot < torrents.len()
                        && torrents[q.slot as int].paused && !torrents[q.slot as int].finished
                        && torrents[q.slot as int].started && q.remaining == remaining(
                        torrents[q.slot as int].total_bytes,
                        torrents[q.slot as int].progress_bytes,
                    )
                }
        }),
    decreases torrents.len(),
{
    if torrents.len() > 0 {
        lemma_pass(limits, budget, torrents.drop_last());
    }
}

proof fn lemma_starts(
    limits: Limits,
    queue: Seq<Queued>,
    budget: u64,
    downloading: int,
    active: int,
)
    requires
        limits.max_active_torrents > 0 ==> active <= limits.max_active_torrents,
        limits.max_concurrent_task > 0 ==> downloading <= limits.max_concurrent_task,
    ensures
        ({
            let chosen = started_from(limits, queue, budget, downloading, active);
            &&& queued_bytes(chosen) <= budget
            &&& limits.max_active_torrents > 0 ==> active + chosen.len()
                <= limits.max_active_torrents
            &&& limits.max_concurrent_task > 0 ==> downloading + chosen.len()
                <= limits.max_concurrent_task
            &&& limits.max_active_torrents < 0 && active >= 0 ==> chosen.len() == 0
            &&& limits.max_concurrent_task < 0 && downloading >= 0 ==> chosen.len() == 0
            &&& forall|i: int| 0 <= i < chosen.len() ==> queue.contains(#[trigger] chosen[i])
        }),
    decreases queue.len(),
{
    let chosen = started_from(limits, queue, budget, downloading, active);
    if queue.len() > 0 && has_room(limits, downloading, active) {
        let rest = queue.skip(1);
        if within(queue[0].remaining, budget) {
            let left = after_taking(budget, queue[0].remaining);
            lemma_starts(limits, rest, left, downloading + 1, active + 1);
            let later = started_from(limits, rest, left, downloading + 1, active + 1);
            assert(chosen.skip(1) =~= later);
            assert forall|i: int| 0 <= i < chosen.len() implies queue.contains(
                #[trigger] chosen[i],
            ) by {
                if i == 0 {
                    assert(queue[0] == chosen[0]);
                } else {
                    assert(chosen[i] == later[i - 1]);
                    let k = choose|k: int| 0 <= k < rest.len() && rest[k] == later[i - 1];
                    assert(queue[k + 1] == chosen[i]);
                }
            }
        } else {
            lemma_starts(limits, rest, budget, downloading, active);
            assert forall|i: int| 0 <= i < chosen.len() implies queue.contains(
                #[trigger] chosen[i],
            ) by {
                let k = choose|k: int| 0 <= k < rest.len() && rest[k] == chosen[i];
                assert(queue[k + 1] == chosen[i]);
            }
        }
    }
}

/// What runs after a pass, kept or started, needs no more room than the budget.
pub proof fn law_pass_is_within_budget(limits: Limits, budget: u64, torrents: Seq<TorrentFacts>)
    ensures
        kept_bytes(limits, fresh_pass(budget), torrents) + queued_bytes(
            starts(limits, pass_over(limits, fresh_pass(budget), torrents)),
        ) <= budget,
{
    lemma_pass(limits, budget, torrents);
    let end = pass_over(limits, fresh_pass(budget), torrents);
    lemma_starts(limits, end.queue, end.budget, end.downloading, end.active);
}

/// No more torrents run after a pass, kept or started, than may be active, and no more
/// download than may at a time.
pub proof fn law_pass_is_within_limits(limits: Limits, budget: u64, torrents: Seq<TorrentFacts>)
    ensures
        limits.max_active_torrents > 0 ==> kept_count(limits, fresh_pass(budget), torrents)
            + starts(limits, pass_over(limits, fresh_pass(budget), torrents)).len()
            <= limits.max_active_torrents,
        limits.max_concurrent_task > 0 ==> kept_downloads(limits, fresh_pass(budget), torrents)
            + starts(limits, pass_over(limits, fresh_pass(budget), torrents)).len()
            <= limits.max_concurrent_task,
{
    lemma_pass(limits, budget, torrents);
    let end = pass_over(limits, fresh_pass(budget), torrents);
    lemma_starts(limits, end.queue, end.budget, end.downloading, end.active);
}

/// Only torrents that are paused, not finished and wanted by the user are started.
pub proof fn law_only_wanted_torrents_start(
    limits: Limits,
    budget: u64,
    torrents: Seq<TorrentFacts>,
    i: int,
)
    requires
        torrents.len() <= usize::MAX,
        0 <= i < starts(limits, pass_over(limits, fresh_pass(budget), torrents)).len(),
    ensures
        ({
            let slot = starts(limits, pass_over(limits, fresh_pass(budget), torrents))[i].slot;
            &&& slot < torrents.len()
            &&& torrents[slot as int].paused
            &&& !torrents[slot as int].finished
            &&& torrents[slot as int].started
        }),
{
    lemma_pass(limits, budget, torrents);
    let end = pass_over(limits, fresh_pass(budget), torrents);
    lemma_starts(limits, end.queue, end.budget, end.downloading, end.active);
    let chosen = starts(limits, end);
    assert(end.queue.contains(chosen[i]));
    let k = choose|k: int| 0 <= k < end.queue.len() && end.queue[k] == chosen[i];
    assert(end.queue[k].slot < torrents.len());
}

/// A torrent that has seeded enough, by the settings or by its ratio, is paused, and one
/// that is paused already is never told to pause.
pub proof fn law_seeding_ends(limits: Limits, pass: PassView, t: TorrentFacts)
    ensures
        !t.paused && t.finished && (!limits.enable_seeding || t.ratio_reached) ==> pauses(
            limits,
            pass,
            t,
        ),
        t.paused ==> !pauses(limits, pass, t),
{
}

} // verus!
