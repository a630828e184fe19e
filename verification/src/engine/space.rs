//! Room on the disk.
use vstd::prelude::*;

use crate::engine::types::EngineError;
use crate::engine::utils::{
    format_storage_error, remaining, remaining_download_bytes, storage_error,
    DISK_SPACE_RESERVE_BYTES,
};

verus! {

/// A disk: whether the download directory lies on it, how long the name of its mount
/// point is, whether that is the root, and how much space is available.
#[derive(Clone, Copy, Debug, PartialEq, Eq)]
pub struct DiskFacts {
    pub covers: bool,
    pub mount_len: usize,
    pub is_root: bool,
    pub available: u64,
}

/// Whether the disk at `i` is the one that holds the directory: it covers it, no covering
/// disk has a longer name, and no earlier one has a name as long.
pub open spec fn holds_directory(disks: Seq<DiskFacts>, i: int) -> bool {
    &&& 0 <= i < disks.len()
    &&& disks[i].covers
    &&& forall|k: int|
        0 <= k < disks.len() && (#[trigger] disks[k]).covers ==> disks[k].mount_len
            <= disks[i].mount_len
    &&& forall|k: int|
        0 <= k < i && (#[trigger] disks[k]).covers ==> disks[k].mount_len < disks[i].mount_len
}

/// Whether the disk at `i` is the first root disk.
pub open spec fn is_first_root(disks: Seq<DiskFacts>, i: int) -> bool {
    &&& 0 <= i < disks.len()
    &&& disks[i].is_root
    &&& forall|k: int| 0 <= k < i ==> !(#[trigger] disks[k]).is_root
}

/// Whether some disk covers the directory.
pub open spec fn any_covers(disks: Seq<DiskFacts>) -> bool {
    exists|i: int| 0 <= i < disks.len() && (#[trigger] disks[i]).covers
}

/// Whether some disk is the root.
pub open spec fn any_root(disks: Seq<DiskFacts>) -> bool {
    exists|i: int| 0 <= i < disks.len() && (#[trigger] disks[i]).is_root
}

/// The disk that holds the directory; the first root disk where none covers it.
pub fn disk_of_directory(disks: &Vec<DiskFacts>) -> (r: Option<usize>)
    ensures
        any_covers(disks@) ==> r is Some && holds_directory(disks@, r.unwrap() as int),
        !any_covers(disks@) && any_root(disks@) ==> r is Some && is_first_root(
            disks@,
            r.unwrap() as int,
        ),
        !any_covers(disks@) && !any_root(disks@) ==> r is None,
{
    let mut best: Option<usize> = None;
    let mut i: usize = 0;
    while i < disks.len()
        invariant
            i <= disks@.len(),
            best is None ==> forall|k: int| 0 <= k < i ==> !(#[trigger] disks@[k]).covers,
            best matches Some(b) ==> b < i && holds_directory(disks@.take(i as int), b as int),
        decreases disks@.len() - i,
    {
        let ghost was = best;
        if disks[i].covers {
            best = match best {
                Some(b) => if disks[i].mount_len > disks[b].mount_len {
                    Some(i)
                } else {
                    Some(b)
                },
                None => Some(i),
            };
        }
        proof {
            let seen = disks@.take(i as int);
            let next = disks@.take(i + 1);
            if let Some(b) = best {
                assert(next[b as int] == disks@[b as int]);
                assert forall|k: int|
                    0 <= k < next.len() && (#[trigger] next[k]).covers implies next[k].mount_len
                    <= next[b as int].mount_len by {
                    if k < i {
                        assert(seen[k] == next[k]);
                    }
                }
                assert forall|k: int| 0 <= k < b && (#[trigger] next[k]).covers implies next[
                    k
                ].mount_len < next[b as int].mount_len by {
                    assert(seen[k] == next[k]);
                }
            }
        }
        i = i + 1;
    }
    proof {
        assert(disks@.take(i as int) =~= disks@);
    }
    if best.is_some() {
        return best;
    }
    let mut j: usize = 0;
    while j < disks.len()
        invariant
            j <= disks@.len(),
            !any_covers(disks@),
            forall|k: int| 0 <= k < j ==> !(#[trigger] disks@[k]).is_root,
        decreases disks@.len() - j,
    {
        if disks[j].is_root {
            return Some(j);
        }
        j = j + 1;
    }
    None
}

/// The space available for the directory: that of the disk that holds it, else that of
/// the root, else none.
pub fn available_space(disks: &Vec<DiskFacts>) -> (r: u64)
    ensures
        forall|i: int| #[trigger] holds_directory(disks@, i) ==> r == disks@[i].available,
        forall|i: int|
            !any_covers(disks@) && #[trigger] is_first_root(disks@, i) ==> r == disks@[i].available,
        !any_covers(disks@) && !any_root(disks@) ==> r == 0,
{
    match disk_of_directory(disks) {
        Some(at) => {
            proof {
                if any_covers(disks@) {
                    assert forall|i: int| #[trigger] holds_directory(disks@, i) implies i == at by {
                        assert(disks@[i].covers && disks@[at as int].covers);
                    }
                } else {
                    assert forall|i: int| #[trigger] is_first_root(disks@, i) implies i == at by {
                        assert(disks@[i].is_root && disks@[at as int].is_root);
                    }
                    assert forall|i: int| !#[trigger] holds_directory(disks@, i) by {}
                }
            }
            disks[at].available
        },
        None => 0,
    }
}

/// `a` less `b`, or 0.
pub open spec fn less(a: u64, b: u64) -> u64 {
    if b <= a {
        (a - b) as u64
    } else {
        0
    }
}

/// What downloads may take of the available space.
pub fn available_download_budget(available: u64) -> (r: u64)
    ensures
        r == less(available, DISK_SPACE_RESERVE_BYTES),
{
    if DISK_SPACE_RESERVE_BYTES <= available {
        available - DISK_SPACE_RESERVE_BYTES
    } else {
        0
    }
}

/// How far a torrent is.
#[derive(Clone, Copy, Debug, PartialEq, Eq)]
pub struct Transfer {
    pub paused: bool,
    pub total_bytes: u64,
    pub progress_bytes: u64,
}

/// What a torrent still takes.
pub open spec fn reserved_by(t: Transfer) -> nat {
    if t.paused {
        0
    } else {
        match remaining(t.total_bytes, t.progress_bytes) {
            Some(bytes) => bytes as nat,
            None => 0,
        }
    }
}

/// What the torrents that are not paused still take.
pub open spec fn reservation(transfers: Seq<Transfer>) -> nat
    decreases transfers.len(),
{
    if transfers.len() == 0 {
        0
    } else {
        reservation(transfers.drop_last()) + reserved_by(transfers.last())
    }
}

proof fn lemma_reservation_grows(transfers: Seq<Transfer>, i: int)
    requires
        0 <= i <= transfers.len(),
    ensures
        reservation(transfers.take(i)) <= reservation(transfers),
    decreases transfers.len() - i,
{
    if i < transfers.len() {
        assert(transfers.take(i + 1).drop_last() =~= transfers.take(i));
        lemma_reservation_grows(transfers, i + 1);
    } else {
        assert(transfers.take(i) =~= transfers);
    }
}

/// What the torrents that are not paused still take; `None` where that cannot be counted.
pub fn active_download_reservation(transfers: &Vec<Transfer>) -> (r: Option<u64>)
    ensures
        match r {
            Some(bytes) => bytes == reservation(transfers@),
            None => reservation(transfers@) > u64::MAX,
        },
{
    let mut sum: u64 = 0;
    let mut i: usize = 0;
    while i < transfers.len()
        invariant
            i <= transfers@.len(),
            sum == reservation(transfers@.take(i as int)),
        decreases transfers@.len() - i,
    {
        let t = &transfers[i];
        let taken: u64 = if t.paused {
            0
        } else {
            match remaining_download_bytes(t.total_bytes, t.progress_bytes) {
                Some(bytes) => bytes,
                None => 0,
            }
        };
        proof {
            let next = transfers@.take(i + 1);
            assert(next.drop_last() =~= transfers@.take(i as int));
            assert(next.last() == transfers@[i as int]);
            lemma_reservation_grows(transfers@, i + 1);
        }
        sum = match sum.checked_add(taken) {
            Some(s) => s,
            None => {
                return None;
            },
        };
        i = i + 1;
    }
    proof {
        assert(transfers@.take(i as int) =~= transfers@);
    }
    Some(sum)
}

/// What a download that is started may take: the budget without what is reserved.
pub fn available_start_budget(available: u64, reserved: u64) -> (r: u64)
    ensures
        r == less(less(available, DISK_SPACE_RESERVE_BYTES), reserved),
{
    let budget = available_download_budget(available);
    if reserved <= budget {
        budget - reserved
    } else {
        0
    }
}

/// Refuses a download of which more is left than `free`.
pub fn ensure_disk_space_for_download(total_bytes: u64, progress_bytes: u64, free: u64) -> (r:
    Result<(), EngineError>)
    ensures
        match remaining(total_bytes, progress_bytes) {
            Some(required) => if required > free {
                r matches Err(EngineError::InsufficientStorage(message)) && message@
                    == storage_error(required, free)
            } else {
                r is Ok
            },
            None => r is Ok,
        },
{
    if let Some(required) = remaining_download_bytes(total_bytes, progress_bytes) {
        if required > free {
            return Err(
                EngineError::InsufficientStorage(format_storage_error(required, free)),
            );
        }
    }
    Ok(())
}

/// A download that is let in fits beside all that is reserved, and leaves the reserve of
/// the disk alone.
pub proof fn law_admitted_download_fits(
    available: u64,
    transfers: Seq<Transfer>,
    total_bytes: u64,
    progress_bytes: u64,
)
    requires
        reservation(transfers) <= u64::MAX,
        remaining(total_bytes, progress_bytes) is Some,
        remaining(total_bytes, progress_bytes).unwrap() <= less(
            less(available, DISK_SPACE_RESERVE_BYTES),
            reservation(transfers) as u64,
        ),
    ensures
        remaining(total_bytes, progress_bytes).unwrap() + reservation(transfers)
            + DISK_SPACE_RESERVE_BYTES <= available,
{
}

/// How many torrents are not paused.
pub open spec fn count_active(paused: Seq<bool>) -> nat
    decreases paused.len(),
{
    if paused.len() == 0 {
        0
    } else {
        count_active(paused.drop_last()) + (if paused.last() {
            0nat
        } else {
            1nat
        })
    }
}

/// How many torrents are not paused, in 32 bits.
pub fn active_tasks(paused: &Vec<bool>) -> (r: u32)
    ensures
        r == count_active(paused@) as u32,
{
    let mut count: usize = 0;
    let mut i: usize = 0;
    while i < paused.len()
        invariant
            i <= paused@.len(),
            count == count_active(paused@.take(i as int)),
            count <= i,
        decreases paused@.len() - i,
    {
        proof {
            let next = paused@.take(i + 1);
            assert(next.drop_last() =~= paused@.take(i as int));
            assert(next.last() == paused@[i as int]);
        }
        if !paused[i] {
            count = count + 1;
        }
        i = i + 1;
    }
    proof {
        assert(paused@.take(i as int) =~= paused@);
    }
    count as u32
}

} // verus!
