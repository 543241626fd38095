//! Delivery of movement fan-outs: a burst of movement updates that queued
//! up is collapsed to the latest update of each player.
use vstd::prelude::*;
use crate::ids::{PlayerId, SessionId};

verus! {

/// One movement update: the moving player, who receives it, and the bytes.
pub struct MovementFanout {
    pub player_id: PlayerId,
    pub recipients: Vec<SessionId>,
    pub data: Vec<u8>,
}

/// No later update of the burst comes from the same player as update `i`.
pub open spec fn is_latest(b: Seq<MovementFanout>, i: int) -> bool {
    forall|j: int| i < j < b.len() ==> (#[trigger] b[j]).player_id != b[i].player_id
}

/// The indices of the first `n` updates that are their player's latest.
pub open spec fn latest_indices(b: Seq<MovementFanout>, n: int) -> Seq<int>
    decreases n,
{
    if n <= 0 {
        Seq::empty()
    } else if is_latest(b, n - 1) {
        latest_indices(b, n - 1).push(n - 1)
    } else {
        latest_indices(b, n - 1)
    }
}

/// Collapses an uninterrupted burst of movement updates: only each
/// player's latest update is delivered, and the deliveries follow the order
/// of those latest updates.
pub fn coalesce_movement_burst(burst: Vec<MovementFanout>) -> (r: Vec<(Vec<SessionId>, Vec<u8>)>)
    ensures
        r@.len() == latest_indices(burst@, burst@.len() as int).len(),
        forall|k: int|
            0 <= k < r@.len() ==> (#[trigger] r@[k]).0@ == burst@[latest_indices(
                burst@,
                burst@.len() as int,
            )[k]].recipients@ && r@[k].1@ == burst@[latest_indices(
                burst@,
                burst@.len() as int,
            )[k]].data@,
{
    let n = burst.len();
    let ghost b = burst@;
    let mut keep: Vec<bool> = Vec::new();
    let mut i: usize = 0;
    while i < n
        invariant
            n == b.len(),
            b == burst@,
            i <= n,
            keep@.len() == i,
            forall|k: int| 0 <= k < i ==> #[trigger] keep@[k] == is_latest(b, k),
        decreases n - i,
    {
        let mut j = i + 1;
        let mut later = false;
        while j < n
            invariant
                n == b.len(),
                b == burst@,
                i < n,
                i < j <= n,
                !later ==> forall|m: int| i < m < j ==> (#[trigger] b[m]).player_id != b[i as int].player_id,
                later ==> !is_latest(b, i as int),
            decreases n - j,
        {
            if burst[j].player_id.0 == burst[i].player_id.0 {
                later = true;
            }
            j = j + 1;
        }
        keep.push(!later);
        i = i + 1;
    }
    let mut out: Vec<(Vec<SessionId>, Vec<u8>)> = Vec::new();
    let mut k: usize = 0;
    while k < n
        invariant
            n == b.len(),
            b == burst@,
            k <= n,
            keep@.len() == n,
            forall|m: int| 0 <= m < n ==> #[trigger] keep@[m] == is_latest(b, m),
            out@.len() == latest_indices(b, k as int).len(),
            forall|m: int|
                0 <= m < out@.len() ==> (#[trigger] out@[m]).0@ == b[latest_indices(b, k as int)[m]].recipients@
                    && out@[m].1@ == b[latest_indices(b, k as int)[m]].data@,
        decreases n - k,
    {
        if keep[k] {
            let rec = vstd::slice::slice_to_vec(burst[k].recipients.as_slice());
            let data = vstd::slice::slice_to_vec(burst[k].data.as_slice());
            out.push((rec, data));
        }
        k = k + 1;
    }
    out
}

proof fn lemma_latest_indices(b: Seq<MovementFanout>, n: int)
    requires
        0 <= n <= b.len(),
    ensures
        forall|k: int|
            0 <= k < latest_indices(b, n).len() ==> 0 <= #[trigger] latest_indices(b, n)[k] < n
                && is_latest(b, latest_indices(b, n)[k]),
        forall|x: int, y: int|
            0 <= x < y < latest_indices(b, n).len() ==> #[trigger] latest_indices(b, n)[x]
                < #[trigger] latest_indices(b, n)[y],
        forall|j: int| 0 <= j < n && is_latest(b, j) ==> latest_indices(b, n).contains(j),
    decreases n,
{
    if n > 0 {
        lemma_latest_indices(b, n - 1);
        let prev = latest_indices(b, n - 1);
        if is_latest(b, n - 1) {
            let cur = prev.push(n - 1);
            assert forall|j: int| 0 <= j < n && is_latest(b, j) implies cur.contains(j) by {
                if j == n - 1 {
                    assert(cur[prev.len() as int] == j);
                } else {
                    let k = choose|k: int| 0 <= k < prev.len() && prev[k] == j;
                    assert(cur[k] == j);
                }
            }
        }
    }
}

proof fn lemma_has_latest(b: Seq<MovementFanout>, i: int)
    requires
        0 <= i < b.len(),
    ensures
        exists|j: int| i <= j < b.len() && is_latest(b, j) && b[j].player_id == b[i].player_id,
    decreases b.len() - i,
{
    if !is_latest(b, i) {
        let m = choose|m: int| i < m < b.len() && (#[trigger] b[m]).player_id == b[i].player_id;
        lemma_has_latest(b, m);
    }
}

/// A collapsed burst delivers exactly one update per player of the burst:
/// no player twice, and every player that moved.
pub proof fn lemma_coalesce_one_per_player(b: Seq<MovementFanout>)
    ensures
        ({
            let l = latest_indices(b, b.len() as int);
            &&& forall|x: int, y: int|
                0 <= x < y < l.len() ==> b[#[trigger] l[x]].player_id != b[#[trigger] l[y]].player_id
            &&& forall|i: int|
                #![trigger b[i]]
                0 <= i < b.len() ==> exists|k: int|
                    0 <= k < l.len() && b[#[trigger] l[k]].player_id == b[i].player_id
        }),
{
    let l = latest_indices(b, b.len() as int);
    lemma_latest_indices(b, b.len() as int);
    assert forall|x: int, y: int| 0 <= x < y < l.len() implies b[#[trigger] l[x]].player_id
        != b[#[trigger] l[y]].player_id by {
        assert(l[x] < l[y]);
        assert(is_latest(b, l[x]));
    }
    assert forall|i: int| #![trigger b[i]] 0 <= i < b.len() implies exists|k: int|
        0 <= k < l.len() && b[#[trigger] l[k]].player_id == b[i].player_id by {
        lemma_has_latest(b, i);
        let j = choose|j: int| i <= j < b.len() && is_latest(b, j) && b[j].player_id == b[i].player_id;
        assert(l.contains(j));
        let k = choose|k: int| 0 <= k < l.len() && l[k] == j;
        assert(b[l[k]].player_id == b[i].player_id);
    }
}

} // verus!
