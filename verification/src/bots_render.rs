//! The byte budget of one bot-render batch: which due observers get their
//! `HB` packet now and which are put off to the next batch.
use vstd::prelude::*;
use crate::due::BotsRenderDue;
use crate::ids::PlayerId;

verus! {

/// Bytes an `HB` frame adds around its payload.
pub const HB_FRAME_OVERHEAD: usize = 7;

/// Outcome of one bot-render batch.
pub struct BotsRenderBatchResult {
    /// Observers served in this batch (an empty view counts as served).
    pub completed: Vec<BotsRenderDue>,
    /// Observers put off: those that could not be resolved, then those over
    /// the byte budget.
    pub deferred: Vec<BotsRenderDue>,
    /// How many `HB` packets were enqueued.
    pub observers_sent: usize,
    /// Their total wire size.
    pub bytes_enqueued: usize,
    /// How many chunks the shared snapshot held.
    pub snapshot_chunks: usize,
}

/// `a + b`, saturating at `usize::MAX`.
pub open spec fn sat_add(a: int, b: int) -> int {
    if a + b > usize::MAX {
        usize::MAX as int
    } else {
        a + b
    }
}

/// Where a batch stands after looking at a prefix of the observers.
pub struct PlanState {
    /// Observers served.
    pub served: nat,
    /// The budget ran out; the rest are put off.
    pub stopped: bool,
    pub sent: nat,
    pub bytes: int,
}

/// The batch plan over observers whose view payloads are `lens` bytes: in
/// order, an observer is served unless something was sent already and its
/// frame would take the enqueued bytes over `budget`, in which case it and
/// all after it are put off. Observers with an empty view are served without
/// a packet.
pub open spec fn plan(lens: Seq<usize>, budget: usize) -> PlanState
    decreases lens.len(),
{
    if lens.len() == 0 {
        PlanState { served: 0, stopped: false, sent: 0, bytes: 0 }
    } else {
        let p = plan(lens.drop_last(), budget);
        let len = lens.last();
        let wire = sat_add(len as int, HB_FRAME_OVERHEAD as int);
        if p.stopped {
            p
        } else if p.sent > 0 && sat_add(p.bytes, wire) > budget {
            PlanState { stopped: true, ..p }
        } else if len > 0 {
            PlanState {
                served: p.served + 1,
                stopped: false,
                sent: p.sent + 1,
                bytes: sat_add(p.bytes, wire),
            }
        } else {
            PlanState { served: p.served + 1, ..p }
        }
    }
}

proof fn lemma_plan_bounds(lens: Seq<usize>, budget: usize)
    ensures
        plan(lens, budget).served <= lens.len(),
        plan(lens, budget).sent <= plan(lens, budget).served,
        0 <= plan(lens, budget).bytes <= usize::MAX,
        !plan(lens, budget).stopped ==> plan(lens, budget).served == lens.len(),
    decreases lens.len(),
{
    if lens.len() > 0 {
        lemma_plan_bounds(lens.drop_last(), budget);
    }
}

/// Once the budget has stopped a batch, looking at more observers changes
/// nothing.
proof fn lemma_plan_stopped(lens: Seq<usize>, budget: usize, k: int)
    requires
        0 <= k <= lens.len(),
        plan(lens.take(k), budget).stopped,
    ensures
        plan(lens, budget) == plan(lens.take(k), budget),
    decreases lens.len() - k,
{
    if k < lens.len() {
        assert(lens.take(k + 1).drop_last() =~= lens.take(k));
        lemma_plan_stopped(lens, budget, k + 1);
    } else {
        assert(lens.take(k) =~= lens);
    }
}

/// Plans one batch: `observers` are the resolved observers with the byte
/// length of their view payload, in due order; `unresolved` those whose
/// player, position or connection was gone. The result serves the observers
/// `plan` serves, in order, and defers the unresolved ones followed by the
/// ones over the budget.
pub fn plan_bots_render_batch(
    observers: Vec<(BotsRenderDue, usize)>,
    unresolved: Vec<BotsRenderDue>,
    snapshot_chunks: usize,
    byte_budget: usize,
) -> (r: BotsRenderBatchResult)
    ensures
        ({
            let lens = observers@.map_values(|o: (BotsRenderDue, usize)| o.1);
            let p = plan(lens, byte_budget);
            &&& r.completed@ == observers@.take(p.served as int).map_values(
                |o: (BotsRenderDue, usize)| o.0,
            )
            &&& r.deferred@ == unresolved@ + observers@.skip(p.served as int).map_values(
                |o: (BotsRenderDue, usize)| o.0,
            )
            &&& r.observers_sent == p.sent
            &&& r.bytes_enqueued == p.bytes
            &&& r.snapshot_chunks == snapshot_chunks
        }),
{
    let ghost lens = observers@.map_values(|o: (BotsRenderDue, usize)| o.1);
    let mut completed: Vec<BotsRenderDue> = Vec::new();
    let mut deferred = unresolved;
    let mut sent: usize = 0;
    let mut bytes: usize = 0;
    let n = observers.len();
    let mut i: usize = 0;
    let mut stopped = false;
    proof {
        lemma_plan_bounds(lens.take(0), byte_budget);
        assert(lens.take(0) =~= Seq::<usize>::empty());
    }
    while i < n
        invariant_except_break
            !stopped,
        invariant
            n == observers@.len(),
            lens == observers@.map_values(|o: (BotsRenderDue, usize)| o.1),
            i <= n,
            sent <= i,
            plan(lens.take(i as int), byte_budget) == (PlanState {
                served: i as nat,
                stopped: false,
                sent: sent as nat,
                bytes: bytes as int,
            }),
            completed@ == observers@.take(i as int).map_values(|o: (BotsRenderDue, usize)| o.0),
            deferred@ == unresolved@,
        ensures
            i <= n,
            stopped ==> plan(lens.take(i as int + 1), byte_budget) == (PlanState {
                served: i as nat,
                stopped: true,
                sent: sent as nat,
                bytes: bytes as int,
            }) && i < n,
            !stopped ==> i == n && plan(lens.take(i as int), byte_budget) == (PlanState {
                served: i as nat,
                stopped: false,
                sent: sent as nat,
                bytes: bytes as int,
            }),
            completed@ == observers@.take(i as int).map_values(|o: (BotsRenderDue, usize)| o.0),
            deferred@ == unresolved@,
        decreases n - i,
    {
        let (due, len) = observers[i];
        let wire = len.saturating_add(HB_FRAME_OVERHEAD);
        proof {
            assert(lens.take(i + 1).drop_last() =~= lens.take(i as int));
            assert(lens.take(i + 1).last() == len);
        }
        if sent > 0 && bytes.saturating_add(wire) > byte_budget {
            stopped = true;
            break;
        }
        if len > 0 {
            sent = sent + 1;
            bytes = bytes.saturating_add(wire);
        }
        completed.push(due);
        assert(completed@ =~= observers@.take(i + 1).map_values(|o: (BotsRenderDue, usize)| o.0));
        i = i + 1;
        proof {
            lemma_plan_bounds(lens.take(i as int), byte_budget);
        }
    }
    let cut = i;
    proof {
        if stopped {
            lemma_plan_stopped(lens, byte_budget, i + 1);
        } else {
            assert(lens.take(i as int) =~= lens);
        }
    }
    let mut j = cut;
    while j < n
        invariant
            n == observers@.len(),
            cut <= j <= n,
            deferred@ == unresolved@ + observers@.subrange(cut as int, j as int).map_values(
                |o: (BotsRenderDue, usize)| o.0,
            ),
        decreases n - j,
    {
        let (due, _) = observers[j];
        deferred.push(due);
        assert(deferred@ =~= unresolved@ + observers@.subrange(cut as int, j + 1).map_values(
            |o: (BotsRenderDue, usize)| o.0,
        ));
        j = j + 1;
    }
    assert(observers@.subrange(cut as int, n as int) =~= observers@.skip(cut as int));
    BotsRenderBatchResult {
        completed,
        deferred,
        observers_sent: sent,
        bytes_enqueued: bytes,
        snapshot_chunks,
    }
}

/// A batch always serves its first observer, so due passes never starve.
pub proof fn lemma_plan_progress(lens: Seq<usize>, budget: usize)
    requires
        lens.len() > 0,
    ensures
        plan(lens, budget).served >= 1,
    decreases lens.len(),
{
    let d = lens.drop_last();
    if lens.len() == 1 {
        assert(d.len() == 0);
        assert(plan(d, budget).sent == 0 && !plan(d, budget).stopped);
    } else {
        lemma_plan_progress(d, budget);
    }
}

/// The byte budget is only ever overrun by the first packet of a batch:
/// once two or more packets are sent, their total stays within it.
pub proof fn lemma_plan_within_budget(lens: Seq<usize>, budget: usize)
    ensures
        plan(lens, budget).sent >= 2 ==> plan(lens, budget).bytes <= budget,
    decreases lens.len(),
{
    if lens.len() > 0 {
        lemma_plan_within_budget(lens.drop_last(), budget);
    }
}


/// The bytes an observer is sent of the rendered bots `items` (owner and
/// packet, in the order of the chunks in view): every packet in order,
/// except those of the observer's own bot.
pub open spec fn spec_observer_payload(items: Seq<(Option<PlayerId>, Vec<u8>)>, observer: PlayerId) -> Seq<u8>
    decreases items.len(),
{
    if items.len() == 0 {
        Seq::empty()
    } else {
        let prev = spec_observer_payload(items.drop_last(), observer);
        if items.last().0 != Some(observer) {
            prev + items.last().1@
        } else {
            prev
        }
    }
}

/// Assembles the "HB" payload of one observer (see `spec_observer_payload`).
pub fn observer_payload(items: &Vec<(Option<PlayerId>, Vec<u8>)>, observer: PlayerId) -> (r: Vec<u8>)
    ensures
        r@ == spec_observer_payload(items@, observer),
{
    let mut out: Vec<u8> = Vec::new();
    let mut i: usize = 0;
    while i < items.len()
        invariant
            i <= items@.len(),
            out@ == spec_observer_payload(items@.take(i as int), observer),
        decreases items@.len() - i,
    {
        proof {
            assert(items@.take(i + 1).drop_last() =~= items@.take(i as int));
        }
        let own = match items[i].0 {
            Some(p) => p.0 == observer.0,
            None => false,
        };
        if !own {
            let packet = &items[i].1;
            let ghost before = out@;
            let mut k: usize = 0;
            while k < packet.len()
                invariant
                    k <= packet@.len(),
                    out@ == before + packet@.take(k as int),
                decreases packet@.len() - k,
            {
                out.push(packet[k]);
                proof {
                    assert(packet@.take(k + 1) =~= packet@.take(k as int).push(packet@[k as int]));
                }
                k = k + 1;
            }
            proof {
                assert(packet@.take(packet@.len() as int) =~= packet@);
                assert(items@.take(i + 1).last() == items@[i as int]);
            }
        } else {
            proof {
                assert(items@[i as int].0 == Some(observer));
            }
        }
        i = i + 1;
    }
    proof {
        assert(items@.take(items@.len() as int) =~= items@);
    }
    out
}

} // verus!
