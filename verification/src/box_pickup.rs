//! Pending box pickups: at most one per player, handled in arrival order.
use vstd::prelude::*;
use std::collections::{HashSet, VecDeque};
use crate::ids::{PlayerId, SessionId, WorldPos};

verus! {

/// What made a player touch a box.
#[derive(Clone, Copy, Debug, PartialEq, Eq)]
pub enum BoxPickupSource {
    Standing,
    Dig {
        session_id: Option<SessionId>,
        direction: i32,
        skin: i32,
        clan_id: i32,
        tail: u8,
        exclude_self: bool,
    },
}

/// A player's request to pick up the box at `box_pos`.
#[derive(Clone, Copy, Debug, PartialEq, Eq)]
pub struct BoxPickupIntent {
    pub player_id: PlayerId,
    pub player_pos: WorldPos,
    pub box_pos: WorldPos,
    pub source: BoxPickupSource,
}

/// No two queued intents belong to the same player.
pub open spec fn one_per_player(q: Seq<BoxPickupIntent>) -> bool {
    forall|i: int, j: int|
        0 <= i < j < q.len() ==> (#[trigger] q[i]).player_id != (#[trigger] q[j]).player_id
}

/// `pid` has a queued intent.
pub open spec fn queued_for(q: Seq<BoxPickupIntent>, pid: PlayerId) -> bool {
    exists|i: int| 0 <= i < q.len() && (#[trigger] q[i]).player_id == pid
}

pub struct BoxPickupQueue {
    queue: VecDeque<BoxPickupIntent>,
    players: HashSet<i32>,
}

impl BoxPickupQueue {
    /// Queued intents, oldest first.
    pub closed spec fn intents(&self) -> Seq<BoxPickupIntent> {
        self.queue@
    }

    pub closed spec fn wf(&self) -> bool {
        &&& one_per_player(self.queue@)
        &&& forall|p: i32| #[trigger]
            self.players@.contains(p) <==> queued_for(self.queue@, PlayerId(p))
    }

    pub fn new() -> (r: Self)
        ensures
            r.wf(),
            r.intents() == Seq::<BoxPickupIntent>::empty(),
    {
        BoxPickupQueue { queue: VecDeque::new(), players: HashSet::new() }
    }

    /// Queues `intent` unless its player already has one queued.
    pub fn push(&mut self, intent: BoxPickupIntent)
        requires
            old(self).wf(),
        ensures
            final(self).wf(),
            final(self).intents() == (if queued_for(old(self).intents(), intent.player_id) {
                old(self).intents()
            } else {
                old(self).intents().push(intent)
            }),
    {
        broadcast use vstd::std_specs::hash::group_hash_axioms;

        if self.players.insert(intent.player_id.0) {
            let ghost before = self.queue@;
            self.queue.push_back(intent);
            proof {
                assert(!queued_for(before, intent.player_id));
                let q = self.queue@;
                assert forall|i: int, j: int| 0 <= i < j < q.len() implies (#[trigger] q[i]).player_id
                    != (#[trigger] q[j]).player_id by {
                    if j == before.len() {
                        assert(q[i] == before[i]);
                    } else {
                        assert(q[i] == before[i] && q[j] == before[j]);
                    }
                }
                assert forall|p: i32| #[trigger]
                    self.players@.contains(p) <==> queued_for(q, PlayerId(p)) by {
                    if queued_for(before, PlayerId(p)) {
                        let i = choose|i: int|
                            0 <= i < before.len() && (#[trigger] before[i]).player_id == PlayerId(p);
                        assert(q[i] == before[i]);
                    }
                    if p == intent.player_id.0 {
                        assert(q[before.len() as int] == intent);
                    }
                    if queued_for(q, PlayerId(p)) && p != intent.player_id.0 {
                        let i = choose|i: int| 0 <= i < q.len() && (#[trigger] q[i]).player_id == PlayerId(p);
                        assert(q[i] == before[i]);
                    }
                }
            }
        } else {
            assert(queued_for(old(self).queue@, PlayerId(intent.player_id.0)));
        }
    }

    /// Takes every queued intent, oldest first, leaving the queue empty.
    pub fn drain(&mut self) -> (r: Vec<BoxPickupIntent>)
        requires
            old(self).wf(),
        ensures
            final(self).wf(),
            final(self).intents() == Seq::<BoxPickupIntent>::empty(),
            r@ == old(self).intents(),
    {
        broadcast use vstd::std_specs::hash::group_hash_axioms;

        self.players.clear();
        let ghost all = self.queue@;
        let mut out: Vec<BoxPickupIntent> = Vec::new();
        while self.queue.len() > 0
            invariant
                all == out@ + self.queue@,
                self.players@ == Set::<i32>::empty(),
            decreases self.queue@.len(),
        {
            let ghost q = self.queue@;
            match self.queue.pop_front() {
                Some(x) => {
                    out.push(x);
                    assert(all == out@ + self.queue@);
                },
                None => {},
            }
        }
        assert(out@ =~= all);
        assert(self.queue@ =~= Seq::<BoxPickupIntent>::empty());
        out
    }

    /// Nothing is queued.
    pub fn is_empty(&self) -> (r: bool)
        ensures
            r == (self.intents().len() == 0),
    {
        self.queue.len() == 0
    }
}

} // verus!
