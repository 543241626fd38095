//! Deadline schedules built on a sorted min-queue (bot rendering, programmators, crafting completion, standing
//! hazards). Times are milliseconds of a monotonic clock, except crafting,
//! which uses unix seconds.
use vstd::prelude::*;
use crate::ids::{EntityId, PlayerId};
use crate::sorted::{KeyOrder, SortedQueue, lemma_sorted_first_is_min};
use std::collections::HashMap;

verus! {

/// A due bot-render pass for one player session.
#[derive(Clone, Copy, Debug, PartialEq, Eq, Structural)]
pub struct BotsRenderDue {
    pub due_at: u64,
    pub player_id: PlayerId,
    pub session_token: u64,
}

impl KeyOrder for BotsRenderDue {
    open spec fn key_le(self, other: Self) -> bool {
        self.due_at < other.due_at || (self.due_at == other.due_at && (self.player_id.0
            < other.player_id.0 || (self.player_id.0 == other.player_id.0 && self.session_token
            <= other.session_token)))
    }

    fn key_le_exec(&self, other: &Self) -> (r: bool) {
        self.due_at < other.due_at || (self.due_at == other.due_at && (self.player_id.0
            < other.player_id.0 || (self.player_id.0 == other.player_id.0 && self.session_token
            <= other.session_token)))
    }

    proof fn lemma_key_le_total(a: Self, b: Self) {
    }

    proof fn lemma_key_le_trans(a: Self, b: Self, c: Self) {
    }

    proof fn lemma_key_le_antisym(a: Self, b: Self) {
        assert(a.player_id == b.player_id);
    }
}

/// An entity due at a monotonic time.
#[derive(Clone, Copy, Debug, PartialEq, Eq, Structural)]
pub struct EntityDue {
    pub due_at: u64,
    pub entity: EntityId,
}

impl KeyOrder for EntityDue {
    open spec fn key_le(self, other: Self) -> bool {
        self.due_at < other.due_at || (self.due_at == other.due_at && self.entity.0
            <= other.entity.0)
    }

    fn key_le_exec(&self, other: &Self) -> (r: bool) {
        self.due_at < other.due_at || (self.due_at == other.due_at && self.entity.0
            <= other.entity.0)
    }

    proof fn lemma_key_le_total(a: Self, b: Self) {
    }

    proof fn lemma_key_le_trans(a: Self, b: Self, c: Self) {
    }

    proof fn lemma_key_le_antisym(a: Self, b: Self) {
        assert(a.entity == b.entity);
    }
}

/// A building whose crafting completes at unix second `end_ts`.
#[derive(Clone, Copy, Debug, PartialEq, Eq, Structural)]
pub struct CraftingDue {
    pub entity: EntityId,
    pub end_ts: i64,
}

impl KeyOrder for CraftingDue {
    open spec fn key_le(self, other: Self) -> bool {
        self.end_ts < other.end_ts || (self.end_ts == other.end_ts && self.entity.0
            <= other.entity.0)
    }

    fn key_le_exec(&self, other: &Self) -> (r: bool) {
        self.end_ts < other.end_ts || (self.end_ts == other.end_ts && self.entity.0
            <= other.entity.0)
    }

    proof fn lemma_key_le_total(a: Self, b: Self) {
    }

    proof fn lemma_key_le_trans(a: Self, b: Self, c: Self) {
    }

    proof fn lemma_key_le_antisym(a: Self, b: Self) {
        assert(a.entity == b.entity);
    }
}

/// When each online player's next bot-render pass is due.
pub struct BotsRenderSchedule {
    due: SortedQueue<BotsRenderDue>,
}

impl BotsRenderSchedule {
    /// Pending passes, earliest first.
    pub closed spec fn pending(&self) -> Seq<BotsRenderDue> {
        self.due.entries()
    }

    pub closed spec fn wf(&self) -> bool {
        self.due.wf()
    }

    pub fn new() -> (r: Self)
        ensures
            r.wf(),
            r.pending() == Seq::<BotsRenderDue>::empty(),
    {
        BotsRenderSchedule { due: SortedQueue::new() }
    }

    /// Adds a pending pass.
    pub fn schedule(&mut self, due: BotsRenderDue)
        requires
            old(self).wf(),
        ensures
            final(self).wf(),
            exists|k: int|
                0 <= k <= old(self).pending().len() && final(self).pending() == old(
                    self,
                ).pending().insert(k, due),
    {
        self.due.push(due);
        proof {
            let k = choose|k: int|
                0 <= k <= old(self).due.entries().len() && self.due.entries() == old(
                    self,
                ).due.entries().insert(k, due);
            assert(self.pending() == old(self).pending().insert(k, due));
        }
    }

    /// Takes the earliest pass if it is due at `now`; never one that is not
    /// due yet, and `None` only when no pass is due.
    pub fn pop_due(&mut self, now: u64) -> (r: Option<BotsRenderDue>)
        requires
            old(self).wf(),
        ensures
            final(self).wf(),
            match r {
                Some(d) => {
                    &&& old(self).pending().len() > 0
                    &&& d == old(self).pending()[0]
                    &&& d.due_at <= now
                    &&& final(self).pending() == old(self).pending().drop_first()
                    &&& forall|i: int|
                        0 <= i < old(self).pending().len() ==> d.key_le(
                            #[trigger] old(self).pending()[i],
                        )
                },
                None => {
                    &&& final(self).pending() == old(self).pending()
                    &&& forall|i: int|
                        0 <= i < old(self).pending().len() ==> (
                        #[trigger] old(self).pending()[i]).due_at > now
                },
            },
    {
        match self.due.peek() {
            None => None,
            Some(first) => {
                if first.due_at > now {
                    proof {
                        assert forall|i: int|
                            0 <= i < old(self).pending().len() implies (
                        #[trigger] old(self).pending()[i]).due_at > now by {
                            lemma_sorted_first_is_min(old(self).pending(), i);
                        }
                    }
                    return None;
                }
                let d = self.due.pop_first();
                proof {
                    assert forall|i: int| 0 <= i < old(self).pending().len() implies d.key_le(
                        #[trigger] old(self).pending()[i],
                    ) by {
                        lemma_sorted_first_is_min(old(self).pending(), i);
                    }
                }
                Some(d)
            },
        }
    }

    /// The time of the earliest pending pass.
    pub fn next_due_at(&self) -> (r: Option<u64>)
        ensures
            r == (if self.pending().len() == 0 {
                None
            } else {
                Some(self.pending()[0].due_at)
            }),
    {
        match self.due.peek() {
            Some(d) => Some(d.due_at),
            None => None,
        }
    }
}


/// When running programmators next act.
pub struct ProgrammatorDueSchedule {
    due: SortedQueue<EntityDue>,
}

impl ProgrammatorDueSchedule {
    /// Pending steps, earliest first.
    pub closed spec fn pending(&self) -> Seq<EntityDue> {
        self.due.entries()
    }

    pub closed spec fn wf(&self) -> bool {
        self.due.wf()
    }

    pub fn new() -> (r: Self)
        ensures
            r.wf(),
            r.pending() == Seq::<EntityDue>::empty(),
    {
        ProgrammatorDueSchedule { due: SortedQueue::new() }
    }

    /// Adds a step of `entity` due at `due_at`.
    pub fn schedule(&mut self, entity: EntityId, due_at: u64)
        requires
            old(self).wf(),
        ensures
            final(self).wf(),
            exists|k: int|
                0 <= k <= old(self).pending().len() && final(self).pending() == old(
                    self,
                ).pending().insert(k, EntityDue { due_at, entity }),
    {
        let e = EntityDue { due_at, entity };
        self.due.push(e);
        proof {
            let k = choose|k: int|
                0 <= k <= old(self).due.entries().len() && self.due.entries() == old(
                    self,
                ).due.entries().insert(k, e);
            assert(self.pending() == old(self).pending().insert(k, e));
        }
    }

    /// Some step is due at `now`.
    pub fn is_due(&self, now: u64) -> (r: bool)
        requires
            self.wf(),
        ensures
            r == exists|i: int|
                0 <= i < self.pending().len() && (#[trigger] self.pending()[i]).due_at <= now,
    {
        match self.due.peek() {
            Some(first) => {
                proof {
                    if first.due_at > now {
                        assert forall|i: int| 0 <= i < self.pending().len() implies !((
                        #[trigger] self.pending()[i]).due_at <= now) by {
                            lemma_sorted_first_is_min(self.pending(), i);
                        }
                    } else {
                        assert(self.pending()[0].due_at <= now);
                    }
                }
                first.due_at <= now
            },
            None => false,
        }
    }

    /// The time of the earliest pending step.
    pub fn next_due_at(&self) -> (r: Option<u64>)
        ensures
            r == (if self.pending().len() == 0 {
                None
            } else {
                Some(self.pending()[0].due_at)
            }),
    {
        match self.due.peek() {
            Some(d) => Some(d.due_at),
            None => None,
        }
    }

    /// Takes, earliest first, at most `limit` steps that are due at `now`;
    /// when fewer than `limit` come back, no step left is due.
    pub fn pop_due(&mut self, now: u64, limit: usize) -> (r: Vec<(EntityId, u64)>)
        requires
            old(self).wf(),
        ensures
            final(self).wf(),
            r@.len() <= limit,
            r@.len() <= old(self).pending().len(),
            final(self).pending() == old(self).pending().skip(r@.len() as int),
            forall|i: int|
                #![trigger r@[i]]
                0 <= i < r@.len() ==> r@[i].0 == old(self).pending()[i].entity && r@[i].1 == old(
                    self,
                ).pending()[i].due_at && r@[i].1 <= now,
            r@.len() < limit ==> forall|i: int|
                0 <= i < final(self).pending().len() ==> (
                #[trigger] final(self).pending()[i]).due_at > now,
    {
        let ghost orig = self.pending();
        let mut due: Vec<(EntityId, u64)> = Vec::new();
        loop
            invariant
                orig == old(self).pending(),
                self.wf(),
                due@.len() <= limit,
                due@.len() <= old(self).pending().len(),
                self.pending() == old(self).pending().skip(due@.len() as int),
                forall|i: int|
                    #![trigger due@[i]]
                    0 <= i < due@.len() ==> due@[i].0 == orig[i].entity && due@[i].1
                        == orig[i].due_at && due@[i].1 <= now,
            decreases old(self).pending().len() - due@.len(),
        {
            if due.len() >= limit {
                return due;
            }
            match self.due.peek() {
                None => {
                    return due;
                },
                Some(first) => {
                    if first.due_at > now {
                        proof {
                            assert forall|i: int| 0 <= i < self.pending().len() implies (
                            #[trigger] self.pending()[i]).due_at > now by {
                                lemma_sorted_first_is_min(self.pending(), i);
                            }
                        }
                        return due;
                    }
                    let ghost before = self.pending();
                    let d = self.due.pop_first();
                    assert(before[0] == old(self).pending()[due@.len() as int]);
                    due.push((d.entity, d.due_at));
                    assert(self.pending() =~= old(self).pending().skip(due@.len() as int));
                },
            }
        }
    }
}

/// When each building's crafting completes (unix seconds).
pub struct CraftingDueSchedule {
    due: SortedQueue<CraftingDue>,
}

impl CraftingDueSchedule {
    /// Pending completions, earliest first.
    pub closed spec fn pending(&self) -> Seq<CraftingDue> {
        self.due.entries()
    }

    pub closed spec fn wf(&self) -> bool {
        self.due.wf()
    }

    pub fn new() -> (r: Self)
        ensures
            r.wf(),
            r.pending() == Seq::<CraftingDue>::empty(),
    {
        CraftingDueSchedule { due: SortedQueue::new() }
    }

    /// Adds the completion of `entity` at `end_ts`; a non-positive time
    /// means "no crafting" and is ignored.
    pub fn schedule(&mut self, entity: EntityId, end_ts: i64)
        requires
            old(self).wf(),
        ensures
            final(self).wf(),
            end_ts <= 0 ==> final(self).pending() == old(self).pending(),
            end_ts > 0 ==> exists|k: int|
                0 <= k <= old(self).pending().len() && final(self).pending() == old(
                    self,
                ).pending().insert(k, CraftingDue { entity, end_ts }),
    {
        if end_ts > 0 {
            let e = CraftingDue { entity, end_ts };
            self.due.push(e);
            proof {
                let k = choose|k: int|
                    0 <= k <= old(self).due.entries().len() && self.due.entries() == old(
                        self,
                    ).due.entries().insert(k, e);
                assert(self.pending() == old(self).pending().insert(k, e));
            }
        }
    }

    /// Some completion is due at `now_ts`.
    pub fn is_due(&self, now_ts: i64) -> (r: bool)
        requires
            self.wf(),
        ensures
            r == exists|i: int|
                0 <= i < self.pending().len() && (#[trigger] self.pending()[i]).end_ts <= now_ts,
    {
        match self.due.peek() {
            Some(first) => {
                proof {
                    if first.end_ts > now_ts {
                        assert forall|i: int| 0 <= i < self.pending().len() implies !((
                        #[trigger] self.pending()[i]).end_ts <= now_ts) by {
                            lemma_sorted_first_is_min(self.pending(), i);
                        }
                    } else {
                        assert(self.pending()[0].end_ts <= now_ts);
                    }
                }
                first.end_ts <= now_ts
            },
            None => false,
        }
    }

    /// The earliest pending completion time.
    pub fn next_due_ts(&self) -> (r: Option<i64>)
        ensures
            r == (if self.pending().len() == 0 {
                None
            } else {
                Some(self.pending()[0].end_ts)
            }),
    {
        match self.due.peek() {
            Some(d) => Some(d.end_ts),
            None => None,
        }
    }

    /// Takes, earliest first, at most `limit` completions due at `now_ts`;
    /// when fewer than `limit` come back, none left is due.
    pub fn pop_due(&mut self, now_ts: i64, limit: usize) -> (r: Vec<CraftingDue>)
        requires
            old(self).wf(),
        ensures
            final(self).wf(),
            r@.len() <= limit,
            r@.len() <= old(self).pending().len(),
            r@ == old(self).pending().take(r@.len() as int),
            final(self).pending() == old(self).pending().skip(r@.len() as int),
            forall|i: int| 0 <= i < r@.len() ==> (#[trigger] r@[i]).end_ts <= now_ts,
            r@.len() < limit ==> forall|i: int|
                0 <= i < final(self).pending().len() ==> (
                #[trigger] final(self).pending()[i]).end_ts > now_ts,
    {
        let mut due: Vec<CraftingDue> = Vec::new();
        loop
            invariant
                self.wf(),
                due@.len() <= limit,
                due@.len() <= old(self).pending().len(),
                due@ == old(self).pending().take(due@.len() as int),
                self.pending() == old(self).pending().skip(due@.len() as int),
                forall|i: int| 0 <= i < due@.len() ==> (#[trigger] due@[i]).end_ts <= now_ts,
            decreases old(self).pending().len() - due@.len(),
        {
            if due.len() >= limit {
                return due;
            }
            match self.due.peek() {
                None => {
                    return due;
                },
                Some(first) => {
                    if first.end_ts > now_ts {
                        proof {
                            assert forall|i: int| 0 <= i < self.pending().len() implies (
                            #[trigger] self.pending()[i]).end_ts > now_ts by {
                                lemma_sorted_first_is_min(self.pending(), i);
                            }
                        }
                        return due;
                    }
                    let d = self.due.pop_first();
                    due.push(d);
                    assert(due@ =~= old(self).pending().take(due@.len() as int));
                    assert(self.pending() =~= old(self).pending().skip(due@.len() as int));
                },
            }
        }
    }

    /// Number of pending completions.
    pub fn len(&self) -> (r: usize)
        ensures
            r == self.pending().len(),
    {
        self.due.len()
    }
}


/// The queue entry that stands for entity `e` due at `t`.
pub open spec fn hazard_entry(e: u64, t: u64) -> EntityDue {
    EntityDue { due_at: t, entity: EntityId(e) }
}

/// Standing-cell hazard checks: at most one deadline per entity, the
/// earliest one asked for. Superseded queue entries are dropped lazily.
pub struct HazardDueSchedule {
    due: SortedQueue<EntityDue>,
    scheduled: HashMap<u64, u64>,
}

impl HazardDueSchedule {
    /// The live deadline of each entity (keyed by entity bits).
    pub closed spec fn deadlines(&self) -> Map<u64, u64> {
        self.scheduled@
    }

    pub closed spec fn wf(&self) -> bool {
        &&& self.due.wf()
        &&& forall|e: u64|
            #[trigger] self.scheduled@.contains_key(e) ==> self.due.entries().contains(
                hazard_entry(e, self.scheduled@[e]),
            )
    }

    pub fn new() -> (r: Self)
        ensures
            r.wf(),
            r.deadlines() == Map::<u64, u64>::empty(),
    {
        HazardDueSchedule { due: SortedQueue::new(), scheduled: HashMap::new() }
    }

    /// Asks for a check of `entity` at `due_at`; an earlier deadline already
    /// held for it wins.
    pub fn schedule(&mut self, entity: EntityId, due_at: u64)
        requires
            old(self).wf(),
        ensures
            final(self).wf(),
            final(self).deadlines() == (if old(self).deadlines().contains_key(entity.0) && old(
                self,
            ).deadlines()[entity.0] <= due_at {
                old(self).deadlines()
            } else {
                old(self).deadlines().insert(entity.0, due_at)
            }),
    {
        broadcast use vstd::std_specs::hash::group_hash_axioms;

        let e = EntityDue { due_at, entity };
        let ghost before = self.due.entries();
        match self.scheduled.insert(entity.0, due_at) {
            None => {
                self.due.push(e);
            },
            Some(previous) => {
                if due_at < previous {
                    self.due.push(e);
                } else {
                    self.scheduled.insert(entity.0, previous);
                    assert(self.scheduled@ =~= old(self).scheduled@);
                }
            },
        }
        proof {
            let after = self.due.entries();
            if after != before {
                let k = choose|k: int|
                    0 <= k <= before.len() && after == before.insert(k, e);
                assert forall|x: u64| #[trigger]
                    self.scheduled@.contains_key(x) implies after.contains(
                    hazard_entry(x, self.scheduled@[x]),
                ) by {
                    if x == entity.0 {
                        assert(after[k] == e);
                    } else {
                        let j = choose|j: int|
                            0 <= j < before.len() && before[j] == hazard_entry(
                                x,
                                self.scheduled@[x],
                            );
                        if j < k {
                            assert(after[j] == before[j]);
                        } else {
                            assert(after[j + 1] == before[j]);
                        }
                    }
                }
            }
        }
    }

    /// Drops queue entries that no longer match a live deadline until the
    /// earliest entry is live (or the queue is empty).
    fn discard_stale_head(&mut self)
        requires
            old(self).wf(),
        ensures
            final(self).wf(),
            final(self).deadlines() == old(self).deadlines(),
            final(self).due.entries().len() == 0 ==> final(self).deadlines().is_empty(),
            final(self).due.entries().len() > 0 ==> {
                let h = final(self).due.entries()[0];
                &&& final(self).deadlines().contains_key(h.entity.0)
                &&& final(self).deadlines()[h.entity.0] == h.due_at
            },
    {
        broadcast use vstd::std_specs::hash::group_hash_axioms;

        loop
            invariant
                self.wf(),
                self.deadlines() == old(self).deadlines(),
            decreases self.due.entries().len(),
        {
            match self.due.peek() {
                None => {
                    proof {
                        if !self.scheduled@.is_empty() {
                            let x = self.scheduled@.dom().choose();
                            assert(self.scheduled@.contains_key(x));
                            assert(self.due.entries().contains(
                                hazard_entry(x, self.scheduled@[x]),
                            ));
                        }
                        assert(self.scheduled@ =~= Map::<u64, u64>::empty());
                    }
                    return ;
                },
                Some(h) => {
                    let live = match self.scheduled.get(&h.entity.0) {
                        Some(t) => *t == h.due_at,
                        None => false,
                    };
                    if live {
                        return ;
                    }
                    let ghost before = self.due.entries();
                    self.due.pop_first();
                    proof {
                        assert forall|x: u64| #[trigger]
                            self.scheduled@.contains_key(x) implies self.due.entries().contains(
                            hazard_entry(x, self.scheduled@[x]),
                        ) by {
                            let j = choose|j: int|
                                0 <= j < before.len() && before[j] == hazard_entry(
                                    x,
                                    self.scheduled@[x],
                                );
                            if j == 0 {
                                assert(x == h.entity.0);
                            } else {
                                assert(self.due.entries()[j - 1] == before[j]);
                            }
                        }
                    }
                },
            }
        }
    }

    /// The earliest live deadline, `None` when nothing is scheduled.
    pub fn next_due_at(&mut self) -> (r: Option<u64>)
        requires
            old(self).wf(),
        ensures
            final(self).wf(),
            final(self).deadlines() == old(self).deadlines(),
            r is None <==> old(self).deadlines().is_empty(),
            r matches Some(t) ==> {
                &&& exists|e: u64| #[trigger]
                    old(self).deadlines().contains_key(e) && old(self).deadlines()[e] == t
                &&& forall|e: u64| #[trigger]
                    old(self).deadlines().contains_key(e) ==> t <= old(self).deadlines()[e]
            },
    {
        self.discard_stale_head();
        match self.due.peek() {
            None => None,
            Some(h) => {
                proof {
                    self.lemma_head_is_min();
                    assert(self.deadlines().contains_key(h.entity.0));
                }
                Some(h.due_at)
            },
        }
    }

    /// A live head precedes the entry of every live deadline.
    proof fn lemma_head_is_min(&self)
        requires
            self.wf(),
            self.due.entries().len() > 0,
        ensures
            forall|e: u64| #[trigger]
                self.deadlines().contains_key(e) ==> self.due.entries()[0].key_le(
                    hazard_entry(e, self.deadlines()[e]),
                ),
    {
        assert forall|e: u64| #[trigger] self.deadlines().contains_key(e) implies self.due.entries()[0].key_le(
            hazard_entry(e, self.deadlines()[e]),
        ) by {
            let j = choose|j: int|
                0 <= j < self.due.entries().len() && self.due.entries()[j] == hazard_entry(
                    e,
                    self.deadlines()[e],
                );
            lemma_sorted_first_is_min(self.due.entries(), j);
        }
    }

    /// Takes, earliest first, at most `limit` entities whose deadline has
    /// come at `now`, removing their deadlines. Everything taken precedes
    /// everything left, and when fewer than `limit` come back nothing left
    /// is due.
    pub fn pop_due(&mut self, now: u64, limit: usize) -> (r: Vec<(EntityId, u64)>)
        requires
            old(self).wf(),
        ensures
            final(self).wf(),
            r@.len() <= limit,
            forall|i: int|
                #![trigger r@[i]]
                0 <= i < r@.len() ==> old(self).deadlines().contains_key((r@[i].0).0) && old(
                    self,
                ).deadlines()[(r@[i].0).0] == r@[i].1 && r@[i].1 <= now
                    && !final(self).deadlines().contains_key((r@[i].0).0),
            forall|i: int, j: int|
                #![trigger r@[i], r@[j]]
                0 <= i < j < r@.len() ==> hazard_entry((r@[i].0).0, r@[i].1).key_le(
                    hazard_entry((r@[j].0).0, r@[j].1),
                ) && r@[i].0 != r@[j].0,
            forall|e: u64|
                #![trigger final(self).deadlines().contains_key(e)]
                final(self).deadlines().contains_key(e) ==> old(self).deadlines().contains_key(e)
                    && final(self).deadlines()[e] == old(self).deadlines()[e],
            forall|e: u64|
                #![trigger old(self).deadlines().contains_key(e)]
                old(self).deadlines().contains_key(e) ==> final(self).deadlines().contains_key(e)
                    || exists|i: int| 0 <= i < r@.len() && (#[trigger] r@[i]).0 == EntityId(e),
            forall|i: int, e: u64|
                #![trigger r@[i], final(self).deadlines().contains_key(e)]
                0 <= i < r@.len() && final(self).deadlines().contains_key(e) ==> hazard_entry(
                    (r@[i].0).0,
                    r@[i].1,
                ).key_le(hazard_entry(e, final(self).deadlines()[e])),
            r@.len() < limit ==> forall|e: u64|
                #![trigger final(self).deadlines().contains_key(e)]
                final(self).deadlines().contains_key(e) ==> final(self).deadlines()[e] > now,
    {
        broadcast use vstd::std_specs::hash::group_hash_axioms;

        let ghost d0 = self.deadlines();
        let mut due: Vec<(EntityId, u64)> = Vec::new();
        loop
            invariant
                d0 == old(self).deadlines(),
                self.wf(),
                due@.len() <= limit,
                forall|i: int|
                    #![trigger due@[i]]
                    0 <= i < due@.len() ==> d0.contains_key((due@[i].0).0) && d0[(due@[i].0).0]
                        == due@[i].1 && due@[i].1 <= now && !self.deadlines().contains_key(
                        (due@[i].0).0,
                    ),
                forall|i: int, j: int|
                    #![trigger due@[i], due@[j]]
                    0 <= i < j < due@.len() ==> hazard_entry((due@[i].0).0, due@[i].1).key_le(
                        hazard_entry((due@[j].0).0, due@[j].1),
                    ) && due@[i].0 != due@[j].0,
                forall|e: u64| #[trigger]
                    self.deadlines().contains_key(e) ==> d0.contains_key(e)
                        && self.deadlines()[e] == d0[e],
                forall|e: u64|
                    d0.contains_key(e) ==> #[trigger] self.deadlines().contains_key(e)
                        || exists|i: int| 0 <= i < due@.len() && ((#[trigger] due@[i]).0).0 == e,
                forall|i: int, e: u64|
                    #![trigger due@[i], self.deadlines().contains_key(e)]
                    0 <= i < due@.len() && self.deadlines().contains_key(e) ==> hazard_entry(
                        (due@[i].0).0,
                        due@[i].1,
                    ).key_le(hazard_entry(e, self.deadlines()[e])),
            decreases self.deadlines().dom().len(),
        {
            if due.len() >= limit {
                return due;
            }
            self.discard_stale_head();
            let h = match self.due.peek() {
                None => {
                    return due;
                },
                Some(h) => h,
            };
            proof {
                self.lemma_head_is_min();
            }
            if h.due_at > now {
                proof {
                    assert forall|e: u64| #[trigger]
                        self.deadlines().contains_key(e) implies self.deadlines()[e] > now by {
                        assert(h.key_le(hazard_entry(e, self.deadlines()[e])));
                    }
                }
                return due;
            }
            let ghost dm = self.deadlines();
            let ghost old_due = due@;
            let ghost before = self.due.entries();
            self.due.pop_first();
            self.scheduled.remove(&h.entity.0);
            due.push((h.entity, h.due_at));
            proof {
                assert(dm.contains_key(h.entity.0) && dm[h.entity.0] == h.due_at);
                assert(self.deadlines() == dm.remove(h.entity.0));
                assert forall|x: u64| #[trigger]
                    self.scheduled@.contains_key(x) implies self.due.entries().contains(
                    hazard_entry(x, self.scheduled@[x]),
                ) by {
                    let j = choose|j: int|
                        0 <= j < before.len() && before[j] == hazard_entry(x, dm[x]);
                    if j == 0 {
                        assert(x == h.entity.0);
                    } else {
                        assert(self.due.entries()[j - 1] == before[j]);
                    }
                }
                assert forall|i: int|
                    #![trigger due@[i]]
                    0 <= i < due@.len() implies d0.contains_key((due@[i].0).0) && d0[(due@[i].0).0]
                        == due@[i].1 && due@[i].1 <= now && !self.deadlines().contains_key(
                        (due@[i].0).0,
                    ) by {
                    if i < old_due.len() {
                        assert(due@[i] == old_due[i]);
                    }
                }
                assert forall|i: int, j: int|
                    #![trigger due@[i], due@[j]]
                    0 <= i < j < due@.len() implies hazard_entry((due@[i].0).0, due@[i].1).key_le(
                        hazard_entry((due@[j].0).0, due@[j].1),
                    ) && due@[i].0 != due@[j].0 by {
                    assert(due@[i] == old_due[i]);
                    if j < old_due.len() {
                        assert(due@[j] == old_due[j]);
                    } else {
                        assert(due@[j] == (h.entity, h.due_at));
                        assert(dm.contains_key(h.entity.0));
                        assert(hazard_entry(h.entity.0, h.due_at) == h);
                    }
                }
                assert forall|e: u64|
                    d0.contains_key(e) implies #[trigger] self.deadlines().contains_key(e)
                    || exists|i: int| 0 <= i < due@.len() && ((#[trigger] due@[i]).0).0 == e by {
                    if !self.deadlines().contains_key(e) {
                        if e == h.entity.0 {
                            assert(due@[due@.len() - 1].0 == EntityId(e));
                        } else {
                            assert(!dm.contains_key(e));
                            let i = choose|i: int|
                                0 <= i < old_due.len() && (#[trigger] old_due[i]).0 == EntityId(e);
                            assert(due@[i] == old_due[i]);
                        }
                    }
                }
                assert forall|i: int, e: u64|
                    #![trigger due@[i], self.deadlines().contains_key(e)]
                    0 <= i < due@.len() && self.deadlines().contains_key(e) implies hazard_entry(
                        (due@[i].0).0,
                        due@[i].1,
                    ).key_le(hazard_entry(e, self.deadlines()[e])) by {
                    assert(dm.contains_key(e));
                    if i < old_due.len() {
                        assert(due@[i] == old_due[i]);
                    } else {
                        assert(due@[i] == (h.entity, h.due_at));
                        assert(hazard_entry(h.entity.0, h.due_at) == h);
                    }
                }
                assert(dm.dom().contains(h.entity.0));
            }
        }
    }
}

} // verus!
