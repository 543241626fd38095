//! Entities whose state changed since it was last saved: buildings, and
//! players together with the session they were changed under. Each is
//! handed out once by a take, and can be put back.
use vstd::prelude::*;
use crate::ids::{EntityId, SessionId};

verus! {

/// Buildings whose state changed since it was last saved, each entity once.
pub struct DirtyBuildings {
    entities: Vec<EntityId>,
}

impl DirtyBuildings {
    /// The entities waiting to be saved.
    pub closed spec fn pending(&self) -> Set<EntityId> {
        self.entities@.to_set()
    }

    pub closed spec fn wf(&self) -> bool {
        self.entities@.no_duplicates()
    }

    pub fn new() -> (r: Self)
        ensures
            r.wf(),
            r.pending() == Set::<EntityId>::empty(),
    {
        let r = DirtyBuildings { entities: Vec::new() };
        proof {
            assert(r.pending() =~= Set::<EntityId>::empty());
        }
        r
    }

    fn insert(&mut self, entity: EntityId)
        requires
            old(self).wf(),
        ensures
            final(self).wf(),
            final(self).pending() == old(self).pending().insert(entity),
    {
        let ghost before = self.entities@;
        let mut i: usize = 0;
        while i < self.entities.len()
            invariant
                self.entities@ == before,
                before.no_duplicates(),
                i <= before.len(),
                forall|j: int| 0 <= j < i ==> before[j] != entity,
            decreases before.len() - i,
        {
            if self.entities[i] == entity {
                proof {
                    assert(before.contains(entity));
                    assert(self.pending() =~= before.to_set().insert(entity));
                }
                return;
            }
            i = i + 1;
        }
        self.entities.push(entity);
        proof {
            assert(self.entities@.to_set() =~= before.to_set().insert(entity)) by {
                assert forall|x: EntityId| self.entities@.contains(x) implies before.contains(x) || x == entity by {
                    let k = choose|k: int| 0 <= k < self.entities@.len() && self.entities@[k] == x;
                    if k < before.len() {
                        assert(before[k] == x);
                    }
                }
                assert forall|x: EntityId| before.contains(x) implies self.entities@.contains(x) by {
                    let k = choose|k: int| 0 <= k < before.len() && before[k] == x;
                    assert(self.entities@[k] == x);
                }
                assert(self.entities@[before.len() as int] == entity);
            }
            assert forall|a: int, b: int| 0 <= a < self.entities@.len() && 0 <= b < self.entities@.len() && a != b
                implies self.entities@[a] != self.entities@[b] by {
                if a < before.len() && b < before.len() {
                    assert(before.no_duplicates());
                }
            }
        }
    }

    /// Marks `entity` dirty when it is a building (`is_building`, what the
    /// entity store answers), and says whether it did.
    pub fn mark_building_dirty(&mut self, entity: EntityId, is_building: bool) -> (r: bool)
        requires
            old(self).wf(),
        ensures
            final(self).wf(),
            r == is_building,
            final(self).pending() == (if is_building {
                old(self).pending().insert(entity)
            } else {
                old(self).pending()
            }),
    {
        if !is_building {
            return false;
        }
        self.insert(entity);
        true
    }

    /// Hands out every dirty building, each once, and leaves none pending.
    pub fn take_dirty_building_entities(&mut self) -> (r: Vec<EntityId>)
        requires
            old(self).wf(),
        ensures
            final(self).wf(),
            final(self).pending() == Set::<EntityId>::empty(),
            r@.to_set() == old(self).pending(),
            r@.no_duplicates(),
    {
        let mut taken: Vec<EntityId> = Vec::new();
        std::mem::swap(&mut taken, &mut self.entities);
        proof {
            assert(self.entities@.to_set() =~= Set::<EntityId>::empty());
        }
        taken
    }

    /// Puts `entities` back among the dirty buildings.
    pub fn requeue_dirty_building_entities(&mut self, entities: Vec<EntityId>)
        requires
            old(self).wf(),
        ensures
            final(self).wf(),
            final(self).pending() == old(self).pending().union(entities@.to_set()),
    {
        let mut i: usize = 0;
        while i < entities.len()
            invariant
                self.wf(),
                i <= entities@.len(),
                self.pending() == old(self).pending().union(entities@.take(i as int).to_set()),
            decreases entities@.len() - i,
        {
            proof {
                assert(entities@.take(i as int + 1).to_set() =~= entities@.take(i as int).to_set().insert(entities@[i as int])) by {
                    assert(entities@.take(i as int + 1) == entities@.take(i as int).push(entities@[i as int]));
                    entities@.take(i as int).lemma_push_to_set_commute(entities@[i as int]);
                }
            }
            self.insert(entities[i]);
            i = i + 1;
            proof {
                assert(self.pending() =~= old(self).pending().union(entities@.take(i as int).to_set()));
            }
        }
        proof {
            assert(entities@.take(entities@.len() as int) == entities@);
        }
    }
}


/// Players whose state changed since it was last saved, each with the
/// session it changed under; each pair once.
pub struct DirtyPlayers {
    entries: Vec<(EntityId, SessionId)>,
}

impl DirtyPlayers {
    /// The players waiting to be saved, with their sessions.
    pub closed spec fn pending(&self) -> Set<(EntityId, SessionId)> {
        self.entries@.to_set()
    }

    pub closed spec fn wf(&self) -> bool {
        self.entries@.no_duplicates()
    }

    pub fn new() -> (r: Self)
        ensures
            r.wf(),
            r.pending() == Set::<(EntityId, SessionId)>::empty(),
    {
        let r = DirtyPlayers { entries: Vec::new() };
        proof {
            assert(r.pending() =~= Set::<(EntityId, SessionId)>::empty());
        }
        r
    }

    /// Marks player `entity`, changed under `session`, dirty.
    pub fn mark_player_dirty(&mut self, entity: EntityId, session: SessionId)
        requires
            old(self).wf(),
        ensures
            final(self).wf(),
            final(self).pending() == old(self).pending().insert((entity, session)),
    {
        let e = (entity, session);
        let ghost before = self.entries@;
        let mut i: usize = 0;
        while i < self.entries.len()
            invariant
                self.entries@ == before,
                e == (entity, session),
                before.no_duplicates(),
                i <= before.len(),
                forall|j: int| 0 <= j < i ==> before[j] != e,
            decreases before.len() - i,
        {
            let cur = self.entries[i];
            if cur.0 == entity && cur.1 == session {
                proof {
                    assert(before[i as int] == e);
                    assert(before.contains(e));
                    assert(self.pending() =~= before.to_set().insert(e));
                }
                return;
            }
            i = i + 1;
        }
        self.entries.push(e);
        proof {
            assert(self.entries@.to_set() =~= before.to_set().insert(e)) by {
                assert forall|x: (EntityId, SessionId)| self.entries@.contains(x) implies before.contains(x) || x == e by {
                    let k = choose|k: int| 0 <= k < self.entries@.len() && self.entries@[k] == x;
                    if k < before.len() {
                        assert(before[k] == x);
                    }
                }
                assert forall|x: (EntityId, SessionId)| before.contains(x) implies self.entries@.contains(x) by {
                    let k = choose|k: int| 0 <= k < before.len() && before[k] == x;
                    assert(self.entries@[k] == x);
                }
                assert(self.entries@[before.len() as int] == e);
            }
            assert forall|a: int, b: int| 0 <= a < self.entries@.len() && 0 <= b < self.entries@.len() && a != b
                implies self.entries@[a] != self.entries@[b] by {
                if a < before.len() && b < before.len() {
                    assert(before.no_duplicates());
                }
            }
        }
    }

    /// Hands out every dirty player, each pair once, and leaves none pending.
    pub fn take_dirty_player_entities(&mut self) -> (r: Vec<(EntityId, SessionId)>)
        requires
            old(self).wf(),
        ensures
            final(self).wf(),
            final(self).pending() == Set::<(EntityId, SessionId)>::empty(),
            r@.to_set() == old(self).pending(),
            r@.no_duplicates(),
    {
        let mut taken: Vec<(EntityId, SessionId)> = Vec::new();
        std::mem::swap(&mut taken, &mut self.entries);
        proof {
            assert(self.entries@.to_set() =~= Set::<(EntityId, SessionId)>::empty());
        }
        taken
    }

    /// Puts `entries` back among the dirty players.
    pub fn requeue_dirty_player_entities(&mut self, entries: Vec<(EntityId, SessionId)>)
        requires
            old(self).wf(),
        ensures
            final(self).wf(),
            final(self).pending() == old(self).pending().union(entries@.to_set()),
    {
        let mut i: usize = 0;
        while i < entries.len()
            invariant
                self.wf(),
                i <= entries@.len(),
                self.pending() == old(self).pending().union(entries@.take(i as int).to_set()),
            decreases entries@.len() - i,
        {
            proof {
                assert(entries@.take(i as int + 1).to_set() =~= entries@.take(i as int).to_set().insert(entries@[i as int])) by {
                    assert(entries@.take(i as int + 1) == entries@.take(i as int).push(entries@[i as int]));
                    entries@.take(i as int).lemma_push_to_set_commute(entries@[i as int]);
                }
            }
            let (entity, session) = entries[i];
            self.mark_player_dirty(entity, session);
            i = i + 1;
            proof {
                assert(self.pending() =~= old(self).pending().union(entries@.take(i as int).to_set()));
            }
        }
        proof {
            assert(entries@.take(entries@.len() as int) == entries@);
        }
    }
}

} // verus!
