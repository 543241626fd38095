//! The run-time indexes of bot spots: each owner's bot-spot entity, the
//! bot-spot entities of each chunk, and what bot rendering shows of each
//! chunk's spots. A spot's bot id is its owner's id negated.
use vstd::prelude::*;
use crate::building_index::chunk_of_cell;
use crate::ids::{ChunkPos, EntityId, PlayerId, WorldPos};

verus! {

/// What bot rendering draws for a bot spot.
#[derive(Clone, Copy, Debug, PartialEq, Eq, Structural)]
pub struct BotSpotView {
    pub bot_id: i32,
    pub x: i32,
    pub y: i32,
    pub dir: i32,
    pub clan_id: i32,
}

/// No owner has two entries.
pub open spec fn distinct_owners(s: Seq<(PlayerId, EntityId)>) -> bool {
    forall|i: int, j: int| 0 <= i < j < s.len() ==> (#[trigger] s[i]).0 != (#[trigger] s[j]).0
}

/// The bot-spot entity of `owner`, if any.
pub open spec fn spot_of(s: Seq<(PlayerId, EntityId)>, owner: PlayerId) -> Option<EntityId> {
    if exists|i: int| 0 <= i < s.len() && (#[trigger] s[i]).0 == owner {
        Some(s[choose|i: int| 0 <= i < s.len() && (#[trigger] s[i]).0 == owner].1)
    } else {
        None
    }
}

/// The entities listed for chunk `c`, in listing order.
pub open spec fn spot_entities_of(m: Seq<(ChunkPos, EntityId)>, c: ChunkPos) -> Seq<EntityId>
    decreases m.len(),
{
    if m.len() == 0 {
        Seq::empty()
    } else {
        let rest = spot_entities_of(m.drop_last(), c);
        if m.last().0 == c {
            rest.push(m.last().1)
        } else {
            rest
        }
    }
}

/// The views listed for chunk `c`, in listing order.
pub open spec fn spot_views_of(m: Seq<(ChunkPos, BotSpotView)>, c: ChunkPos) -> Seq<BotSpotView>
    decreases m.len(),
{
    if m.len() == 0 {
        Seq::empty()
    } else {
        let rest = spot_views_of(m.drop_last(), c);
        if m.last().0 == c {
            rest.push(m.last().1)
        } else {
            rest
        }
    }
}

/// The entity listings without those of entity `e`.
pub open spec fn without_spot_entity(m: Seq<(ChunkPos, EntityId)>, e: EntityId) -> Seq<(ChunkPos, EntityId)>
    decreases m.len(),
{
    if m.len() == 0 {
        Seq::empty()
    } else {
        let rest = without_spot_entity(m.drop_last(), e);
        if m.last().1 != e {
            rest.push(m.last())
        } else {
            rest
        }
    }
}

/// The view listings without those of bot `bot_id`.
pub open spec fn without_bot(m: Seq<(ChunkPos, BotSpotView)>, bot_id: i32) -> Seq<(ChunkPos, BotSpotView)>
    decreases m.len(),
{
    if m.len() == 0 {
        Seq::empty()
    } else {
        let rest = without_bot(m.drop_last(), bot_id);
        if m.last().1.bot_id != bot_id {
            rest.push(m.last())
        } else {
            rest
        }
    }
}

/// The bot id of the spot of `owner`.
pub open spec fn bot_id_of(owner: PlayerId) -> int {
    -owner.0
}

/// The three bot-spot indexes.
pub struct BotSpotIndex {
    owners: Vec<(PlayerId, EntityId)>,
    spots: Vec<(ChunkPos, EntityId)>,
    views: Vec<(ChunkPos, BotSpotView)>,
}

impl BotSpotIndex {
    /// Owner and bot-spot entity, one entry per owner.
    pub closed spec fn owner_entries(&self) -> Seq<(PlayerId, EntityId)> {
        self.owners@
    }

    /// Chunk and bot-spot entity, in listing order.
    pub closed spec fn spot_listings(&self) -> Seq<(ChunkPos, EntityId)> {
        self.spots@
    }

    /// Chunk and rendered view, in listing order.
    pub closed spec fn view_listings(&self) -> Seq<(ChunkPos, BotSpotView)> {
        self.views@
    }

    pub open spec fn wf(&self) -> bool {
        distinct_owners(self.owner_entries())
    }

    pub fn new() -> (r: Self)
        ensures
            r.wf(),
            r.owner_entries() == Seq::<(PlayerId, EntityId)>::empty(),
            r.spot_listings() == Seq::<(ChunkPos, EntityId)>::empty(),
            r.view_listings() == Seq::<(ChunkPos, BotSpotView)>::empty(),
    {
        BotSpotIndex { owners: Vec::new(), spots: Vec::new(), views: Vec::new() }
    }

    fn find_owner(&self, owner: PlayerId) -> (r: Option<usize>)
        ensures
            r is None ==> forall|i: int| 0 <= i < self.owners@.len() ==> (#[trigger] self.owners@[i]).0 != owner,
            r matches Some(i) ==> i < self.owners@.len() && self.owners@[i as int].0 == owner,
    {
        let mut i: usize = 0;
        while i < self.owners.len()
            invariant
                i <= self.owners@.len(),
                forall|j: int| 0 <= j < i ==> (#[trigger] self.owners@[j]).0 != owner,
            decreases self.owners@.len() - i,
        {
            if self.owners[i].0.0 == owner.0 {
                return Some(i);
            }
            i = i + 1;
        }
        None
    }

    /// The bot-spot entity of `owner`.
    pub fn botspot_of(&self, owner: PlayerId) -> (r: Option<EntityId>)
        requires
            self.wf(),
        ensures
            r == spot_of(self.owner_entries(), owner),
    {
        match self.find_owner(owner) {
            Some(i) => {
                proof {
                    lemma_spot_of_entry(self.owners@, i as int);
                }
                Some(self.owners[i].1)
            },
            None => None,
        }
    }

    /// Registers the bot spot `entity` of `owner` at `(x, y)`: it becomes the
    /// owner's spot (replacing any other), and is listed last in the chunk of
    /// the cell, with its view (bot id the owner's id negated, facing 0).
    pub fn register_botspot_entity(&mut self, owner: PlayerId, x: i32, y: i32, clan_id: i32, entity: EntityId)
        requires
            old(self).wf(),
            x >= 0 && y >= 0,
            owner.0 != i32::MIN,
        ensures
            final(self).wf(),
            spot_of(final(self).owner_entries(), owner) == Some(entity),
            forall|o: PlayerId| o != owner ==> #[trigger] spot_of(final(self).owner_entries(), o) == spot_of(
                old(self).owner_entries(),
                o,
            ),
            final(self).spot_listings() == old(self).spot_listings().push((chunk_of_cell(WorldPos(x, y)), entity)),
            final(self).view_listings() == old(self).view_listings().push(
                (
                    chunk_of_cell(WorldPos(x, y)),
                    BotSpotView { bot_id: bot_id_of(owner) as i32, x, y, dir: 0, clan_id },
                ),
            ),
    {
        let ghost before = self.owners@;
        let c = ChunkPos((x / 32) as u32, (y / 32) as u32);
        match self.find_owner(owner) {
            Some(i) => {
                self.owners.set(i, (owner, entity));
                proof {
                    let after = self.owners@;
                    assert(distinct_owners(after)) by {
                        assert forall|a: int, b: int| 0 <= a < b < after.len() implies (#[trigger] after[a]).0
                            != (#[trigger] after[b]).0 by {
                            assert(before[a].0 != before[b].0);
                        }
                    }
                    lemma_spot_of_entry(after, i as int);
                    assert forall|o: PlayerId| o != owner implies #[trigger] spot_of(after, o) == spot_of(before, o) by {
                        lemma_spot_of_other(before, after, o, i as int);
                    }
                }
            },
            None => {
                self.owners.push((owner, entity));
                proof {
                    let after = self.owners@;
                    assert(distinct_owners(after)) by {
                        assert forall|a: int, b: int| 0 <= a < b < after.len() implies (#[trigger] after[a]).0
                            != (#[trigger] after[b]).0 by {
                            assert(after[a] == before[a]);
                            if b < before.len() {
                                assert(after[b] == before[b]);
                            }
                        }
                    }
                    lemma_spot_of_entry(after, before.len() as int);
                    assert forall|o: PlayerId| o != owner implies #[trigger] spot_of(after, o) == spot_of(before, o) by {
                        lemma_spot_of_other(before, after, o, before.len() as int);
                    }
                }
            },
        }
        self.spots.push((c, entity));
        let view = BotSpotView { bot_id: -owner.0, x, y, dir: 0, clan_id };
        self.views.push((c, view));
    }

    /// Removes the bot spot of `owner` and returns its entity: the entity
    /// leaves every chunk list and the owner's bot leaves every rendered
    /// chunk. Nothing changes when the owner has no spot.
    pub fn remove_botspot_runtime(&mut self, owner: PlayerId) -> (r: Option<EntityId>)
        requires
            old(self).wf(),
            owner.0 != i32::MIN,
        ensures
            final(self).wf(),
            r == spot_of(old(self).owner_entries(), owner),
            r is None ==> final(self).owner_entries() == old(self).owner_entries() && final(self).spot_listings()
                == old(self).spot_listings() && final(self).view_listings() == old(self).view_listings(),
            r matches Some(e) ==> {
                &&& spot_of(final(self).owner_entries(), owner) is None
                &&& forall|o: PlayerId| o != owner ==> #[trigger] spot_of(final(self).owner_entries(), o) == spot_of(
                    old(self).owner_entries(),
                    o,
                )
                &&& final(self).spot_listings() == without_spot_entity(old(self).spot_listings(), e)
                &&& final(self).view_listings() == without_bot(old(self).view_listings(), bot_id_of(owner) as i32)
            },
    {
        let i = match self.find_owner(owner) {
            None => {
                proof {
                    assert(!exists|k: int| 0 <= k < self.owners@.len() && (#[trigger] self.owners@[k]).0 == owner);
                }
                return None;
            },
            Some(i) => i,
        };
        let ghost before = self.owners@;
        proof {
            lemma_spot_of_entry(before, i as int);
        }
        let (_, e) = self.owners.remove(i);
        proof {
            lemma_spot_of_remove(before, i as int);
        }
        let ghost spots0 = self.spots@;
        let mut kept: Vec<(ChunkPos, EntityId)> = Vec::new();
        let mut j: usize = 0;
        while j < self.spots.len()
            invariant
                self.spots@ == spots0,
                j <= spots0.len(),
                kept@ == without_spot_entity(spots0.take(j as int), e),
            decreases spots0.len() - j,
        {
            proof {
                assert(spots0.take(j as int + 1).drop_last() == spots0.take(j as int));
            }
            let l = self.spots[j];
            if l.1.0 != e.0 {
                kept.push(l);
            }
            j = j + 1;
        }
        proof {
            assert(spots0.take(spots0.len() as int) == spots0);
        }
        self.spots = kept;
        let bot = -owner.0;
        let ghost views0 = self.views@;
        let mut kept_views: Vec<(ChunkPos, BotSpotView)> = Vec::new();
        let mut k: usize = 0;
        while k < self.views.len()
            invariant
                self.views@ == views0,
                k <= views0.len(),
                kept_views@ == without_bot(views0.take(k as int), bot),
            decreases views0.len() - k,
        {
            proof {
                assert(views0.take(k as int + 1).drop_last() == views0.take(k as int));
            }
            let l = self.views[k];
            if l.1.bot_id != bot {
                kept_views.push(l);
            }
            k = k + 1;
        }
        proof {
            assert(views0.take(views0.len() as int) == views0);
        }
        self.views = kept_views;
        Some(e)
    }

    /// The bot-spot entities listed for chunk `(cx, cy)`, in listing order.
    pub fn botspot_entities_in_chunk(&self, cx: u32, cy: u32) -> (r: Vec<EntityId>)
        ensures
            r@ == spot_entities_of(self.spot_listings(), ChunkPos(cx, cy)),
    {
        let c = ChunkPos(cx, cy);
        let mut out: Vec<EntityId> = Vec::new();
        let mut i: usize = 0;
        while i < self.spots.len()
            invariant
                i <= self.spots@.len(),
                out@ == spot_entities_of(self.spots@.take(i as int), c),
            decreases self.spots@.len() - i,
        {
            proof {
                assert(self.spots@.take(i as int + 1).drop_last() == self.spots@.take(i as int));
            }
            let (k, e) = self.spots[i];
            if k.0 == c.0 && k.1 == c.1 {
                out.push(e);
            }
            i = i + 1;
        }
        proof {
            assert(self.spots@.take(self.spots@.len() as int) == self.spots@);
        }
        out
    }

    /// What bot rendering shows of the spots of chunk `(cx, cy)`, in listing order.
    pub fn bots_render_botspots_in_chunk(&self, cx: u32, cy: u32) -> (r: Vec<BotSpotView>)
        ensures
            r@ == spot_views_of(self.view_listings(), ChunkPos(cx, cy)),
    {
        let c = ChunkPos(cx, cy);
        let mut out: Vec<BotSpotView> = Vec::new();
        let mut i: usize = 0;
        while i < self.views.len()
            invariant
                i <= self.views@.len(),
                out@ == spot_views_of(self.views@.take(i as int), c),
            decreases self.views@.len() - i,
        {
            proof {
                assert(self.views@.take(i as int + 1).drop_last() == self.views@.take(i as int));
            }
            let (k, v) = self.views[i];
            if k.0 == c.0 && k.1 == c.1 {
                out.push(v);
            }
            i = i + 1;
        }
        proof {
            assert(self.views@.take(self.views@.len() as int) == self.views@);
        }
        out
    }
}

proof fn lemma_spot_of_entry(s: Seq<(PlayerId, EntityId)>, i: int)
    requires
        distinct_owners(s),
        0 <= i < s.len(),
    ensures
        spot_of(s, s[i].0) == Some(s[i].1),
{
    let c = choose|k: int| 0 <= k < s.len() && (#[trigger] s[k]).0 == s[i].0;
    if c != i {
        if c < i {
            assert(s[c].0 != s[i].0);
        } else {
            assert(s[i].0 != s[c].0);
        }
    }
}

/// Setting or appending entry `i` leaves the spots of the other owners.
proof fn lemma_spot_of_other(a: Seq<(PlayerId, EntityId)>, b: Seq<(PlayerId, EntityId)>, o: PlayerId, i: int)
    requires
        distinct_owners(a),
        distinct_owners(b),
        0 <= i <= a.len(),
        i < b.len(),
        b.len() == (if i == a.len() { a.len() + 1 } else { a.len() }),
        forall|k: int| 0 <= k < a.len() && k != i ==> b[k] == a[k],
        i < a.len() ==> b[i].0 == a[i].0,
        o != b[i].0,
    ensures
        spot_of(b, o) == spot_of(a, o),
{
    if exists|k: int| 0 <= k < a.len() && (#[trigger] a[k]).0 == o {
        let k = choose|k: int| 0 <= k < a.len() && (#[trigger] a[k]).0 == o;
        assert(k != i);
        assert(b[k] == a[k]);
        lemma_spot_of_entry(a, k);
        lemma_spot_of_entry(b, k);
    } else {
        assert forall|k: int| 0 <= k < b.len() implies (#[trigger] b[k]).0 != o by {
            if k != i {
                assert(b[k] == a[k]);
            }
        }
    }
}

proof fn lemma_spot_of_remove(s: Seq<(PlayerId, EntityId)>, i: int)
    requires
        distinct_owners(s),
        0 <= i < s.len(),
    ensures
        distinct_owners(s.remove(i)),
        spot_of(s.remove(i), s[i].0) is None,
        forall|o: PlayerId| o != s[i].0 ==> #[trigger] spot_of(s.remove(i), o) == spot_of(s, o),
{
    let r = s.remove(i);
    assert forall|a: int, b: int| 0 <= a < b < r.len() implies (#[trigger] r[a]).0 != (#[trigger] r[b]).0 by {
        let a2 = if a < i { a } else { a + 1 };
        let b2 = if b < i { b } else { b + 1 };
        assert(r[a] == s[a2] && r[b] == s[b2]);
    }
    assert forall|k: int| 0 <= k < r.len() implies (#[trigger] r[k]).0 != s[i].0 by {
        let k2 = if k < i { k } else { k + 1 };
        assert(r[k] == s[k2]);
        if k2 < i {
            assert(s[k2].0 != s[i].0);
        } else {
            assert(s[i].0 != s[k2].0);
        }
    }
    assert forall|o: PlayerId| o != s[i].0 implies #[trigger] spot_of(r, o) == spot_of(s, o) by {
        if exists|k: int| 0 <= k < s.len() && (#[trigger] s[k]).0 == o {
            let k = choose|k: int| 0 <= k < s.len() && (#[trigger] s[k]).0 == o;
            assert(k != i);
            let k2 = if k < i { k } else { k - 1 };
            assert(r[k2] == s[k]);
            lemma_spot_of_entry(s, k);
            lemma_spot_of_entry(r, k2);
        } else {
            assert forall|k: int| 0 <= k < r.len() implies (#[trigger] r[k]).0 != o by {
                let k2 = if k < i { k } else { k + 1 };
                assert(r[k] == s[k2]);
            }
        }
    }
}

} // verus!
