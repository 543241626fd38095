//! The two run-time indexes of buildings: the building entity at each
//! origin cell, and the entities of each chunk. Both are changed only
//! together, so that they always agree.
use vstd::prelude::*;
use crate::ids::{ChunkPos, EntityId, WorldPos};

verus! {

/// The chunk of a cell with non-negative coordinates.
pub open spec fn chunk_of_cell(p: WorldPos) -> ChunkPos {
    ChunkPos((p.0 / 32) as u32, (p.1 / 32) as u32)
}

fn chunk_pos(x: i32, y: i32) -> (r: ChunkPos)
    requires
        x >= 0 && y >= 0,
    ensures
        r == chunk_of_cell(WorldPos(x, y)),
{
    ChunkPos((x / 32) as u32, (y / 32) as u32)
}

/// The origin cell of entry `i` is the only one with that cell.
pub open spec fn distinct_origins(s: Seq<(WorldPos, EntityId)>) -> bool {
    forall|i: int, j: int| 0 <= i < j < s.len() ==> (#[trigger] s[i]).0 != (#[trigger] s[j]).0
}

/// The entity registered at `p`, if any.
pub open spec fn entity_at_spec(s: Seq<(WorldPos, EntityId)>, p: WorldPos) -> Option<EntityId> {
    if exists|i: int| 0 <= i < s.len() && (#[trigger] s[i]).0 == p {
        Some(s[choose|i: int| 0 <= i < s.len() && (#[trigger] s[i]).0 == p].1)
    } else {
        None
    }
}

/// The entities listed for chunk `c`, in the order they were listed.
pub open spec fn chunk_entities_spec(m: Seq<(ChunkPos, EntityId)>, c: ChunkPos) -> Seq<EntityId>
    decreases m.len(),
{
    if m.len() == 0 {
        Seq::empty()
    } else {
        let rest = chunk_entities_spec(m.drop_last(), c);
        if m.last().0 == c {
            rest.push(m.last().1)
        } else {
            rest
        }
    }
}

/// Some registered building has entity `l.1` and its origin in chunk `l.0`.
pub open spec fn registered_in(pos: Seq<(WorldPos, EntityId)>, l: (ChunkPos, EntityId)) -> bool {
    exists|i: int| 0 <= i < pos.len() && (#[trigger] pos[i]).1 == l.1 && chunk_of_cell(pos[i].0) == l.0
}

/// The two indexes agree: each registered building is listed, once, in the
/// chunk of its origin, and each listing belongs to a registered building
/// of that chunk; no entity is registered twice.
pub open spec fn indexes_agree(pos: Seq<(WorldPos, EntityId)>, chunks: Seq<(ChunkPos, EntityId)>) -> bool {
    &&& forall|i: int| 0 <= i < pos.len() ==> chunks.contains((chunk_of_cell((#[trigger] pos[i]).0), pos[i].1))
    &&& forall|j: int| 0 <= j < chunks.len() ==> #[trigger] registered_in(pos, chunks[j])
    &&& forall|i: int, j: int| 0 <= i < j < pos.len() ==> (#[trigger] pos[i]).1 != (#[trigger] pos[j]).1
    &&& forall|i: int, j: int| 0 <= i < j < chunks.len() ==> (#[trigger] chunks[i]).1 != (#[trigger] chunks[j]).1
}

/// The building entity at each origin cell, and the entities of each chunk.
pub struct BuildingIndex {
    positions: Vec<(WorldPos, EntityId)>,
    chunks: Vec<(ChunkPos, EntityId)>,
}

impl BuildingIndex {
    /// Registered buildings: origin cell and entity.
    pub closed spec fn origins(&self) -> Seq<(WorldPos, EntityId)> {
        self.positions@
    }

    /// Chunk listings: chunk and entity, in listing order.
    pub closed spec fn listings(&self) -> Seq<(ChunkPos, EntityId)> {
        self.chunks@
    }

    pub open spec fn wf(&self) -> bool {
        distinct_origins(self.origins())
    }

    pub fn new() -> (r: Self)
        ensures
            r.wf(),
            r.origins() == Seq::<(WorldPos, EntityId)>::empty(),
            r.listings() == Seq::<(ChunkPos, EntityId)>::empty(),
    {
        BuildingIndex { positions: Vec::new(), chunks: Vec::new() }
    }

    fn find(&self, x: i32, y: i32) -> (r: Option<usize>)
        ensures
            r is None ==> forall|i: int| 0 <= i < self.positions@.len() ==> (#[trigger] self.positions@[i]).0 != WorldPos(x, y),
            r matches Some(i) ==> i < self.positions@.len() && self.positions@[i as int].0 == WorldPos(x, y),
    {
        let mut i: usize = 0;
        while i < self.positions.len()
            invariant
                i <= self.positions@.len(),
                forall|j: int| 0 <= j < i ==> (#[trigger] self.positions@[j]).0 != WorldPos(x, y),
            decreases self.positions@.len() - i,
        {
            let p = self.positions[i].0;
            if p.0 == x && p.1 == y {
                return Some(i);
            }
            i = i + 1;
        }
        None
    }

    /// The building entity whose origin is `(x, y)`.
    pub fn building_entity_at(&self, x: i32, y: i32) -> (r: Option<EntityId>)
        requires
            self.wf(),
        ensures
            r == entity_at_spec(self.origins(), WorldPos(x, y)),
    {
        match self.find(x, y) {
            Some(i) => {
                proof {
                    let c = choose|k: int| 0 <= k < self.positions@.len() && (#[trigger] self.positions@[k]).0 == WorldPos(x, y);
                    if c != i {
                        if c < i {
                            assert(self.positions@[c].0 != self.positions@[i as int].0);
                        } else {
                            assert(self.positions@[i as int].0 != self.positions@[c].0);
                        }
                    }
                }
                Some(self.positions[i].1)
            },
            None => None,
        }
    }

    /// Whether some building has its origin at `(x, y)`.
    pub fn has_building_origin(&self, x: i32, y: i32) -> (r: bool)
        requires
            self.wf(),
        ensures
            r == entity_at_spec(self.origins(), WorldPos(x, y)) is Some,
    {
        self.building_entity_at(x, y).is_some()
    }

    /// The entities of all registered buildings, in registration order.
    pub fn building_entities_snapshot(&self) -> (r: Vec<EntityId>)
        ensures
            r@ == self.origins().map_values(|o: (WorldPos, EntityId)| o.1),
    {
        let mut out: Vec<EntityId> = Vec::new();
        let mut i: usize = 0;
        while i < self.positions.len()
            invariant
                i <= self.positions@.len(),
                out@ == self.positions@.take(i as int).map_values(|o: (WorldPos, EntityId)| o.1),
            decreases self.positions@.len() - i,
        {
            proof {
                assert(self.positions@.take(i as int + 1).map_values(|o: (WorldPos, EntityId)| o.1)
                    == self.positions@.take(i as int).map_values(|o: (WorldPos, EntityId)| o.1).push(self.positions@[i as int].1));
            }
            out.push(self.positions[i].1);
            i = i + 1;
        }
        proof {
            assert(self.positions@.take(self.positions@.len() as int) == self.positions@);
        }
        out
    }

    /// The entities listed for chunk `(cx, cy)`, in listing order.
    pub fn building_entities_in_chunk_snapshot(&self, cx: u32, cy: u32) -> (r: Vec<EntityId>)
        ensures
            r@ == chunk_entities_spec(self.listings(), ChunkPos(cx, cy)),
    {
        let c = ChunkPos(cx, cy);
        let mut out: Vec<EntityId> = Vec::new();
        let mut i: usize = 0;
        while i < self.chunks.len()
            invariant
                i <= self.chunks@.len(),
                out@ == chunk_entities_spec(self.chunks@.take(i as int), c),
            decreases self.chunks@.len() - i,
        {
            proof {
                assert(self.chunks@.take(i as int + 1).drop_last() == self.chunks@.take(i as int));
            }
            let (k, e) = self.chunks[i];
            if k.0 == c.0 && k.1 == c.1 {
                out.push(e);
            }
            i = i + 1;
        }
        proof {
            assert(self.chunks@.take(self.chunks@.len() as int) == self.chunks@);
        }
        out
    }

    /// Registers the building `entity` with origin `(x, y)` in both
    /// indexes: it becomes the entity at that cell (replacing any other) and
    /// is listed last in the chunk of the cell.
    pub fn register_building_entity(&mut self, x: i32, y: i32, entity: EntityId)
        requires
            old(self).wf(),
            x >= 0 && y >= 0,
        ensures
            final(self).wf(),
            entity_at_spec(final(self).origins(), WorldPos(x, y)) == Some(entity),
            forall|p: WorldPos| p != WorldPos(x, y) ==> #[trigger] entity_at_spec(final(self).origins(), p)
                == entity_at_spec(old(self).origins(), p),
            final(self).listings() == old(self).listings().push((chunk_of_cell(WorldPos(x, y)), entity)),
            entity_at_spec(old(self).origins(), WorldPos(x, y)) is None ==> final(self).origins()
                == old(self).origins().push((WorldPos(x, y), entity)),
            indexes_agree(old(self).origins(), old(self).listings()) && entity_at_spec(old(self).origins(), WorldPos(x, y)) is None
                && (forall|i: int| 0 <= i < old(self).origins().len() ==> (#[trigger] old(self).origins()[i]).1 != entity)
                ==> indexes_agree(final(self).origins(), final(self).listings()),
    {
        let ghost before = self.positions@;
        let ghost before_chunks = self.chunks@;
        let c = chunk_pos(x, y);
        match self.find(x, y) {
            Some(i) => {
                self.positions.set(i, (WorldPos(x, y), entity));
                proof {
                    assert forall|a: int, b: int| 0 <= a < b < self.positions@.len() implies (#[trigger] self.positions@[a]).0
                        != (#[trigger] self.positions@[b]).0 by {
                        assert(before[a].0 != before[b].0);
                    }
                    lemma_entity_at_of(self.positions@, i as int);
                    assert forall|p: WorldPos| p != WorldPos(x, y) implies #[trigger] entity_at_spec(self.positions@, p)
                        == entity_at_spec(before, p) by {
                        lemma_entity_at_same_elsewhere(before, self.positions@, i as int, p);
                    }
                }
            },
            None => {
                self.positions.push((WorldPos(x, y), entity));
                proof {
                    assert forall|a: int, b: int| 0 <= a < b < self.positions@.len() implies (#[trigger] self.positions@[a]).0
                        != (#[trigger] self.positions@[b]).0 by {
                        assert(self.positions@[a] == before[a]);
                        if b < before.len() {
                            assert(self.positions@[b] == before[b]);
                        }
                    }
                    lemma_entity_at_of(self.positions@, before.len() as int);
                    assert forall|p: WorldPos| p != WorldPos(x, y) implies #[trigger] entity_at_spec(self.positions@, p)
                        == entity_at_spec(before, p) by {
                        lemma_entity_at_push_elsewhere(before, (WorldPos(x, y), entity), p);
                    }
                }
            },
        }
        self.chunks.push((c, entity));
        proof {
            if indexes_agree(before, before_chunks) && entity_at_spec(before, WorldPos(x, y)) is None
                && (forall|i: int| 0 <= i < before.len() ==> (#[trigger] before[i]).1 != entity) {
                lemma_register_agrees(before, before_chunks, WorldPos(x, y), entity);
            }
        }
    }

    /// Removes the building whose origin is `(x, y)` from both indexes and
    /// returns its entity; the chunk of `(x, y)` stops listing that entity.
    /// Nothing changes when no building has that origin.
    pub fn remove_building_entity(&mut self, x: i32, y: i32) -> (r: Option<EntityId>)
        requires
            old(self).wf(),
            x >= 0 && y >= 0,
        ensures
            final(self).wf(),
            r == entity_at_spec(old(self).origins(), WorldPos(x, y)),
            r is None ==> final(self).origins() == old(self).origins() && final(self).listings() == old(self).listings(),
            r matches Some(e) ==> {
                &&& entity_at_spec(final(self).origins(), WorldPos(x, y)) is None
                &&& forall|p: WorldPos| p != WorldPos(x, y) ==> #[trigger] entity_at_spec(final(self).origins(), p)
                    == entity_at_spec(old(self).origins(), p)
                &&& final(self).listings() == without_listing(old(self).listings(), (chunk_of_cell(WorldPos(x, y)), e))
            },
            indexes_agree(old(self).origins(), old(self).listings()) ==> indexes_agree(final(self).origins(), final(self).listings()),
            r matches Some(e) ==> (indexes_agree(old(self).origins(), old(self).listings()) ==> forall|k: int|
                0 <= k < final(self).origins().len() ==> (#[trigger] final(self).origins()[k]).1 != e),
    {
        match self.find(x, y) {
            None => {
                proof {
                    assert(!exists|k: int| 0 <= k < self.positions@.len() && (#[trigger] self.positions@[k]).0 == WorldPos(x, y));
                }
                None
            },
            Some(i) => {
                let e = self.positions[i].1;
                proof {
                    lemma_entity_at_of(self.positions@, i as int);
                }
                self.remove_at(i, chunk_pos(x, y));
                Some(e)
            },
        }
    }

    /// Removes the building at `(x, y)` only when its entity is `expected`.
    pub fn remove_building_entity_if(&mut self, x: i32, y: i32, expected: EntityId) -> (r: Option<EntityId>)
        requires
            old(self).wf(),
            x >= 0 && y >= 0,
        ensures
            final(self).wf(),
            r == (if entity_at_spec(old(self).origins(), WorldPos(x, y)) == Some(expected) {
                Some(expected)
            } else {
                None
            }),
            r is None ==> final(self).origins() == old(self).origins() && final(self).listings() == old(self).listings(),
            r is Some ==> {
                &&& entity_at_spec(final(self).origins(), WorldPos(x, y)) is None
                &&& forall|p: WorldPos| p != WorldPos(x, y) ==> #[trigger] entity_at_spec(final(self).origins(), p)
                    == entity_at_spec(old(self).origins(), p)
                &&& final(self).listings() == without_listing(old(self).listings(), (chunk_of_cell(WorldPos(x, y)), expected))
            },
            indexes_agree(old(self).origins(), old(self).listings()) ==> indexes_agree(final(self).origins(), final(self).listings()),
            r matches Some(e) ==> (indexes_agree(old(self).origins(), old(self).listings()) ==> forall|k: int|
                0 <= k < final(self).origins().len() ==> (#[trigger] final(self).origins()[k]).1 != e),
    {
        match self.find(x, y) {
            None => {
                proof {
                    assert(!exists|k: int| 0 <= k < self.positions@.len() && (#[trigger] self.positions@[k]).0 == WorldPos(x, y));
                }
                None
            },
            Some(i) => {
                proof {
                    lemma_entity_at_of(self.positions@, i as int);
                }
                if self.positions[i].1 != expected {
                    return None;
                }
                self.remove_at(i, chunk_pos(x, y));
                Some(expected)
            },
        }
    }

    fn remove_at(&mut self, i: usize, c: ChunkPos)
        requires
            old(self).wf(),
            i < old(self).positions@.len(),
            c == chunk_of_cell(old(self).positions@[i as int].0),
        ensures
            final(self).wf(),
            final(self).positions@ == old(self).positions@.remove(i as int),
            final(self).chunks@ == without_listing(old(self).chunks@, (c, old(self).positions@[i as int].1)),
            entity_at_spec(final(self).origins(), old(self).positions@[i as int].0) is None,
            forall|p: WorldPos| p != old(self).positions@[i as int].0 ==> #[trigger] entity_at_spec(final(self).origins(), p)
                == entity_at_spec(old(self).origins(), p),
            indexes_agree(old(self).origins(), old(self).listings()) ==> indexes_agree(final(self).origins(), final(self).listings()),
            indexes_agree(old(self).origins(), old(self).listings()) ==> forall|k: int|
                0 <= k < final(self).origins().len() ==> (#[trigger] final(self).origins()[k]).1 != old(self).positions@[i as int].1,
    {
        let ghost before = self.positions@;
        let ghost before_chunks = self.chunks@;
        let (_, e) = self.positions.remove(i);
        let mut kept: Vec<(ChunkPos, EntityId)> = Vec::new();
        let mut j: usize = 0;
        while j < self.chunks.len()
            invariant
                self.chunks@ == before_chunks,
                j <= before_chunks.len(),
                kept@ == without_listing(before_chunks.take(j as int), (c, e)),
            decreases before_chunks.len() - j,
        {
            proof {
                assert(before_chunks.take(j as int + 1).drop_last() == before_chunks.take(j as int));
            }
            let l = self.chunks[j];
            if !(l.0 == c && l.1 == e) {
                kept.push(l);
            }
            j = j + 1;
        }
        proof {
            assert(before_chunks.take(before_chunks.len() as int) == before_chunks);
        }
        self.chunks = kept;
        proof {
            lemma_remove_origins(before, i as int);
            if indexes_agree(before, before_chunks) {
                lemma_remove_agrees(before, before_chunks, i as int);
                assert forall|k: int| 0 <= k < self.positions@.len() implies (#[trigger] self.positions@[k]).1 != e by {
                    let k2 = if k < i { k } else { k + 1 };
                    assert(self.positions@[k] == before[k2]);
                    if k2 < i {
                        assert(before[k2].1 != before[i as int].1);
                    } else {
                        assert(before[i as int].1 != before[k2].1);
                    }
                }
            }
        }
    }

    /// Moves the building with origin `(old_x, old_y)` to `(new_x, new_y)`
    /// in both indexes; nothing happens when no building has that origin.
    pub fn move_building_entity(&mut self, old_x: i32, old_y: i32, new_x: i32, new_y: i32)
        requires
            old(self).wf(),
            old_x >= 0 && old_y >= 0 && new_x >= 0 && new_y >= 0,
        ensures
            final(self).wf(),
            entity_at_spec(old(self).origins(), WorldPos(old_x, old_y)) is None ==> final(self).origins()
                == old(self).origins() && final(self).listings() == old(self).listings(),
            entity_at_spec(old(self).origins(), WorldPos(old_x, old_y)) matches Some(e) ==> {
                &&& entity_at_spec(final(self).origins(), WorldPos(new_x, new_y)) == Some(e)
                &&& WorldPos(old_x, old_y) != WorldPos(new_x, new_y) ==> entity_at_spec(
                    final(self).origins(),
                    WorldPos(old_x, old_y),
                ) is None
                &&& forall|p: WorldPos| p != WorldPos(old_x, old_y) && p != WorldPos(new_x, new_y) ==> #[trigger] entity_at_spec(
                    final(self).origins(),
                    p,
                ) == entity_at_spec(old(self).origins(), p)
                &&& final(self).listings() == without_listing(old(self).listings(), (chunk_of_cell(WorldPos(old_x, old_y)), e)).push(
                    (chunk_of_cell(WorldPos(new_x, new_y)), e),
                )
            },
            indexes_agree(old(self).origins(), old(self).listings()) && (WorldPos(old_x, old_y) == WorldPos(new_x, new_y)
                || entity_at_spec(old(self).origins(), WorldPos(new_x, new_y)) is None)
                ==> indexes_agree(final(self).origins(), final(self).listings()),
    {
        if let Some(e) = self.remove_building_entity(old_x, old_y) {
            let ghost removed = *self;
            proof {
                if WorldPos(old_x, old_y) != WorldPos(new_x, new_y) {
                    assert(entity_at_spec(self.origins(), WorldPos(new_x, new_y)) == entity_at_spec(
                        old(self).origins(),
                        WorldPos(new_x, new_y),
                    ));
                }
            }
            self.register_building_entity(new_x, new_y, e);
            proof {
                if WorldPos(old_x, old_y) != WorldPos(new_x, new_y) {
                    assert(entity_at_spec(self.origins(), WorldPos(old_x, old_y)) == entity_at_spec(
                        removed.origins(),
                        WorldPos(old_x, old_y),
                    ));
                }
                assert forall|p: WorldPos| p != WorldPos(old_x, old_y) && p != WorldPos(new_x, new_y) implies #[trigger] entity_at_spec(
                    self.origins(),
                    p,
                ) == entity_at_spec(old(self).origins(), p) by {
                    assert(entity_at_spec(self.origins(), p) == entity_at_spec(removed.origins(), p));
                }
            }
        }
    }
}

/// In a list of distinct origins, the entity at the origin of entry `i` is its entity.
pub proof fn lemma_entity_at_of(s: Seq<(WorldPos, EntityId)>, i: int)
    requires
        distinct_origins(s),
        0 <= i < s.len(),
    ensures
        entity_at_spec(s, s[i].0) == Some(s[i].1),
{
    let c = choose|k: int| 0 <= k < s.len() && (#[trigger] s[k]).0 == s[i].0;
    if c != i {
        if c < i {
            assert(s[c].0 != s[i].0);
        } else {
            assert(s[i].0 != s[c].0);
        }
    }
}

proof fn lemma_entity_at_same_elsewhere(a: Seq<(WorldPos, EntityId)>, b: Seq<(WorldPos, EntityId)>, i: int, p: WorldPos)
    requires
        distinct_origins(a),
        0 <= i < a.len(),
        b == a.update(i, (a[i].0, b[i].1)),
        p != a[i].0,
    ensures
        entity_at_spec(b, p) == entity_at_spec(a, p),
{
    if exists|k: int| 0 <= k < a.len() && (#[trigger] a[k]).0 == p {
        let k = choose|k: int| 0 <= k < a.len() && (#[trigger] a[k]).0 == p;
        assert(b[k] == a[k]);
        assert(distinct_origins(b)) by {
            assert forall|x: int, y: int| 0 <= x < y < b.len() implies (#[trigger] b[x]).0 != (#[trigger] b[y]).0 by {
                assert(a[x].0 != a[y].0);
            }
        }
        lemma_entity_at_of(a, k);
        lemma_entity_at_of(b, k);
    } else {
        assert forall|k: int| 0 <= k < b.len() implies (#[trigger] b[k]).0 != p by {
            if k != i {
                assert(b[k] == a[k]);
            }
        }
    }
}

proof fn lemma_entity_at_push_elsewhere(a: Seq<(WorldPos, EntityId)>, e: (WorldPos, EntityId), p: WorldPos)
    requires
        distinct_origins(a.push(e)),
        p != e.0,
    ensures
        entity_at_spec(a.push(e), p) == entity_at_spec(a, p),
{
    let b = a.push(e);
    assert(distinct_origins(a)) by {
        assert forall|x: int, y: int| 0 <= x < y < a.len() implies (#[trigger] a[x]).0 != (#[trigger] a[y]).0 by {
            assert(b[x] == a[x] && b[y] == a[y]);
        }
    }
    if exists|k: int| 0 <= k < a.len() && (#[trigger] a[k]).0 == p {
        let k = choose|k: int| 0 <= k < a.len() && (#[trigger] a[k]).0 == p;
        assert(b[k] == a[k]);
        lemma_entity_at_of(a, k);
        lemma_entity_at_of(b, k);
    } else {
        assert forall|k: int| 0 <= k < b.len() implies (#[trigger] b[k]).0 != p by {
            if k < a.len() {
                assert(b[k] == a[k]);
            }
        }
    }
}

/// The listings without the listing `l`.
pub open spec fn without_listing(m: Seq<(ChunkPos, EntityId)>, l: (ChunkPos, EntityId)) -> Seq<(ChunkPos, EntityId)>
    decreases m.len(),
{
    if m.len() == 0 {
        Seq::empty()
    } else {
        let rest = without_listing(m.drop_last(), l);
        if m.last() != l {
            rest.push(m.last())
        } else {
            rest
        }
    }
}

proof fn lemma_without_listing(m: Seq<(ChunkPos, EntityId)>, l: (ChunkPos, EntityId))
    ensures
        forall|x: (ChunkPos, EntityId)| without_listing(m, l).contains(x) <==> (m.contains(x) && x != l),
        (forall|i: int, j: int| 0 <= i < j < m.len() ==> (#[trigger] m[i]).1 != (#[trigger] m[j]).1) ==> (forall|i: int, j: int|
            0 <= i < j < without_listing(m, l).len() ==> (#[trigger] without_listing(m, l)[i]).1 != (#[trigger] without_listing(m, l)[j]).1),
    decreases m.len(),
{
    if m.len() > 0 {
        let rest = m.drop_last();
        lemma_without_listing(rest, l);
        let w = without_listing(rest, l);
        let out = without_listing(m, l);
        assert forall|x: (ChunkPos, EntityId)| out.contains(x) <==> (m.contains(x) && x != l) by {
            if out.contains(x) {
                let k = choose|k: int| 0 <= k < out.len() && out[k] == x;
                if k < w.len() {
                    assert(out[k] == w[k]);
                    assert(w.contains(x));
                    assert(rest.contains(x));
                    let q = choose|q: int| 0 <= q < rest.len() && rest[q] == x;
                    assert(m[q] == x);
                } else {
                    assert(x == m.last());
                    assert(m[m.len() - 1] == x);
                }
            }
            if m.contains(x) && x != l {
                let q = choose|q: int| 0 <= q < m.len() && m[q] == x;
                if q < m.len() - 1 {
                    assert(rest[q] == x);
                    assert(rest.contains(x));
                    let k = choose|k: int| 0 <= k < w.len() && w[k] == x;
                    assert(out[k] == x);
                } else {
                    assert(out[out.len() - 1] == x);
                }
            }
        }
        if forall|i: int, j: int| 0 <= i < j < m.len() ==> (#[trigger] m[i]).1 != (#[trigger] m[j]).1 {
            assert forall|i: int, j: int| 0 <= i < j < rest.len() implies (#[trigger] rest[i]).1 != (#[trigger] rest[j]).1 by {
                assert(rest[i] == m[i] && rest[j] == m[j]);
            }
            assert forall|i: int, j: int| 0 <= i < j < out.len() implies (#[trigger] out[i]).1 != (#[trigger] out[j]).1 by {
                if j < w.len() {
                    assert(out[i] == w[i] && out[j] == w[j]);
                } else {
                    assert(out[j] == m.last());
                    assert(out[i] == w[i]);
                    assert(w.contains(w[i]));
                    assert(rest.contains(w[i]));
                    let q = choose|q: int| 0 <= q < rest.len() && rest[q] == w[i];
                    assert(m[q] == rest[q]);
                    assert(m[q].1 != m[m.len() - 1].1);
                }
            }
        }
    }
}

proof fn lemma_remove_origins(s: Seq<(WorldPos, EntityId)>, i: int)
    requires
        distinct_origins(s),
        0 <= i < s.len(),
    ensures
        distinct_origins(s.remove(i)),
        entity_at_spec(s.remove(i), s[i].0) is None,
        forall|p: WorldPos| p != s[i].0 ==> #[trigger] entity_at_spec(s.remove(i), p) == entity_at_spec(s, p),
{
    let r = s.remove(i);
    assert forall|a: int, b: int| 0 <= a < b < r.len() implies (#[trigger] r[a]).0 != (#[trigger] r[b]).0 by {
        let a2 = if a < i { a } else { a + 1 };
        let b2 = if b < i { b } else { b + 1 };
        assert(r[a] == s[a2] && r[b] == s[b2]);
    }
    assert forall|k: int| 0 <= k < r.len() implies (#[trigger] r[k]).0 != s[i].0 by {
        let k2 = if k < i { k } else { k + 1 };
        assert(r[k] == s[k2]);
        if k2 < i {
            assert(s[k2].0 != s[i].0);
        } else {
            assert(s[i].0 != s[k2].0);
        }
    }
    assert forall|p: WorldPos| p != s[i].0 implies #[trigger] entity_at_spec(r, p) == entity_at_spec(s, p) by {
        if exists|k: int| 0 <= k < s.len() && (#[trigger] s[k]).0 == p {
            let k = choose|k: int| 0 <= k < s.len() && (#[trigger] s[k]).0 == p;
            assert(k != i);
            let k2 = if k < i { k } else { k - 1 };
            assert(r[k2] == s[k]);
            lemma_entity_at_of(s, k);
            lemma_entity_at_of(r, k2);
        } else {
            assert forall|k: int| 0 <= k < r.len() implies (#[trigger] r[k]).0 != p by {
                let k2 = if k < i { k } else { k + 1 };
                assert(r[k] == s[k2]);
            }
        }
    }
}

proof fn lemma_register_agrees(pos: Seq<(WorldPos, EntityId)>, chunks: Seq<(ChunkPos, EntityId)>, p: WorldPos, e: EntityId)
    requires
        indexes_agree(pos, chunks),
        entity_at_spec(pos, p) is None,
        forall|i: int| 0 <= i < pos.len() ==> (#[trigger] pos[i]).1 != e,
    ensures
        indexes_agree(pos.push((p, e)), chunks.push((chunk_of_cell(p), e))),
{
    let np = pos.push((p, e));
    let nc = chunks.push((chunk_of_cell(p), e));
    assert forall|i: int| 0 <= i < np.len() implies nc.contains((chunk_of_cell((#[trigger] np[i]).0), np[i].1)) by {
        if i < pos.len() {
            assert(np[i] == pos[i]);
            assert(chunks.contains((chunk_of_cell(pos[i].0), pos[i].1)));
            let q = choose|q: int| 0 <= q < chunks.len() && chunks[q] == (chunk_of_cell(pos[i].0), pos[i].1);
            assert(nc[q] == chunks[q]);
        } else {
            assert(nc[chunks.len() as int] == (chunk_of_cell(p), e));
        }
    }
    assert forall|j: int| 0 <= j < nc.len() implies #[trigger] registered_in(np, nc[j]) by {
        if j < chunks.len() {
            assert(nc[j] == chunks[j]);
            assert(registered_in(pos, chunks[j]));
            let i = choose|i: int| 0 <= i < pos.len() && (#[trigger] pos[i]).1 == chunks[j].1 && chunk_of_cell(pos[i].0) == chunks[j].0;
            assert(np[i] == pos[i]);
        } else {
            assert(np[pos.len() as int] == (p, e));
        }
    }
    assert forall|a: int, b: int| 0 <= a < b < np.len() implies (#[trigger] np[a]).1 != (#[trigger] np[b]).1 by {
        assert(np[a] == pos[a]);
        if b < pos.len() {
            assert(np[b] == pos[b]);
        }
    }
    assert forall|a: int, b: int| 0 <= a < b < nc.len() implies (#[trigger] nc[a]).1 != (#[trigger] nc[b]).1 by {
        assert(nc[a] == chunks[a]);
        if b < chunks.len() {
            assert(nc[b] == chunks[b]);
        } else {
            assert(registered_in(pos, chunks[a]));
            let i = choose|i: int| 0 <= i < pos.len() && (#[trigger] pos[i]).1 == chunks[a].1 && chunk_of_cell(pos[i].0) == chunks[a].0;
            assert(pos[i].1 != e);
            assert(nc[b] == (chunk_of_cell(p), e));
        }
    }
}

proof fn lemma_remove_agrees(pos: Seq<(WorldPos, EntityId)>, chunks: Seq<(ChunkPos, EntityId)>, i: int)
    requires
        indexes_agree(pos, chunks),
        distinct_origins(pos),
        0 <= i < pos.len(),
    ensures
        indexes_agree(pos.remove(i), without_listing(chunks, (chunk_of_cell(pos[i].0), pos[i].1))),
{
    let l = (chunk_of_cell(pos[i].0), pos[i].1);
    let np = pos.remove(i);
    let nc = without_listing(chunks, l);
    lemma_without_listing(chunks, l);
    assert forall|k: int| 0 <= k < np.len() implies nc.contains((chunk_of_cell((#[trigger] np[k]).0), np[k].1)) by {
        let k2 = if k < i { k } else { k + 1 };
        assert(np[k] == pos[k2]);
        assert(chunks.contains((chunk_of_cell(pos[k2].0), pos[k2].1)));
        if k2 < i {
            assert(pos[k2].1 != pos[i].1);
        } else {
            assert(pos[i].1 != pos[k2].1);
        }
    }
    assert forall|j: int| 0 <= j < nc.len() implies #[trigger] registered_in(np, nc[j]) by {
        assert(nc.contains(nc[j]));
        assert(chunks.contains(nc[j]) && nc[j] != l);
        let q = choose|q: int| 0 <= q < chunks.len() && chunks[q] == nc[j];
        assert(registered_in(pos, chunks[q]));
        let k2 = choose|k2: int| 0 <= k2 < pos.len() && (#[trigger] pos[k2]).1 == chunks[q].1 && chunk_of_cell(pos[k2].0) == chunks[q].0;
        assert(k2 != i);
        let k = if k2 < i { k2 } else { k2 - 1 };
        assert(np[k] == pos[k2]);
    }
    assert forall|a: int, b: int| 0 <= a < b < np.len() implies (#[trigger] np[a]).1 != (#[trigger] np[b]).1 by {
        let a2 = if a < i { a } else { a + 1 };
        let b2 = if b < i { b } else { b + 1 };
        assert(np[a] == pos[a2] && np[b] == pos[b2]);
    }
}

} // verus!
