//! The work of one gun tick: the players within reach of guns, and the guns
//! listed in the chunks around them, each in entity order and each gun once.
use vstd::prelude::*;
use crate::building_index::{BuildingIndex, chunk_entities_spec, chunk_of_cell};
use crate::chunks::{chunk_rect, gun_candidate_chunks, sat_dec, sat_inc};
use crate::ids::{ChunkPos, EntityId, WorldPos};
use crate::sorted::{KeyOrder, sorted_by_key, sorted_from, strictly_sorted};

verus! {

impl KeyOrder for EntityId {
    open spec fn key_le(self, other: Self) -> bool {
        self.0 <= other.0
    }

    fn key_le_exec(&self, other: &Self) -> (r: bool) {
        self.0 <= other.0
    }

    proof fn lemma_key_le_total(a: Self, b: Self) {
    }

    proof fn lemma_key_le_trans(a: Self, b: Self, c: Self) {
    }

    proof fn lemma_key_le_antisym(a: Self, b: Self) {
    }
}

/// A player that guns may fire at: its entity and cell.
#[derive(Clone, Copy, Debug, PartialEq, Eq, Structural)]
pub struct GunTarget {
    pub entity: EntityId,
    pub x: i32,
    pub y: i32,
}

/// The chunks whose guns reach a player at cell `(x, y)`.
pub open spec fn chunks_around_cell(x: i32, y: i32) -> Seq<ChunkPos> {
    let c = chunk_of_cell(WorldPos(x, y));
    chunk_rect(sat_dec(c.0), sat_inc(c.0), sat_dec(c.1), sat_inc(c.1))
}

/// The entities listed for the chunks `cs`, chunk after chunk.
pub open spec fn entities_of_chunks(listings: Seq<(ChunkPos, EntityId)>, cs: Seq<ChunkPos>) -> Seq<EntityId>
    decreases cs.len(),
{
    if cs.len() == 0 {
        Seq::empty()
    } else {
        entities_of_chunks(listings, cs.drop_last()) + chunk_entities_spec(listings, cs.last())
    }
}

/// The guns listed around each of `targets`, target after target.
pub open spec fn guns_around(listings: Seq<(ChunkPos, EntityId)>, targets: Seq<GunTarget>) -> Seq<EntityId>
    decreases targets.len(),
{
    if targets.len() == 0 {
        Seq::empty()
    } else {
        guns_around(listings, targets.drop_last()) + entities_of_chunks(
            listings,
            chunks_around_cell(targets.last().x, targets.last().y),
        )
    }
}

/// The players and guns of one gun tick.
pub struct GunCandidateBatch {
    pub guns: Vec<EntityId>,
    pub players: Vec<EntityId>,
}

/// The members of a sorted queue, each once, in increasing order.
fn dedup_sorted(v: &Vec<EntityId>) -> (r: Vec<EntityId>)
    ensures
        strictly_sorted(r@),
        forall|e: EntityId| r@.contains(e) <==> v@.contains(e),
{
    let q = sorted_from(v);
    let mut out: Vec<EntityId> = Vec::new();
    let mut i: usize = 0;
    let n = q.len();
    while i < n
        invariant
            n == q.entries().len(),
            q.wf(),
            i <= n,
            strictly_sorted(out@),
            forall|e: EntityId| out@.contains(e) <==> q.entries().take(i as int).contains(e),
            out@.len() > 0 ==> i > 0 && out@.last() == q.entries()[i - 1],
            forall|e: EntityId| q.entries().contains(e) <==> v@.contains(e),
        decreases n - i,
    {
        let e = q.entries_at(i);
        let ghost before = out@;
        let ghost t0 = q.entries().take(i as int);
        let ghost t1 = q.entries().take(i + 1);
        proof {
            assert(t1 == t0.push(e));
        }
        if out.len() == 0 || out[out.len() - 1].0 != e.0 {
            proof {
                if before.len() > 0 {
                    assert(q.entries()[i - 1].key_le(q.entries()[i as int]));
                }
            }
            out.push(e);
            proof {
                assert forall|a: int, b: int| 0 <= a < b < out@.len() implies (#[trigger] out@[a]).key_le(#[trigger] out@[b])
                    && out@[a] != out@[b] by {
                    if b < before.len() {
                        assert(out@[a] == before[a] && out@[b] == before[b]);
                    } else {
                        assert(out@[a] == before[a]);
                        if a < before.len() - 1 {
                            assert(before[a].key_le(before[before.len() - 1]));
                        }
                    }
                }
                assert forall|x: EntityId| out@.contains(x) <==> t1.contains(x) by {
                    if out@.contains(x) {
                        let k = choose|k: int| 0 <= k < out@.len() && out@[k] == x;
                        if k < before.len() {
                            assert(before[k] == x);
                            assert(before.contains(x));
                            let m = choose|m: int| 0 <= m < t0.len() && t0[m] == x;
                            assert(t1[m] == x);
                        } else {
                            assert(t1[i as int] == x);
                        }
                    }
                    if t1.contains(x) {
                        let m = choose|m: int| 0 <= m < t1.len() && t1[m] == x;
                        if m < i {
                            assert(t0[m] == x);
                            assert(t0.contains(x));
                            assert(before.contains(x));
                            let k = choose|k: int| 0 <= k < before.len() && before[k] == x;
                            assert(out@[k] == x);
                        } else {
                            assert(out@[before.len() as int] == x);
                        }
                    }
                }
            }
        } else {
            proof {
                assert(e == q.entries()[i - 1]);
                assert forall|x: EntityId| out@.contains(x) <==> t1.contains(x) by {
                    if t1.contains(x) {
                        let m = choose|m: int| 0 <= m < t1.len() && t1[m] == x;
                        if m < i {
                            assert(t0[m] == x);
                            assert(t0.contains(x));
                        } else {
                            assert(out@[out@.len() - 1] == x);
                        }
                    }
                    if out@.contains(x) {
                        assert(t0.contains(x));
                        let m = choose|m: int| 0 <= m < t0.len() && t0[m] == x;
                        assert(t1[m] == x);
                    }
                }
            }
        }
        i = i + 1;
    }
    proof {
        assert(q.entries().take(n as int) == q.entries());
    }
    out
}

/// The players of a gun tick in entity order, and the guns listed in the
/// chunks around any of them, each once, in entity order.
pub fn fill_gun_candidate_batch(targets: &Vec<GunTarget>, index: &BuildingIndex) -> (r: GunCandidateBatch)
    requires
        forall|i: int| 0 <= i < targets@.len() ==> (#[trigger] targets@[i]).x >= 0 && targets@[i].y >= 0,
    ensures
        strictly_sorted(r.guns@),
        forall|e: EntityId| r.guns@.contains(e) <==> guns_around(index.listings(), targets@).contains(e),
        sorted_by_key(r.players@),
        r.players@.len() == targets@.len(),
        forall|e: EntityId| r.players@.contains(e) <==> exists|i: int| 0 <= i < targets@.len() && (#[trigger] targets@[i]).entity
            == e,
{
    let mut entities: Vec<EntityId> = Vec::new();
    let mut gathered: Vec<EntityId> = Vec::new();
    let mut i: usize = 0;
    while i < targets.len()
        invariant
            i <= targets@.len(),
            forall|k: int| 0 <= k < targets@.len() ==> (#[trigger] targets@[k]).x >= 0 && targets@[k].y >= 0,
            gathered@ == guns_around(index.listings(), targets@.take(i as int)),
            entities@.len() == i,
            forall|k: int| 0 <= k < i ==> #[trigger] entities@[k] == targets@[k].entity,
        decreases targets@.len() - i,
    {
        let t = targets[i];
        entities.push(t.entity);
        let cx = (t.x / 32) as u32;
        let cy = (t.y / 32) as u32;
        let around = gun_candidate_chunks(cx, cy);
        proof {
            assert(around@ == chunks_around_cell(t.x, t.y));
            assert(targets@.take(i + 1).drop_last() == targets@.take(i as int));
        }
        let ghost base = gathered@;
        let mut j: usize = 0;
        while j < around.len()
            invariant
                j <= around@.len(),
                gathered@ == base + entities_of_chunks(index.listings(), around@.take(j as int)),
            decreases around@.len() - j,
        {
            let c = around[j];
            let found = index.building_entities_in_chunk_snapshot(c.0, c.1);
            proof {
                assert(around@.take(j + 1).drop_last() == around@.take(j as int));
                assert(ChunkPos(c.0, c.1) == around@[j as int]);
            }
            let mut k: usize = 0;
            let ghost mid = gathered@;
            while k < found.len()
                invariant
                    k <= found@.len(),
                    gathered@ == mid + found@.take(k as int),
                decreases found@.len() - k,
            {
                gathered.push(found[k]);
                proof {
                    assert(found@.take(k + 1) == found@.take(k as int).push(found@[k as int]));
                }
                k = k + 1;
            }
            proof {
                assert(found@.take(found@.len() as int) == found@);
                let tail = entities_of_chunks(index.listings(), around@.take(j as int));
                assert(base + tail + found@ == base + (tail + found@));
            }
            j = j + 1;
        }
        proof {
            assert(around@.take(around@.len() as int) == around@);
        }
        i = i + 1;
    }
    proof {
        assert(targets@.take(targets@.len() as int) == targets@);
    }
    let guns = dedup_sorted(&gathered);
    let sorted_players = sorted_from(&entities);
    let mut players: Vec<EntityId> = Vec::new();
    let mut p: usize = 0;
    let np = sorted_players.len();
    while p < np
        invariant
            np == sorted_players.entries().len(),
            p <= np,
            players@ == sorted_players.entries().take(p as int),
        decreases np - p,
    {
        players.push(sorted_players.entries_at(p));
        proof {
            assert(sorted_players.entries().take(p + 1) == sorted_players.entries().take(p as int).push(
                sorted_players.entries()[p as int],
            ));
        }
        p = p + 1;
    }
    proof {
        assert(sorted_players.entries().take(np as int) == sorted_players.entries());
        assert forall|e: EntityId| entities@.contains(e) <==> exists|k: int| 0 <= k < targets@.len() && (#[trigger] targets@[k]).entity
            == e by {
            if entities@.contains(e) {
                let k = choose|k: int| 0 <= k < entities@.len() && entities@[k] == e;
                assert(targets@[k].entity == e);
            }
            if exists|k: int| 0 <= k < targets@.len() && (#[trigger] targets@[k]).entity == e {
                let k = choose|k: int| 0 <= k < targets@.len() && (#[trigger] targets@[k]).entity == e;
                assert(entities@[k] == e);
            }
        }
    }
    GunCandidateBatch { guns, players }
}

} // verus!
