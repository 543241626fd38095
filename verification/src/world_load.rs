//! Bringing the stored buildings into the run-time indexes at start-up:
//! every building is registered at its origin, every spot building's bot
//! spot is registered for its owner, and unfinished crafting is scheduled.
use vstd::prelude::*;
use crate::botspot_index::{BotSpotIndex, BotSpotView, bot_id_of, spot_of};
use crate::building_index::{BuildingIndex, chunk_of_cell, entity_at_spec};
use crate::due::{CraftingDue, CraftingDueSchedule};
use crate::ids::{ChunkPos, EntityId, PlayerId, WorldPos};

verus! {

/// The bot spot spawned for a stored spot building.
#[derive(Clone, Copy, Debug, PartialEq, Eq, Structural)]
pub struct LoadedSpot {
    pub owner: PlayerId,
    pub clan_id: i32,
    pub entity: EntityId,
}

/// A stored building with the entity spawned for it.
#[derive(Clone, Copy, Debug, PartialEq, Eq, Structural)]
pub struct LoadedBuilding {
    pub x: i32,
    pub y: i32,
    pub entity: EntityId,
    /// When its crafting completes, for a crafter whose product is not ready.
    pub craft_end_ts: Option<i64>,
    /// Its bot spot, for a spot building.
    pub spot: Option<LoadedSpot>,
}

/// The building at `p` after loading `rows` over `before`: the last row
/// with that origin, else what was there.
pub open spec fn loaded_entity_at(before: Option<EntityId>, rows: Seq<LoadedBuilding>, p: WorldPos) -> Option<EntityId>
    decreases rows.len(),
{
    if rows.len() == 0 {
        before
    } else if WorldPos(rows.last().x, rows.last().y) == p {
        Some(rows.last().entity)
    } else {
        loaded_entity_at(before, rows.drop_last(), p)
    }
}

/// The spot of `owner` after loading `rows` over `before`: the last row
/// whose spot is the owner's, else what was there.
pub open spec fn loaded_spot_of(before: Option<EntityId>, rows: Seq<LoadedBuilding>, owner: PlayerId) -> Option<EntityId>
    decreases rows.len(),
{
    if rows.len() == 0 {
        before
    } else {
        match rows.last().spot {
            Some(s) => if s.owner == owner {
                Some(s.entity)
            } else {
                loaded_spot_of(before, rows.drop_last(), owner)
            },
            None => loaded_spot_of(before, rows.drop_last(), owner),
        }
    }
}

/// The chunk listings the rows add, in order.
pub open spec fn building_listings(rows: Seq<LoadedBuilding>) -> Seq<(ChunkPos, EntityId)>
    decreases rows.len(),
{
    if rows.len() == 0 {
        Seq::empty()
    } else {
        building_listings(rows.drop_last()).push((chunk_of_cell(WorldPos(rows.last().x, rows.last().y)), rows.last().entity))
    }
}

/// The bot-spot listings the rows add, in order.
pub open spec fn spot_listings_of(rows: Seq<LoadedBuilding>) -> Seq<(ChunkPos, EntityId)>
    decreases rows.len(),
{
    if rows.len() == 0 {
        Seq::empty()
    } else {
        let rest = spot_listings_of(rows.drop_last());
        match rows.last().spot {
            Some(s) => rest.push((chunk_of_cell(WorldPos(rows.last().x, rows.last().y)), s.entity)),
            None => rest,
        }
    }
}

/// The bot views the rows add, in order.
pub open spec fn spot_views_of_rows(rows: Seq<LoadedBuilding>) -> Seq<(ChunkPos, BotSpotView)>
    decreases rows.len(),
{
    if rows.len() == 0 {
        Seq::empty()
    } else {
        let rest = spot_views_of_rows(rows.drop_last());
        let r = rows.last();
        match r.spot {
            Some(s) => rest.push(
                (
                    chunk_of_cell(WorldPos(r.x, r.y)),
                    BotSpotView { bot_id: bot_id_of(s.owner) as i32, x: r.x, y: r.y, dir: 0, clan_id: s.clan_id },
                ),
            ),
            None => rest,
        }
    }
}

/// The crafting completions the rows schedule, in order.
pub open spec fn crafting_of(rows: Seq<LoadedBuilding>) -> Seq<CraftingDue>
    decreases rows.len(),
{
    if rows.len() == 0 {
        Seq::empty()
    } else {
        let rest = crafting_of(rows.drop_last());
        match rows.last().craft_end_ts {
            Some(ts) => if ts > 0 {
                rest.push(CraftingDue { entity: rows.last().entity, end_ts: ts })
            } else {
                rest
            },
            None => rest,
        }
    }
}

/// How many rows are spot buildings.
pub open spec fn spot_count(rows: Seq<LoadedBuilding>) -> nat
    decreases rows.len(),
{
    if rows.len() == 0 {
        0
    } else {
        spot_count(rows.drop_last()) + if rows.last().spot is Some {
            1nat
        } else {
            0nat
        }
    }
}

/// The rows can be registered: origins and cells of spots are on the map,
/// and no spot belongs to the owner id whose bot id has no negation.
pub open spec fn loadable(rows: Seq<LoadedBuilding>) -> bool {
    forall|i: int| 0 <= i < rows.len() ==> {
        &&& (#[trigger] rows[i]).x >= 0
        &&& rows[i].y >= 0
        &&& (rows[i].spot matches Some(s) ==> s.owner.0 != i32::MIN)
    }
}

/// Registers the stored buildings, in order, in the building index; the
/// bot spot of each spot building in the bot-spot index; and the
/// completion of each unfinished crafting. Returns how many spots it
/// registered.
pub fn load_buildings(
    rows: &Vec<LoadedBuilding>,
    index: &mut BuildingIndex,
    spots: &mut BotSpotIndex,
    crafting: &mut CraftingDueSchedule,
) -> (r: u64)
    requires
        old(index).wf(),
        old(spots).wf(),
        old(crafting).wf(),
        loadable(rows@),
    ensures
        final(index).wf(),
        final(spots).wf(),
        final(crafting).wf(),
        forall|p: WorldPos| #[trigger] entity_at_spec(final(index).origins(), p) == loaded_entity_at(
            entity_at_spec(old(index).origins(), p),
            rows@,
            p,
        ),
        final(index).listings() == old(index).listings() + building_listings(rows@),
        forall|o: PlayerId| #[trigger] spot_of(final(spots).owner_entries(), o) == loaded_spot_of(
            spot_of(old(spots).owner_entries(), o),
            rows@,
            o,
        ),
        final(spots).spot_listings() == old(spots).spot_listings() + spot_listings_of(rows@),
        final(spots).view_listings() == old(spots).view_listings() + spot_views_of_rows(rows@),
        final(crafting).pending().to_multiset() == old(crafting).pending().to_multiset().add(
            crafting_of(rows@).to_multiset(),
        ),
        r == spot_count(rows@),
{
    let ghost index0 = *index;
    let ghost spots0 = *spots;
    let ghost crafting0 = *crafting;
    let mut count: u64 = 0;
    let mut i: usize = 0;
    proof {
        let none = crafting_of(rows@.take(0));
        assert(none =~= Seq::<CraftingDue>::empty());
        vstd::seq_lib::to_multiset_len(none);
        vstd::multiset::lemma_multiset_empty_len(none.to_multiset());
        assert(crafting0.pending().to_multiset().add(none.to_multiset()) =~= crafting0.pending().to_multiset());
    }
    while i < rows.len()
        invariant
            i <= rows@.len(),
            loadable(rows@),
            index.wf(),
            spots.wf(),
            crafting.wf(),
            forall|p: WorldPos| #[trigger] entity_at_spec(index.origins(), p) == loaded_entity_at(
                entity_at_spec(index0.origins(), p),
                rows@.take(i as int),
                p,
            ),
            index.listings() == index0.listings() + building_listings(rows@.take(i as int)),
            forall|o: PlayerId| #[trigger] spot_of(spots.owner_entries(), o) == loaded_spot_of(
                spot_of(spots0.owner_entries(), o),
                rows@.take(i as int),
                o,
            ),
            spots.spot_listings() == spots0.spot_listings() + spot_listings_of(rows@.take(i as int)),
            spots.view_listings() == spots0.view_listings() + spot_views_of_rows(rows@.take(i as int)),
            crafting.pending().to_multiset() == crafting0.pending().to_multiset().add(
                crafting_of(rows@.take(i as int)).to_multiset(),
            ),
            count == spot_count(rows@.take(i as int)),
            count <= i,
        decreases rows@.len() - i,
    {
        let row = rows[i];
        let ghost done = rows@.take(i as int);
        let ghost next = rows@.take(i + 1);
        proof {
            assert(next.drop_last() == done);
            assert(next.last() == row);
            assert(rows@[i as int] == row);
        }
        let ghost idx_before = *index;
        index.register_building_entity(row.x, row.y, row.entity);
        proof {
            assert forall|p: WorldPos| #[trigger] entity_at_spec(index.origins(), p) == loaded_entity_at(
                entity_at_spec(index0.origins(), p),
                next,
                p,
            ) by {
                if p != WorldPos(row.x, row.y) {
                    assert(entity_at_spec(index.origins(), p) == entity_at_spec(idx_before.origins(), p));
                }
            }
            assert(index.listings() == index0.listings() + building_listings(next)) by {
                assert(building_listings(next) == building_listings(done).push(
                    (chunk_of_cell(WorldPos(row.x, row.y)), row.entity),
                ));
                assert(index0.listings() + building_listings(done).push((chunk_of_cell(WorldPos(row.x, row.y)), row.entity))
                    == (index0.listings() + building_listings(done)).push((chunk_of_cell(WorldPos(row.x, row.y)), row.entity)));
            }
        }
        let ghost spots_before = *spots;
        match row.spot {
            Some(s) => {
                spots.register_botspot_entity(s.owner, row.x, row.y, s.clan_id, s.entity);
                count = count + 1;
                proof {
                    assert forall|o: PlayerId| #[trigger] spot_of(spots.owner_entries(), o) == loaded_spot_of(
                        spot_of(spots0.owner_entries(), o),
                        next,
                        o,
                    ) by {
                        if o != s.owner {
                            assert(spot_of(spots.owner_entries(), o) == spot_of(spots_before.owner_entries(), o));
                        }
                    }
                    let l = (chunk_of_cell(WorldPos(row.x, row.y)), s.entity);
                    assert(spot_listings_of(next) == spot_listings_of(done).push(l));
                    assert(spots0.spot_listings() + spot_listings_of(done).push(l) == (spots0.spot_listings()
                        + spot_listings_of(done)).push(l));
                    let v = (
                        chunk_of_cell(WorldPos(row.x, row.y)),
                        BotSpotView { bot_id: bot_id_of(s.owner) as i32, x: row.x, y: row.y, dir: 0, clan_id: s.clan_id },
                    );
                    assert(spot_views_of_rows(next) == spot_views_of_rows(done).push(v));
                    assert(spots0.view_listings() + spot_views_of_rows(done).push(v) == (spots0.view_listings()
                        + spot_views_of_rows(done)).push(v));
                }
            },
            None => {
                proof {
                    assert(spot_listings_of(next) == spot_listings_of(done));
                    assert(spot_views_of_rows(next) == spot_views_of_rows(done));
                }
            },
        }
        let ghost craft_before = crafting.pending();
        match row.craft_end_ts {
            Some(ts) => {
                crafting.schedule(row.entity, ts);
                proof {
                    if ts > 0 {
                        let d = CraftingDue { entity: row.entity, end_ts: ts };
                        let k = choose|k: int| 0 <= k <= craft_before.len() && crafting.pending() == craft_before.insert(k, d);
                        vstd::seq_lib::to_multiset_insert(craft_before, k, d);
                        vstd::seq_lib::to_multiset_build(crafting_of(done), d);
                        assert(crafting_of(next) == crafting_of(done).push(d));
                        assert(crafting.pending().to_multiset() =~= crafting0.pending().to_multiset().add(
                            crafting_of(next).to_multiset(),
                        ));
                    } else {
                        assert(crafting_of(next) == crafting_of(done));
                    }
                }
            },
            None => {
                proof {
                    assert(crafting_of(next) == crafting_of(done));
                }
            },
        }
        i = i + 1;
    }
    proof {
        assert(rows@.take(rows@.len() as int) == rows@);
    }
    count
}

} // verus!
