use openmines_server::botspot_index::{BotSpotIndex, BotSpotView};
use openmines_server::building_index::BuildingIndex;
use openmines_server::due::CraftingDueSchedule;
use openmines_server::ids::{EntityId, PlayerId};
use openmines_server::world_load::{load_buildings, LoadedBuilding, LoadedSpot};

#[test]
fn loading_registers_buildings_spots_and_unfinished_crafting() {
    let rows = vec![
        LoadedBuilding { x: 10, y: 10, entity: EntityId(1), craft_end_ts: None, spot: None },
        LoadedBuilding {
            x: 40,
            y: 10,
            entity: EntityId(2),
            craft_end_ts: None,
            spot: Some(LoadedSpot { owner: PlayerId(8), clan_id: 2, entity: EntityId(20) }),
        },
        LoadedBuilding { x: 70, y: 70, entity: EntityId(3), craft_end_ts: Some(500), spot: None },
        LoadedBuilding { x: 71, y: 70, entity: EntityId(4), craft_end_ts: Some(0), spot: None },
    ];
    let mut index = BuildingIndex::new();
    let mut spots = BotSpotIndex::new();
    let mut crafting = CraftingDueSchedule::new();
    let n = load_buildings(&rows, &mut index, &mut spots, &mut crafting);
    assert_eq!(n, 1);
    assert_eq!(index.building_entity_at(10, 10), Some(EntityId(1)));
    assert_eq!(index.building_entity_at(40, 10), Some(EntityId(2)));
    assert_eq!(index.building_entities_in_chunk_snapshot(2, 2), vec![EntityId(3), EntityId(4)]);
    assert_eq!(spots.botspot_of(PlayerId(8)), Some(EntityId(20)));
    assert_eq!(
        spots.bots_render_botspots_in_chunk(1, 0),
        vec![BotSpotView { bot_id: -8, x: 40, y: 10, dir: 0, clan_id: 2 }]
    );
    assert_eq!(crafting.len(), 1);
    assert_eq!(crafting.next_due_ts(), Some(500));
}
