use openmines_server::building_index::BuildingIndex;
use openmines_server::gun_batch::{fill_gun_candidate_batch, GunTarget};
use openmines_server::ids::EntityId;

#[test]
fn gun_batch_lists_each_nearby_gun_once_in_entity_order() {
    let mut idx = BuildingIndex::new();
    idx.register_building_entity(10, 10, EntityId(9)); // chunk (0, 0)
    idx.register_building_entity(40, 10, EntityId(4)); // chunk (1, 0)
    idx.register_building_entity(200, 200, EntityId(1)); // chunk (6, 6), out of reach
    idx.register_building_entity(70, 40, EntityId(6)); // chunk (2, 1)
    let targets = vec![
        GunTarget { entity: EntityId(30), x: 5, y: 5 },   // chunk (0, 0): sees (0..=1, 0..=1)
        GunTarget { entity: EntityId(20), x: 40, y: 40 }, // chunk (1, 1): sees (0..=2, 0..=2)
    ];
    let batch = fill_gun_candidate_batch(&targets, &idx);
    assert_eq!(batch.guns, vec![EntityId(4), EntityId(6), EntityId(9)]);
    assert_eq!(batch.players, vec![EntityId(20), EntityId(30)]);
}

#[test]
fn gun_batch_is_empty_without_players() {
    let mut idx = BuildingIndex::new();
    idx.register_building_entity(10, 10, EntityId(9));
    let batch = fill_gun_candidate_batch(&vec![], &idx);
    assert!(batch.guns.is_empty());
    assert!(batch.players.is_empty());
}
