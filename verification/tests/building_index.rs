use openmines_server::building_index::BuildingIndex;
use openmines_server::dirty::{DirtyBuildings, DirtyPlayers};
use openmines_server::ids::{EntityId, SessionId};

#[test]
fn register_makes_entity_found_at_origin_and_in_its_chunk() {
    let mut idx = BuildingIndex::new();
    idx.register_building_entity(40, 70, EntityId(7));
    assert_eq!(idx.building_entity_at(40, 70), Some(EntityId(7)));
    assert!(idx.has_building_origin(40, 70));
    assert!(!idx.has_building_origin(41, 70));
    assert_eq!(idx.building_entities_in_chunk_snapshot(1, 2), vec![EntityId(7)]);
    assert!(idx.building_entities_in_chunk_snapshot(0, 0).is_empty());
    assert_eq!(idx.building_entities_snapshot(), vec![EntityId(7)]);
}

#[test]
fn chunk_lists_keep_registration_order() {
    let mut idx = BuildingIndex::new();
    idx.register_building_entity(1, 1, EntityId(3));
    idx.register_building_entity(33, 1, EntityId(4));
    idx.register_building_entity(5, 31, EntityId(5));
    assert_eq!(idx.building_entities_in_chunk_snapshot(0, 0), vec![EntityId(3), EntityId(5)]);
    assert_eq!(idx.building_entities_in_chunk_snapshot(1, 0), vec![EntityId(4)]);
}

#[test]
fn remove_returns_entity_and_clears_both_indexes() {
    let mut idx = BuildingIndex::new();
    idx.register_building_entity(10, 10, EntityId(1));
    idx.register_building_entity(12, 10, EntityId(2));
    assert_eq!(idx.remove_building_entity(10, 10), Some(EntityId(1)));
    assert_eq!(idx.building_entity_at(10, 10), None);
    assert_eq!(idx.building_entity_at(12, 10), Some(EntityId(2)));
    assert_eq!(idx.building_entities_in_chunk_snapshot(0, 0), vec![EntityId(2)]);
    assert_eq!(idx.remove_building_entity(10, 10), None);
}

#[test]
fn remove_if_only_removes_the_expected_entity() {
    let mut idx = BuildingIndex::new();
    idx.register_building_entity(10, 10, EntityId(1));
    assert_eq!(idx.remove_building_entity_if(10, 10, EntityId(9)), None);
    assert_eq!(idx.building_entity_at(10, 10), Some(EntityId(1)));
    assert_eq!(idx.remove_building_entity_if(10, 10, EntityId(1)), Some(EntityId(1)));
    assert!(!idx.has_building_origin(10, 10));
    assert!(idx.building_entities_in_chunk_snapshot(0, 0).is_empty());
}

#[test]
fn move_carries_entity_to_new_origin_and_chunk() {
    let mut idx = BuildingIndex::new();
    idx.register_building_entity(10, 10, EntityId(1));
    idx.move_building_entity(10, 10, 70, 10);
    assert_eq!(idx.building_entity_at(10, 10), None);
    assert_eq!(idx.building_entity_at(70, 10), Some(EntityId(1)));
    assert!(idx.building_entities_in_chunk_snapshot(0, 0).is_empty());
    assert_eq!(idx.building_entities_in_chunk_snapshot(2, 0), vec![EntityId(1)]);
    idx.move_building_entity(5, 5, 6, 6);
    assert_eq!(idx.building_entities_snapshot(), vec![EntityId(1)]);
}

#[test]
fn dirty_buildings_are_taken_once_and_requeued() {
    let mut dirty = DirtyBuildings::new();
    assert!(dirty.mark_building_dirty(EntityId(1), true));
    assert!(dirty.mark_building_dirty(EntityId(1), true));
    assert!(!dirty.mark_building_dirty(EntityId(2), false));
    assert!(dirty.mark_building_dirty(EntityId(3), true));
    let mut taken = dirty.take_dirty_building_entities();
    taken.sort_by_key(|e| e.0);
    assert_eq!(taken, vec![EntityId(1), EntityId(3)]);
    assert!(dirty.take_dirty_building_entities().is_empty());
    dirty.requeue_dirty_building_entities(vec![EntityId(3), EntityId(4), EntityId(3)]);
    let mut again = dirty.take_dirty_building_entities();
    again.sort_by_key(|e| e.0);
    assert_eq!(again, vec![EntityId(3), EntityId(4)]);
}

#[test]
fn dirty_players_are_taken_once_per_session_and_requeued() {
    let mut dirty = DirtyPlayers::new();
    dirty.mark_player_dirty(EntityId(1), SessionId(5));
    dirty.mark_player_dirty(EntityId(1), SessionId(5));
    dirty.mark_player_dirty(EntityId(1), SessionId(6));
    let mut taken = dirty.take_dirty_player_entities();
    taken.sort_by_key(|e| (e.0 .0, e.1 .0));
    assert_eq!(taken, vec![(EntityId(1), SessionId(5)), (EntityId(1), SessionId(6))]);
    assert!(dirty.take_dirty_player_entities().is_empty());
    dirty.requeue_dirty_player_entities(vec![(EntityId(2), SessionId(1)), (EntityId(2), SessionId(1))]);
    assert_eq!(dirty.take_dirty_player_entities(), vec![(EntityId(2), SessionId(1))]);
}
