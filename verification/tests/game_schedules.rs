use openmines_server::chunks::block_pos_from_cell;
use openmines_server::due::{BotsRenderDue, BotsRenderSchedule, HazardDueSchedule};
use openmines_server::ids::{EntityId, PlayerId};
use openmines_server::packs::{pack_overlay_off, BuildingCrafting, PackType};

#[test]
fn block_pos_is_chunk_based_not_cell_based() {
    let w = 260;
    assert_eq!(block_pos_from_cell(33, 65, w), Some(521));
    assert_eq!(block_pos_from_cell(64, 64, w), block_pos_from_cell(95, 95, w));
    assert_eq!(block_pos_from_cell(0, 0, w), Some(0));
    assert_eq!(block_pos_from_cell(32, 0, w), Some(1));
    assert_eq!(block_pos_from_cell(0, 32, w), Some(w));
}

#[test]
fn pack_overlay_off_keeps_charge_based_packs_binary() {
    assert_eq!(pack_overlay_off(PackType::Teleport, 0, None, 100, None), 0);
    assert_eq!(pack_overlay_off(PackType::Teleport, 1, None, 100, None), 1);
    assert_eq!(pack_overlay_off(PackType::Gun, 100, None, 100, None), 1);
}

#[test]
fn pack_overlay_off_encodes_crafter_recipe_and_ready_state() {
    let craft = BuildingCrafting {
        recipe_id: Some(2),
        num: 1,
        end_ts: 1_000,
        ready: false,
    };
    // Recipe 2 produces item 5.
    assert_eq!(pack_overlay_off(PackType::Craft, 0, Some(&craft), 999, Some(5)), 6);
    assert_eq!(pack_overlay_off(PackType::Craft, 0, Some(&craft), 1_000, Some(5)), 56);
}

#[test]
fn due_heap_orders_deadlines_and_does_not_run_early() {
    let now: u64 = 1_000;
    let mut schedule = BotsRenderSchedule::new();
    schedule.schedule(BotsRenderDue {
        due_at: now + 20,
        player_id: PlayerId(2),
        session_token: 20,
    });
    schedule.schedule(BotsRenderDue {
        due_at: now + 10,
        player_id: PlayerId(1),
        session_token: 10,
    });

    assert!(schedule.pop_due(now).is_none());
    assert_eq!(schedule.pop_due(now + 10).unwrap().player_id, PlayerId(1));
    assert!(schedule.pop_due(now + 19).is_none());
    assert_eq!(schedule.pop_due(now + 20).unwrap().player_id, PlayerId(2));
}

#[test]
fn keeps_one_earliest_deadline_per_entity() {
    let base: u64 = 5_000;
    let entity = EntityId(1);
    let mut schedule = HazardDueSchedule::new();

    schedule.schedule(entity, base + 20);
    schedule.schedule(entity, base + 10);
    schedule.schedule(entity, base + 30);

    assert_eq!(schedule.next_due_at(), Some(base + 10));
    assert_eq!(schedule.pop_due(base + 10, 1), vec![(entity, base + 10)]);
    assert!(schedule.next_due_at().is_none());
}
