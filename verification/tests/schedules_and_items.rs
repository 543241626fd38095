use openmines_server::box_pickup::{BoxPickupIntent, BoxPickupQueue, BoxPickupSource};
use openmines_server::due::{CraftingDue, CraftingDueSchedule, ProgrammatorDueSchedule};
use openmines_server::ids::{EntityId, PlayerId, WorldPos};
use openmines_server::packs::charge_to_crys;
use openmines_server::skills::{choose_admin_skill_slot, SkillSlot, SkillSlots};

#[test]
fn programmator_steps_come_earliest_first_up_to_the_limit() {
    let mut s = ProgrammatorDueSchedule::new();
    s.schedule(EntityId(1), 30);
    s.schedule(EntityId(2), 10);
    s.schedule(EntityId(3), 20);
    assert!(!s.is_due(9));
    assert!(s.is_due(10));
    assert_eq!(s.next_due_at(), Some(10));
    assert_eq!(s.pop_due(25, 5), vec![(EntityId(2), 10), (EntityId(3), 20)]);
    assert_eq!(s.pop_due(100, 0), vec![]);
    assert_eq!(s.pop_due(100, 1), vec![(EntityId(1), 30)]);
    assert_eq!(s.next_due_at(), None);
}

#[test]
fn crafting_ignores_unscheduled_end_times() {
    let mut s = CraftingDueSchedule::new();
    s.schedule(EntityId(1), 0);
    s.schedule(EntityId(2), -5);
    s.schedule(EntityId(3), 50);
    assert_eq!(s.len(), 1);
    assert_eq!(s.next_due_ts(), Some(50));
    assert!(!s.is_due(49));
    assert_eq!(s.pop_due(50, 10), vec![CraftingDue { entity: EntityId(3), end_ts: 50 }]);
    assert_eq!(s.len(), 0);
}

#[test]
fn box_pickups_keep_one_intent_per_player() {
    let intent = |p: i32, x: i32| BoxPickupIntent {
        player_id: PlayerId(p),
        player_pos: WorldPos(x, 0),
        box_pos: WorldPos(x, 1),
        source: BoxPickupSource::Standing,
    };
    let mut q = BoxPickupQueue::new();
    assert!(q.is_empty());
    q.push(intent(1, 10));
    q.push(intent(2, 20));
    q.push(intent(1, 30));
    let drained = q.drain();
    assert_eq!(drained, vec![intent(1, 10), intent(2, 20)]);
    assert!(q.is_empty());
    q.push(intent(1, 30));
    assert_eq!(q.drain(), vec![intent(1, 30)]);
}

#[test]
fn destroyed_buildings_leave_their_positive_charge() {
    assert_eq!(charge_to_crys(-3), 0);
    assert_eq!(charge_to_crys(0), 0);
    assert_eq!(charge_to_crys(42), 42);
}

fn slots(taken: &[(i32, &str)], total: i32) -> SkillSlots {
    SkillSlots {
        skills: taken
            .iter()
            .map(|(slot, code)| SkillSlot { slot: *slot, code: (*code).to_owned(), level: 1 })
            .collect(),
        total_slots: total,
    }
}

#[test]
fn admin_skill_slot_prefers_explicit_then_existing_then_lowest_free() {
    let s = slots(&[(0, "M"), (1, "D"), (3, "L")], 5);
    assert_eq!(choose_admin_skill_slot(&s, "M", Some(4)), Some(4));
    assert_eq!(choose_admin_skill_slot(&s, "L", None), Some(3));
    assert_eq!(choose_admin_skill_slot(&s, "X", None), Some(2));
    let full = slots(&[(0, "M"), (1, "D")], 2);
    assert_eq!(choose_admin_skill_slot(&full, "X", None), None);
}

use openmines_server::ingress::{CommandIngressClass, CommandIngressStats, CommandRoundRobin};

#[test]
fn command_receivers_rotate_ready_workload_classes() {
    let mut rr = CommandRoundRobin::new();
    let all = [true, true, true];
    assert_eq!(rr.pick(all), Some(CommandIngressClass::Lifecycle));
    assert_eq!(rr.pick(all), Some(CommandIngressClass::Gameplay));
    assert_eq!(rr.pick(all), Some(CommandIngressClass::Internal));
    assert_eq!(rr.pick(all), Some(CommandIngressClass::Lifecycle));
    assert_eq!(rr.pick([false, false, true]), Some(CommandIngressClass::Internal));
    assert_eq!(rr.pick([false, false, false]), None);
    assert_eq!(rr.pick([true, false, false]), Some(CommandIngressClass::Lifecycle));
}

#[test]
fn ingress_stats_track_depth_high_water_and_oldest_waiting() {
    let mut s = CommandIngressStats::new();
    assert_eq!(s.allocate_sequence(), 0);
    assert_eq!(s.allocate_sequence(), 1);
    let g = s.record_enqueued(CommandIngressClass::Gameplay, 100);
    assert_eq!((g.depth, g.class_depth, g.high_water, g.oldest), (1, 1, 1, Some(100)));
    let g = s.record_enqueued(CommandIngressClass::Gameplay, 150);
    assert_eq!((g.depth, g.class_depth, g.high_water, g.oldest), (2, 2, 2, Some(100)));
    let g = s.record_enqueued(CommandIngressClass::Lifecycle, 160);
    assert_eq!((g.depth, g.class_depth, g.high_water), (3, 1, 3));
    assert_eq!(s.oldest_age(CommandIngressClass::Gameplay, 400), 300);
    let g = s.record_dequeued(CommandIngressClass::Gameplay);
    assert_eq!((g.depth, g.class_depth, g.high_water, g.oldest), (2, 1, 3, Some(150)));
    assert_eq!(s.oldest_age(CommandIngressClass::Internal, 400), 0);
    assert_eq!(s.oldest_age(CommandIngressClass::Gameplay, 100), 0);
}

use openmines_server::charge_fill::{
    fill_request_for_button, gun_fill_buttons, gun_fill_values, resp_fill_values, plan_charge_fill, program_gun_fill,
    resp_fill_buttons, ChargeFill, FillButtons, FillRequest,
};
use openmines_server::clans::clan_rank_for;

#[test]
fn fill_buttons_map_to_requests() {
    assert_eq!(fill_request_for_button("100"), Some(FillRequest::Fixed(100)));
    assert_eq!(fill_request_for_button("1000"), Some(FillRequest::Fixed(1000)));
    assert_eq!(fill_request_for_button("max"), Some(FillRequest::Max));
    assert_eq!(fill_request_for_button("10"), None);
}

#[test]
fn charge_fill_takes_what_is_asked_up_to_what_the_player_has() {
    assert_eq!(
        plan_charge_fill(0, 1000, FillRequest::Fixed(100), 500),
        Some(ChargeFill { taken: 100, new_charge: 100 })
    );
    assert_eq!(
        plan_charge_fill(900, 1000, FillRequest::Fixed(1000), 500),
        Some(ChargeFill { taken: 500, new_charge: 1000 })
    );
    assert_eq!(
        plan_charge_fill(400, 1000, FillRequest::Max, 10_000),
        Some(ChargeFill { taken: 600, new_charge: 1000 })
    );
    assert_eq!(plan_charge_fill(1000, 1000, FillRequest::Max, 10), None);
    assert_eq!(plan_charge_fill(0, 1000, FillRequest::Fixed(100), 0), None);
}

#[test]
fn program_gun_fill_adds_a_twentieth_at_least_ten() {
    assert_eq!(program_gun_fill(0, 1000), 50);
    assert_eq!(program_gun_fill(0, 100), 10);
    assert_eq!(program_gun_fill(995, 1000), 1000);
}

#[test]
fn clan_rank_is_that_of_the_member_entry() {
    let members = vec![(1, "a".to_owned(), 3), (2, "b".to_owned(), 1)];
    assert_eq!(clan_rank_for(&members, openmines_server::ids::PlayerId(2)), Some(1));
    assert_eq!(clan_rank_for(&members, openmines_server::ids::PlayerId(5)), None);
}

use openmines_server::chunks::{block_chunk, block_pos_from_cell};
use openmines_server::footprint::{
    check_moved_footprint, check_new_building_area, footprint_has_cell, FootprintCell, FootprintError,
};

fn cell(in_world: bool, empty: bool, covered_by: Option<(i32, i32)>, part_of_old: bool) -> FootprintCell {
    FootprintCell { in_world, empty, covered_by, part_of_old }
}

#[test]
fn new_buildings_need_empty_free_cells() {
    let ok = cell(true, true, None, false);
    assert_eq!(check_new_building_area(&vec![ok, ok]), Ok(()));
    assert_eq!(check_new_building_area(&vec![]), Ok(()));
    assert_eq!(
        check_new_building_area(&vec![ok, cell(true, true, Some((1, 1)), false), cell(false, true, None, false)]),
        Err(FootprintError::Taken)
    );
    assert_eq!(
        check_new_building_area(&vec![cell(true, false, None, false), cell(true, true, Some((1, 1)), false)]),
        Err(FootprintError::NoRoom)
    );
    assert_eq!(FootprintError::NoRoom.message(), "Нет места");
    assert_eq!(FootprintError::Taken.message(), "Место занято");
}

#[test]
fn moved_buildings_may_reuse_their_own_cells() {
    let own = cell(true, false, Some((5, 5)), true);
    assert_eq!(check_moved_footprint(&vec![own], (5, 5)), Ok(()));
    assert_eq!(
        check_moved_footprint(&vec![cell(true, true, Some((6, 6)), false)], (5, 5)),
        Err(FootprintError::Taken)
    );
    assert_eq!(
        check_moved_footprint(&vec![cell(true, false, None, false)], (5, 5)),
        Err(FootprintError::NoRoom)
    );
    assert_eq!(check_moved_footprint(&vec![cell(false, true, None, true)], (5, 5)), Err(FootprintError::NoRoom));
}

#[test]
fn footprint_cells_are_offsets_from_the_origin() {
    let cells = vec![(0, 0), (1, 0), (0, -1)];
    assert!(footprint_has_cell(10, 10, &cells, 11, 10));
    assert!(footprint_has_cell(10, 10, &cells, 10, 9));
    assert!(!footprint_has_cell(10, 10, &cells, 11, 9));
}

#[test]
fn block_pos_keys_decode_back_into_their_chunk() {
    let w = 260;
    let bp = block_pos_from_cell(33, 65, w).unwrap();
    assert_eq!(block_chunk(bp, w), Some((1, 2)));
    assert_eq!(block_chunk(0, w), Some((0, 0)));
    assert_eq!(block_chunk(-1, w), None);
    assert_eq!(block_chunk(7, 0), Some((0, 7)));
}

#[test]
fn fill_buttons_follow_the_crystals_held() {
    assert_eq!(resp_fill_buttons(0), FillButtons { small: false, large: false, max: false });
    assert_eq!(resp_fill_buttons(99), FillButtons { small: false, large: false, max: true });
    assert_eq!(resp_fill_buttons(100), FillButtons { small: true, large: false, max: true });
    assert_eq!(resp_fill_buttons(1000), FillButtons { small: true, large: true, max: true });
    assert_eq!(gun_fill_buttons(0), FillButtons { small: false, large: false, max: true });
    assert_eq!(gun_fill_buttons(999), FillButtons { small: true, large: false, max: true });
    assert_eq!(gun_fill_buttons(1000), FillButtons { small: true, large: true, max: true });
}

#[test]
fn fill_rows_list_percent_charge_crystal_and_active_buttons() {
    assert_eq!(
        resp_fill_values(50, 500, 1000, 150, 7, -3),
        "50#500/1000#1#resp_fill:100:7:-3##resp_fill:max:7:-3"
    );
    assert_eq!(resp_fill_values(0, 0, 0, 0, 1, 2), "0#0/0#1###");
    assert_eq!(
        gun_fill_values(100, 10, 10, 5000, 4, 5),
        "100#10/10#5#gun_fill:100:4:5#gun_fill:1000:4:5#gun_fill:max:4:5"
    );
}
