use openmines_server::clans::{
    clan_create_start, clan_info_options, clan_kick_decision, clan_leave_decision, dissolved_members,
    invite_candidates, join_request_decision, member_actions, refund_clan_credits, ClanCreateStart,
    ClanInfoOptions, ClanKickRefusal, ClanLeave, ClanRank, JoinRequest, MemberActions,
};
use openmines_server::ids::PlayerId;
use openmines_server::pack_lookup::{
    access_gun, consumable_packs_in_block, find_pack_covering, pack_block_pos, NearbyPack,
};
use openmines_server::packs::PackType;
use openmines_server::placement::{
    building_extra_for_pack_type, BuildingConfig, BuildingExtraError,
    bound_to_resp, debit_placement, destroy_box_crystals, pack_type_from_code, placement_origin,
    placement_precheck, refund_placement, removal_check, shpaak_drop, shpaak_drop_for_roll, PlacementDebit,
    PlacementRefusal, RemovalRefusal,
};
use openmines_server::player_init::{
    clan_icon, connect_plan, disconnect_plan, init_plan, initial_health, ConnectPlan,
    DisconnectPlan, InitFacts, InitPacket,
};
use openmines_server::resp_save::{
    apply_resp_save, resp_save_ready, withdraw_profit, RespSaveFields, RespSettings,
};

#[test]
fn clan_create_toctou_prevention_does_not_go_negative() {
    assert_eq!(clan_create_start(false, true, 999), ClanCreateStart::InsufficientFunds);
    assert_eq!(
        clan_create_start(false, true, 999).message(),
        "Недостаточно кредитов (нужно 1000)"
    );
    assert_eq!(clan_create_start(false, true, 1500), ClanCreateStart::Debit { creds: 500 });
    assert_eq!(clan_create_start(true, true, 5000), ClanCreateStart::AlreadyInClan);
    assert_eq!(clan_create_start(false, false, 5000).message(), "Состояние игрока недоступно.");
    assert_eq!(refund_clan_credits(500), 1500);
}

#[test]
fn owner_cannot_dissolve_a_populated_clan() {
    let r = clan_leave_decision(true, 2, true, true);
    assert_eq!(r, ClanLeave::MustHandOver);
    assert!(r.message().contains("Сначала передайте лидерство"));
    assert_eq!(clan_leave_decision(true, 1, false, true), ClanLeave::StateError);
    assert_eq!(clan_leave_decision(true, 1, true, false), ClanLeave::Dissolve);
    assert_eq!(clan_leave_decision(false, 5, false, false), ClanLeave::StateError);
    assert_eq!(clan_leave_decision(false, 5, false, true), ClanLeave::Leave);
}

#[test]
fn dissolving_clears_only_that_clans_members() {
    let active = [(1, Some(7)), (2, None), (3, Some(8)), (4, Some(7))];
    assert_eq!(dissolved_members(&active, 7), vec![1, 4]);
    assert_eq!(dissolved_members(&active, 9), Vec::<i32>::new());
}

#[test]
fn ranks_are_ordered() {
    assert!(ClanRank::Leader.at_least(ClanRank::Officer));
    assert!(ClanRank::Officer.at_least(ClanRank::Officer));
    assert!(!ClanRank::Member.at_least(ClanRank::Officer));
    assert_eq!(ClanRank::NoRank.rank_level(), 0);
    assert_eq!(ClanRank::Leader.rank_level(), 3);
}

#[test]
fn clan_window_entries_follow_rank_and_ownership() {
    assert_eq!(
        clan_info_options(ClanRank::Member, false, 3),
        ClanInfoOptions { manage: false, leave: true }
    );
    assert_eq!(
        clan_info_options(ClanRank::Leader, true, 3),
        ClanInfoOptions { manage: true, leave: false }
    );
    assert_eq!(
        clan_info_options(ClanRank::Leader, true, 1),
        ClanInfoOptions { manage: true, leave: true }
    );
}

#[test]
fn only_the_leader_promotes_and_only_higher_ranks_exclude() {
    let members = [(1, ClanRank::Leader), (2, ClanRank::Officer), (3, ClanRank::Member)];
    let leader = member_actions(PlayerId(1), ClanRank::Leader, &members);
    assert_eq!(
        leader,
        vec![
            MemberActions { target: 1, promote: false, kick: false },
            MemberActions { target: 2, promote: false, kick: true },
            MemberActions { target: 3, promote: true, kick: true },
        ]
    );
    let officer = member_actions(PlayerId(2), ClanRank::Officer, &members);
    assert_eq!(officer[2], MemberActions { target: 3, promote: false, kick: true });
    assert_eq!(officer[0], MemberActions { target: 1, promote: false, kick: false });
}

#[test]
fn clan_kick_rules() {
    assert_eq!(clan_kick_decision(ClanRank::Leader, None), Err(ClanKickRefusal::NotInClan));
    assert_eq!(
        clan_kick_decision(ClanRank::Member, Some(ClanRank::Member)),
        Err(ClanKickRefusal::NoRights)
    );
    assert_eq!(ClanKickRefusal::NoRights.message(), "Нет прав");
    assert_eq!(
        clan_kick_decision(ClanRank::Leader, Some(ClanRank::Leader)),
        Err(ClanKickRefusal::Leader)
    );
    assert_eq!(clan_kick_decision(ClanRank::Officer, Some(ClanRank::Member)), Ok(()));
    assert_eq!(clan_kick_decision(ClanRank::Leader, Some(ClanRank::Officer)), Ok(()));
}

#[test]
fn join_requests_are_not_repeated() {
    let pending = vec![(5, "five".to_string()), (9, "nine".to_string())];
    assert_eq!(join_request_decision(true, &pending, PlayerId(1)), JoinRequest::AlreadyInClan);
    assert_eq!(join_request_decision(false, &pending, PlayerId(9)), JoinRequest::AlreadyRequested);
    assert_eq!(join_request_decision(false, &pending, PlayerId(1)), JoinRequest::Submit);
}

#[test]
fn the_invitation_list_skips_clan_members_and_self_and_stops_at_twenty() {
    let online: Vec<(i32, bool)> = (1..=30).map(|p| (p, p % 3 != 0)).collect();
    let r = invite_candidates(&online, PlayerId(1));
    assert_eq!(r.len(), 19);
    assert_eq!(r[0], 2);
    assert!(!r.contains(&1) && !r.contains(&3));
    let many: Vec<(i32, bool)> = (1..=40).map(|p| (p, true)).collect();
    let r = invite_candidates(&many, PlayerId(100));
    assert_eq!(r, (1..=20).collect::<Vec<i32>>());
}

fn pack(x: i32, y: i32, is_gun: bool, charge: i32, clan_id: i32) -> NearbyPack {
    NearbyPack {
        x,
        y,
        cells: vec![(0, 0), (1, 0), (0, 1), (1, 1)],
        is_gun,
        delete_pending: false,
        charge,
        clan_id,
    }
}

#[test]
fn a_cell_is_covered_by_the_first_building_that_has_it() {
    let packs = vec![pack(10, 10, false, 0, 0), pack(11, 11, false, 0, 0)];
    assert_eq!(find_pack_covering(&packs, 11, 11), Some((10, 10)));
    assert_eq!(find_pack_covering(&packs, 12, 12), Some((11, 11)));
    assert_eq!(find_pack_covering(&packs, 9, 9), None);
}

#[test]
fn gun_cover_needs_a_charged_enemy_gun_within_twenty_cells() {
    let enemy = pack(30, 0, true, 5, 2);
    assert_eq!(access_gun(&[enemy.clone()], 10, 0, 1), (false, true));
    assert_eq!(access_gun(&[enemy.clone()], 10, 0, 2), (true, true));
    assert_eq!(access_gun(&[pack(30, 0, true, 0, 2)], 10, 0, 1), (true, true));
    assert_eq!(access_gun(&[pack(32, 0, true, 5, 2)], 10, 0, 1), (true, false));
    assert_eq!(access_gun(&[pack(30, 0, false, 5, 2)], 10, 0, 1), (true, false));
    let mut pending = enemy;
    pending.delete_pending = true;
    assert_eq!(access_gun(&[pending], 10, 0, 1), (true, false));
    assert_eq!(access_gun(&[pack(22, 12, true, 5, 2)], 10, 0, 1), (false, true));
}

#[test]
fn consumable_packs_are_kept_by_chunk_block() {
    assert_eq!(pack_block_pos(40, 70, 128, 128, 4), Some(9));
    assert_eq!(pack_block_pos(-1, 70, 128, 128, 4), None);
    let packs = [(40, 70, 1, 0), (41, 71, 2, 1), (0, 0, 3, 0), (200, 0, 4, 0)];
    assert_eq!(consumable_packs_in_block(&packs, 9, 128, 128, 4), vec![(40, 70, 1, 0), (41, 71, 2, 1)]);
    assert_eq!(consumable_packs_in_block(&packs, 0, 128, 128, 4), vec![(0, 0, 3, 0)]);
}

#[test]
fn resp_save_applies_only_given_fields() {
    let cur = RespSettings { cost: 10, clanzone: 3, clan_id: 0 };
    let f = RespSaveFields { cost: None, clanzone: Some(9), clan_enabled: None };
    assert_eq!(apply_resp_save(f, cur, 7), (RespSettings { cost: 10, clanzone: 9, clan_id: 0 }, true));
    let f = RespSaveFields { cost: Some(50), clanzone: None, clan_enabled: Some(true) };
    assert_eq!(apply_resp_save(f, cur, 7), (RespSettings { cost: 50, clanzone: 3, clan_id: 7 }, true));
    let on = RespSettings { clan_id: 7, ..cur };
    let f = RespSaveFields { cost: None, clanzone: None, clan_enabled: Some(false) };
    assert_eq!(apply_resp_save(f, on, 7).0.clan_id, 0);
    let none = RespSaveFields { cost: None, clanzone: None, clan_enabled: None };
    assert_eq!(apply_resp_save(none, cur, 7), (cur, false));
    assert!(!resp_save_ready(f, true, false, true));
    assert!(resp_save_ready(f, false, true, true));
    assert!(!resp_save_ready(f, true, true, false));
}

#[test]
fn resp_profit_moves_all_money_to_the_owner() {
    let w = withdraw_profit(250, 1000);
    assert_eq!((w.amount, w.money), (250, 1250));
    let w = withdraw_profit(0, 1000);
    assert_eq!((w.amount, w.money), (0, 1000));
}

#[test]
fn building_menu_codes() {
    assert_eq!(pack_type_from_code("R"), Some(PackType::Resp));
    assert_eq!(pack_type_from_code("N"), Some(PackType::Gate));
    assert_eq!(pack_type_from_code("L"), Some(PackType::Storage));
    assert_eq!(pack_type_from_code("X"), None);
    assert_eq!(pack_type_from_code("RR"), None);
}

#[test]
fn placing_a_building_three_cells_ahead_and_paying_for_it() {
    assert_eq!(placement_origin(10, 10, 1, 0), (13, 10));
    assert_eq!(placement_origin(10, 10, 0, -1), (10, 7));
    assert_eq!(
        placement_precheck(PackType::Gate, true, 0),
        Err(PlacementRefusal::GateNeedsClan)
    );
    assert_eq!(PlacementRefusal::GateNeedsClan.message(), "Для ворот нужен клан");
    assert_eq!(placement_precheck(PackType::Gate, false, 4), Err(PlacementRefusal::StateError));
    assert_eq!(placement_precheck(PackType::Gun, true, 0), Ok(()));
    assert_eq!(
        debit_placement(PackType::Resp, 4999, 5000, 3),
        Err(PlacementRefusal::NotEnoughMoney)
    );
    assert_eq!(
        debit_placement(PackType::Resp, 6000, 5000, 3),
        Ok(PlacementDebit { money: 1000, owner_clan: 3, building_clan: 0 })
    );
    assert_eq!(
        debit_placement(PackType::Gate, 2000, 2000, 3),
        Ok(PlacementDebit { money: 0, owner_clan: 3, building_clan: 3 })
    );
    assert_eq!(refund_placement(0, 2000), 2000);
}

#[test]
fn removing_a_building_needs_rights_and_presence() {
    assert_eq!(removal_check(false, true, true), Err(RemovalRefusal::NotFound));
    assert_eq!(removal_check(true, false, true), Err(RemovalRefusal::NoRights));
    assert_eq!(removal_check(true, true, false), Err(RemovalRefusal::NotAtBuilding));
    assert_eq!(RemovalRefusal::NotAtBuilding.message(), "Вы не у объекта");
    assert_eq!(removal_check(true, true, true), Ok(()));
}

#[test]
fn removed_teleport_and_storage_leave_crystal_boxes() {
    assert_eq!(destroy_box_crystals(PackType::Teleport, 40, None), Some([0, 0, 0, 0, 40, 0]));
    assert_eq!(destroy_box_crystals(PackType::Teleport, 0, None), None);
    assert_eq!(
        destroy_box_crystals(PackType::Storage, 0, Some([1, 0, 0, 0, 0, 2])),
        Some([1, 0, 0, 0, 0, 2])
    );
    assert_eq!(destroy_box_crystals(PackType::Storage, 0, Some([0; 6])), None);
    assert_eq!(destroy_box_crystals(PackType::Gun, 100, None), None);
}

#[test]
fn shpaak_drops_are_the_buildings_item_or_nothing() {
    for _ in 0..50 {
        let d = shpaak_drop(PackType::Gun);
        assert!(d == None || d == Some(26));
        assert_eq!(shpaak_drop(PackType::Gate), None);
    }
}

#[test]
fn destroying_resp_clears_matching_bindings() {
    let players = [(1, Some((5, 5))), (2, None), (3, Some((5, 6))), (4, Some((5, 5)))];
    assert_eq!(bound_to_resp(&players, 5, 5), vec![1, 4]);
}

#[test]
fn connect_reuses_a_live_entity() {
    assert_eq!(connect_plan(true, true), ConnectPlan::Reuse);
    assert_eq!(connect_plan(true, false), ConnectPlan::ForgetAndSpawn);
    assert_eq!(connect_plan(false, false), ConnectPlan::Spawn);
    assert_eq!(initial_health(0, 100), 100);
    assert_eq!(initial_health(-5, 100), 100);
    assert_eq!(initial_health(40, 100), 40);
    assert_eq!(clan_icon(None), 0);
    assert_eq!(clan_icon(Some(70000)), 65535);
    assert_eq!(clan_icon(Some(-3)), 0);
    assert_eq!(clan_icon(Some(12)), 12);
}

#[test]
fn stale_disconnect_does_nothing_and_programs_keep_the_entity() {
    assert_eq!(disconnect_plan(false, true), DisconnectPlan::Stale);
    assert_eq!(disconnect_plan(true, true), DisconnectPlan::KeepOffline);
    assert_eq!(disconnect_plan(true, false), DisconnectPlan::Despawn);
}

#[test]
fn initial_presentation_follows_the_client_order() {
    let f = InitFacts {
        auto_dig: true,
        aggression: false,
        health: 80,
        max_health: 100,
        x: 7,
        y: 9,
        money: 5,
        creds: 6,
        clan_id: Some(0),
        prog_running: true,
        hand_mode: false,
        selected_program: Some(42),
        bonus_ready: true,
    };
    let p = init_plan(f);
    assert_eq!(p.len(), 22);
    assert_eq!(p[0], InitPacket::ChunkPackets);
    assert_eq!(p[1], InitPacket::AutoDig(true));
    assert_eq!(p[4], InitPacket::Health { health: 80, max_health: 100 });
    assert_eq!(p[12], InitPacket::Teleport { x: 7, y: 9 });
    assert_eq!(p[14], InitPacket::ClanHide);
    assert_eq!(p[20], InitPacket::OpenProgram(42));
    assert_eq!(p[21], InitPacket::BonusReady(true));
    let q = init_plan(InitFacts { clan_id: Some(3), selected_program: None, ..f });
    assert_eq!(q.len(), 21);
    assert_eq!(q[14], InitPacket::ClanShow(3));
}

#[test]
fn shpaak_drop_follows_the_die_roll() {
    assert_eq!(shpaak_drop_for_roll(PackType::Gun, 1), Some(26));
    assert_eq!(shpaak_drop_for_roll(PackType::Gun, 39), Some(26));
    assert_eq!(shpaak_drop_for_roll(PackType::Gun, 40), None);
    assert_eq!(shpaak_drop_for_roll(PackType::Gun, 100), None);
    assert_eq!(shpaak_drop_for_roll(PackType::Resp, 5), Some(1));
    assert_eq!(shpaak_drop_for_roll(PackType::Gate, 1), None);
}

#[test]
fn building_start_state_comes_from_its_config() {
    let cfg = BuildingConfig { charge: 10, max_charge: 1000, cost: 5000, hp: 100, max_hp: 200 };
    let extra = building_extra_for_pack_type(Some(cfg)).unwrap();
    assert_eq!((extra.charge, extra.max_charge, extra.cost, extra.hp, extra.max_hp), (10, 1000, 5000, 100, 200));
    assert!(extra.items_inside.is_empty());
    assert_eq!(extra.crystals_inside, [0; 6]);
    assert_eq!((extra.money_inside, extra.craft_num, extra.craft_end_ts, extra.clanzone), (0, 0, 0, 0));
    assert!(extra.craft_recipe_id.is_none() && !extra.craft_ready);
    assert_eq!(building_extra_for_pack_type(None).unwrap_err(), BuildingExtraError::MissingConfig);
    let big = BuildingConfig { cost: 3_000_000_000, ..cfg };
    assert_eq!(building_extra_for_pack_type(Some(big)).unwrap_err(), BuildingExtraError::CostOverflow);
}
