use openmines_server::schedules::{
    game_schedules, GameSchedule, ScheduleActivity, ScheduleIntervals, ScheduleTable,
};

fn table() -> ScheduleTable {
    let entry = |name: &str, interval_ms: u64| GameSchedule {
        name: name.to_owned(),
        activity: ScheduleActivity::Always,
        interval_ms,
    };
    ScheduleTable {
        schedules: vec![
            entry("physics", 400),
            entry("programmator", 100),
            entry("building_visual_effects", 1000),
            entry("building_crafting", 1000),
        ],
    }
}

fn intervals() -> ScheduleIntervals {
    ScheduleIntervals {
        hazards_ms: 1000,
        physics_ms: 400,
        guns_ms: 500,
        programmator_ms: 100,
        alive_ms: 800,
        building_effects_ms: 1000,
        hourly_damage_ms: 3_600_000,
    }
}

#[test]
fn test_dynamic_schedule_interval_change() {
    let mut state = table();
    assert_eq!(state.interval_of("physics"), Some(400));
    assert!(state.set_schedule_interval("physics", 250));
    assert_eq!(state.interval_of("physics"), Some(250));
    assert!(state.set_schedule_interval("physics", 0));
    assert_eq!(state.interval_of("physics"), Some(0));
    assert!(!state.set_schedule_interval("missing", 100));
}

#[test]
fn building_effects_names_both_building_schedules() {
    let mut state = table();
    assert!(state.set_schedule_interval("building_effects", 50));
    assert_eq!(state.interval_of("building_visual_effects"), Some(50));
    assert_eq!(state.interval_of("building_crafting"), Some(50));
    assert_eq!(state.interval_of("physics"), Some(400));
    assert_eq!(state.interval_of("building_effects"), None);
}

#[test]
fn schedule_intervals_come_from_config() {
    let mut config = intervals();
    config.physics_ms = 321;
    config.programmator_ms = 654;
    let state = game_schedules(config);
    assert_eq!(state.interval_of("physics"), Some(321));
    assert_eq!(state.interval_of("programmator"), Some(654));
}

#[test]
fn game_schedules_run_in_order_with_their_activities() {
    let state = game_schedules(intervals());
    let names: Vec<&str> = state.schedules.iter().map(|s| s.name.as_str()).collect();
    assert_eq!(
        names,
        vec![
            "hazards",
            "physics",
            "guns",
            "programmator",
            "alive",
            "building_visual_effects",
            "building_crafting",
            "hourly_damage"
        ]
    );
    assert_eq!(state.schedules[5].activity, ScheduleActivity::OnlinePlayers);
    assert_eq!(state.schedules[6].interval_ms, 1000);
    assert_eq!(state.schedules[7].activity, ScheduleActivity::Always);
}
