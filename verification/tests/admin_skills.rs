use openmines_server::chat_command::{find_online_by_name, resolve_online_player_arg, split_whitespace};
use openmines_server::ids::PlayerId;
use openmines_server::skills::{
    admin_skill_codes_help,
    choose_admin_skill_slot, set_admin_skill, skill_command, skill_level, skill_slot, SkillCommand,
    SkillSlot, SkillSlots, SKILL_LEVEL_ERROR, SKILL_SLOT_ERROR,
};
use openmines_server::text::eq_ignore_ascii_case;

fn slot(slot: i32, code: &str, level: i32) -> SkillSlot {
    SkillSlot { slot, code: code.to_owned(), level }
}

#[test]
fn skill_sets_wire_code_slot_and_level() {
    let args = split_whitespace("me U 200 10 900000");
    assert_eq!(
        skill_command(&args),
        SkillCommand::Edit { target: "me", code: "U", level: "200", slot: Some("10"), exp: Some("900000") }
    );
    assert_eq!(skill_level("200"), Some(200));
    assert_eq!(skill_slot(Some("10")), Ok(Some(10)));
    let mut s = SkillSlots { skills: vec![slot(0, "M", 3), slot(4, "U", 7)], total_slots: 5 };
    let chosen = choose_admin_skill_slot(&s, "U", Some(10)).unwrap();
    set_admin_skill(&mut s, "U", 200, chosen);
    assert_eq!(s.skills.len(), 2);
    assert_eq!(s.skills[0].code, "M");
    assert_eq!((s.skills[1].slot, s.skills[1].code.as_str(), s.skills[1].level), (10, "U", 200));
    assert_eq!(s.total_slots, 11);
    assert_eq!(s.skills.iter().filter(|e| e.code == "U").count(), 1);
}

#[test]
fn setting_a_skill_replaces_what_held_the_slot() {
    let mut s = SkillSlots { skills: vec![slot(2, "M", 3), slot(5, "d", 1)], total_slots: 40 };
    set_admin_skill(&mut s, "l", 9, 2);
    assert_eq!(s.skills.len(), 2);
    assert_eq!(s.skills[0].code, "d");
    assert_eq!((s.skills[1].slot, s.skills[1].code.as_str()), (2, "l"));
    assert_eq!(s.total_slots, 34);
}

#[test]
fn skill_rejects_slots_outside_domain() {
    assert_eq!(skill_slot(Some("34")), Err(()));
    assert_eq!(skill_slot(Some("-1")), Err(()));
    assert_eq!(skill_slot(Some("x")), Err(()));
    assert_eq!(skill_slot(Some("33")), Ok(Some(33)));
    assert_eq!(skill_slot(None), Ok(None));
    assert!(SKILL_SLOT_ERROR.contains("SLOT должен быть целым числом от 0 до 33"));
}

#[test]
fn skill_level_must_be_positive_i32() {
    assert_eq!(skill_level("0"), None);
    assert_eq!(skill_level("2147483647"), Some(i32::MAX));
    assert_eq!(skill_level("2147483648"), None);
    assert_eq!(skill_level("abc"), None);
    assert!(SKILL_LEVEL_ERROR.ends_with("2147483647"));
}

#[test]
fn skill_codes_and_usage() {
    assert_eq!(skill_command(&vec!["codes"]), SkillCommand::Codes);
    assert_eq!(skill_command(&vec!["HeLp"]), SkillCommand::Codes);
    assert_eq!(skill_command(&vec!["me", "U"]), SkillCommand::Usage);
    assert_eq!(skill_command(&vec![]), SkillCommand::Usage);
}

#[test]
fn players_are_named_by_me_id_or_name() {
    let online = vec![(5, Some("Alice".to_string())), (7, None), (9, Some("bob".to_string()))];
    assert_eq!(resolve_online_player_arg(PlayerId(1), "ME", &online), Some(PlayerId(1)));
    assert_eq!(resolve_online_player_arg(PlayerId(1), "self", &online), Some(PlayerId(1)));
    assert_eq!(resolve_online_player_arg(PlayerId(1), "7", &online), Some(PlayerId(7)));
    assert_eq!(resolve_online_player_arg(PlayerId(1), "8", &online), None);
    assert_eq!(resolve_online_player_arg(PlayerId(1), "BOB", &online), Some(PlayerId(9)));
    assert_eq!(resolve_online_player_arg(PlayerId(1), "carol", &online), None);
}

#[test]
fn ascii_case_folding_leaves_other_letters_alone() {
    assert!(eq_ignore_ascii_case("AbC", "aBc"));
    assert!(!eq_ignore_ascii_case("abc", "abcd"));
    assert!(!eq_ignore_ascii_case("Ж", "ж"));
    assert!(eq_ignore_ascii_case("", ""));
}

#[test]
fn kick_finds_the_first_online_player_by_name_ignoring_case() {
    let online = vec![
        (4, None),
        (5, Some("Bob".to_string())),
        (6, Some("BOB".to_string())),
    ];
    assert_eq!(find_online_by_name("bob", &online), Some(PlayerId(5)));
    assert_eq!(find_online_by_name("alice", &online), None);
    assert_eq!(find_online_by_name("", &online), None);
}

#[test]
fn skill_codes_help_lists_code_and_name_pairs() {
    assert_eq!(admin_skill_codes_help(&vec![("d", "Dig"), ("m", "Move")]), "d=Dig, m=Move");
    assert_eq!(admin_skill_codes_help(&vec![("d", "Dig")]), "d=Dig");
    assert_eq!(admin_skill_codes_help(&vec![]), "");
}
