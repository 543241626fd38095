use openmines_server::chat_sync::parse_private_tag;
use openmines_server::resp_save::{parse_resp_save_fields, RespSaveFields};
use openmines_server::text::{parse_i32, strip_str_prefix};

#[test]
fn parse_i32_follows_from_str() {
    assert_eq!(parse_i32("0"), Some(0));
    assert_eq!(parse_i32("+17"), Some(17));
    assert_eq!(parse_i32("-2147483648"), Some(i32::MIN));
    assert_eq!(parse_i32("2147483647"), Some(i32::MAX));
    assert_eq!(parse_i32("2147483648"), None);
    assert_eq!(parse_i32("-"), None);
    assert_eq!(parse_i32("+"), None);
    assert_eq!(parse_i32(""), None);
    assert_eq!(parse_i32(" 1"), None);
    assert_eq!(parse_i32("007"), Some(7));
}

#[test]
fn private_tags_name_two_players() {
    assert_eq!(parse_private_tag("_12_34"), Some((12, 34)));
    assert_eq!(parse_private_tag("_-1_+2"), Some((-1, 2)));
    assert_eq!(parse_private_tag("12_34"), None);
    assert_eq!(parse_private_tag("_12"), None);
    assert_eq!(parse_private_tag("_1_2_3"), None);
    assert_eq!(parse_private_tag("_a_2"), None);
}

#[test]
fn strip_prefix_matches_str_strip_prefix() {
    assert_eq!(strip_str_prefix("hash=abc", "hash="), Some("abc"));
    assert_eq!(strip_str_prefix("hash", "hash="), None);
    assert_eq!(strip_str_prefix("ключ:значение", "ключ:"), Some("значение"));
}

#[test]
fn resp_form_reads_cost_clanzone_and_clan_flag() {
    assert_eq!(
        parse_resp_save_fields("cost:100#clanzone:5#clan:1#"),
        Some(RespSaveFields { cost: Some(100), clanzone: Some(5), clan_enabled: Some(true) })
    );
    assert_eq!(
        parse_resp_save_fields("clan:false"),
        Some(RespSaveFields { cost: None, clanzone: None, clan_enabled: Some(false) })
    );
}

#[test]
fn resp_form_rejects_malformed_cost() {
    assert_eq!(parse_resp_save_fields("cost:abc"), None);
    assert_eq!(parse_resp_save_fields("cost:5001"), None);
    assert_eq!(parse_resp_save_fields("cost:-1"), None);
    assert_eq!(parse_resp_save_fields(""), None);
}
