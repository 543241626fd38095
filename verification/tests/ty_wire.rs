use openmines_server::packs::{pack_overlay, shpaak_item_index, wire_clan, wire_coord, PackType};
use openmines_server::ty_command::{classify_ty_event, TyRouteClass};
use openmines_server::ty_payload::{decode_finv_index, decode_miss_enabled, decode_rndm_hash, is_unit_payload};

#[test]
fn finv_decodes_only_unity_numeric_hotkeys() {
    for index in 0..=9 {
        let payload = index.to_string();
        assert_eq!(decode_finv_index(payload.as_bytes()), Some(index));
    }

    assert_eq!(decode_finv_index(b""), None);
    assert_eq!(decode_finv_index(b"10"), None);
    assert_eq!(decode_finv_index(b"_"), None);
}

#[test]
fn unit_ty_payload_matches_reference_underscore_packets() {
    assert!(is_unit_payload(b"_"));
    assert!(!is_unit_payload(b""));
    assert!(!is_unit_payload(b"0"));
}

#[test]
fn mission_init_payload_matches_reference_bool_wire() {
    assert_eq!(decode_miss_enabled(b"0"), Some(false));
    assert_eq!(decode_miss_enabled(b"1"), Some(true));
    assert_eq!(decode_miss_enabled(b"_"), None);
    assert_eq!(decode_miss_enabled(b"true"), None);
}

#[test]
fn rndm_payload_requires_hash_prefix() {
    assert_eq!(decode_rndm_hash(b"hash=device-id"), Some("device-id"));
    assert_eq!(decode_rndm_hash(b"device-id"), None);
    assert_eq!(decode_rndm_hash(b"hash=\xff"), None);
}

#[test]
fn shpaak_destroy_item_indices_match_reference_inventory_slots() {
    assert_eq!(shpaak_item_index(PackType::Teleport), Some(0));
    assert_eq!(shpaak_item_index(PackType::Resp), Some(1));
    assert_eq!(shpaak_item_index(PackType::Up), Some(2));
    assert_eq!(shpaak_item_index(PackType::Market), Some(3));
    assert_eq!(shpaak_item_index(PackType::Craft), Some(24));
    assert_eq!(shpaak_item_index(PackType::Gun), Some(26));
    assert_eq!(shpaak_item_index(PackType::Storage), Some(29));
    assert_eq!(shpaak_item_index(PackType::Gate), None);
    assert_eq!(shpaak_item_index(PackType::Spot), None);
}

#[test]
fn all_known_wire_events_have_an_explicit_class() {
    let known_events = [
        "Xmov", "Xdig", "Xbld", "GUI_", "Locl", "Xgeo", "Xhea", "Xhur", "INVN", "INUS", "INCL",
        "FINV", "TADG", "TAGR", "Whoi", "Chat", "Chin", "Cmen", "Choo", "Cset", "Cpri", "RESP",
        "Pope", "Blds", "Clan", "Sett", "ADMN", "DPBX", "GDon", "Help", "Miso", "THID", "PROG",
        "PDEL", "pRST", "PREN", "PCOP", "Miss", "Rndm", "TAUR",
    ];
    for event in known_events {
        assert_ne!(
            classify_ty_event(event),
            TyRouteClass::Unknown,
            "{event} is known on the wire and must be classified"
        );
    }
}

#[test]
fn unknown_events_are_marked_unknown() {
    assert_eq!(classify_ty_event("NOPE"), TyRouteClass::Unknown);
}

#[test]
fn overlay_entries_wrap_coordinates_and_clamp_clans() {
    assert_eq!(wire_coord(0), 0);
    assert_eq!(wire_coord(70_000), 4_464);
    assert_eq!(wire_coord(-1), 65_535);
    assert_eq!(wire_coord(i32::MIN), 0);
    assert_eq!(wire_clan(-5), 0);
    assert_eq!(wire_clan(300), 255);
    assert_eq!(wire_clan(17), 17);
    let o = pack_overlay(7, 65_537, 12, 999, 3);
    assert_eq!((o.code, o.x, o.y, o.clan, o.off), (7, 1, 12, 255, 3));
}
