use openmines_server::ids::{PlayerId, SessionId};
use openmines_server::ty_command::{
    decode_ty_command, route_ty_command, TyCommand, TyPacket, TyPayloadArgs, TyRoute, TyRouteClass,
};
use openmines_server::ty_dispatch::{
    admin_window_target, noop_payload_ok, rate_limit_for_event, AdminTarget, AdminWindow,
    TyRateLimit,
};

fn ty(event: &str, payload: &[u8]) -> TyPacket {
    TyPacket {
        event: event.to_owned(),
        time: 0,
        x: 0,
        y: 0,
        sub_payload: payload.to_vec(),
    }
}

fn no_args() -> TyPayloadArgs {
    TyPayloadArgs {
        direction: None,
        build: None,
        gui_button: None,
        local_message: None,
        whois_ids: None,
    }
}

#[test]
fn unknown_ty_does_not_enter_simulation() {
    let packet = ty("NOPE", b"");
    assert!(decode_ty_command(PlayerId(1), SessionId(1), &packet, no_args()).is_none());
}

#[test]
fn route_accepts_valid_ty_as_typed_command() {
    // The protocol decoder reads direction 1 from the payload "1".
    let packet = ty("Xmov", b"1");
    let args = TyPayloadArgs { direction: Some(1), ..no_args() };
    let route = route_ty_command(PlayerId(7), SessionId(1), &packet, args);
    assert!(matches!(
        route,
        TyRoute::Accepted {
            class: TyRouteClass::Gameplay,
            command: TyCommand::Move {
                player_id: PlayerId(7),
                direction: 1,
                ..
            }
        }
    ));
}

#[test]
fn route_rejects_unknown_ty_before_simulation() {
    let packet = ty("NOPE", b"payload");
    let route = route_ty_command(PlayerId(7), SessionId(1), &packet, no_args());
    match route {
        TyRoute::Rejected { class, reason, event, payload } => {
            assert_eq!(class, TyRouteClass::Unknown);
            assert_eq!(reason, "unknown_event");
            assert_eq!(event, "NOPE");
            assert_eq!(payload, b"payload".to_vec());
        }
        _ => panic!("unknown event must be rejected"),
    }
}

#[test]
fn route_rejects_malformed_known_ty_before_simulation() {
    // "not-a-direction" does not decode into a direction.
    let packet = ty("Xmov", b"not-a-direction");
    let route = route_ty_command(PlayerId(7), SessionId(1), &packet, no_args());
    assert!(matches!(
        route,
        TyRoute::Rejected {
            class: TyRouteClass::Gameplay,
            reason: "malformed_payload",
            ..
        }
    ));
}

#[test]
fn payload_events_keep_their_payload_and_session() {
    let packet = ty("INCL", b"0");
    match decode_ty_command(PlayerId(3), SessionId(9), &packet, no_args()) {
        Some(TyCommand::InventoryChoose { player_id, payload }) => {
            assert_eq!(player_id, PlayerId(3));
            assert_eq!(payload, b"0".to_vec());
        }
        other => panic!("unexpected {other:?}"),
    }
    let packet = ty("pRST", b"x");
    match decode_ty_command(PlayerId(3), SessionId(9), &packet, no_args()) {
        Some(TyCommand::ProgramAction { session_id, event, .. }) => {
            assert_eq!(session_id, SessionId(9));
            assert_eq!(event, "pRST");
        }
        other => panic!("unexpected {other:?}"),
    }
    let packet = ty("Miss", b"1");
    assert!(matches!(
        decode_ty_command(PlayerId(3), SessionId(9), &packet, no_args()),
        Some(TyCommand::KnownNoopTy { .. })
    ));
    let packet = TyPacket { x: 0xffff_ffff, y: 5, time: 42, ..ty("Xmov", b"2") };
    let args = TyPayloadArgs { direction: Some(2), ..no_args() };
    match decode_ty_command(PlayerId(3), SessionId(9), &packet, args) {
        Some(TyCommand::Move { x, y, time, programmatic, .. }) => {
            assert_eq!((x, y, time, programmatic), (-1, 5, 42, false));
        }
        other => panic!("unexpected {other:?}"),
    }
}

#[test]
fn argument_events_need_their_decoded_arguments() {
    let args = TyPayloadArgs { gui_button: Some("exit".to_owned()), ..no_args() };
    match decode_ty_command(PlayerId(1), SessionId(2), &ty("GUI_", b"{}"), args) {
        Some(TyCommand::Gui { button, session_id, .. }) => {
            assert_eq!(button, "exit");
            assert_eq!(session_id, SessionId(2));
        }
        other => panic!("unexpected {other:?}"),
    }
    assert!(decode_ty_command(PlayerId(1), SessionId(2), &ty("GUI_", b"{}"), no_args()).is_none());
    let args = TyPayloadArgs { build: Some((1, "R".to_owned())), ..no_args() };
    match decode_ty_command(PlayerId(1), SessionId(2), &ty("Xbld", b"1R"), args) {
        Some(TyCommand::Build { direction, block_type, .. }) => {
            assert_eq!(direction, 1);
            assert_eq!(block_type, "R");
        }
        other => panic!("unexpected {other:?}"),
    }
    let args = TyPayloadArgs { whois_ids: Some(vec![1, 2]), ..no_args() };
    match decode_ty_command(PlayerId(1), SessionId(2), &ty("Whoi", b"1,2"), args) {
        Some(TyCommand::Whois { ids, .. }) => assert_eq!(ids, vec![1, 2]),
        other => panic!("unexpected {other:?}"),
    }
}

#[test]
fn rate_limits_cover_gui_and_chat_events() {
    assert_eq!(rate_limit_for_event("GUI_"), Some(TyRateLimit::Gui));
    assert_eq!(rate_limit_for_event("Locl"), Some(TyRateLimit::Chat));
    assert_eq!(rate_limit_for_event("Chat"), Some(TyRateLimit::Chat));
    assert_eq!(rate_limit_for_event("Cpri"), Some(TyRateLimit::Chat));
    assert_eq!(rate_limit_for_event("Chin"), None);
    assert_eq!(rate_limit_for_event("Xmov"), None);
}

#[test]
fn ignored_events_validate_their_payload_shape() {
    assert_eq!(noop_payload_ok("Xhur", b"_"), Some(true));
    assert_eq!(noop_payload_ok("TAUR", b"x"), Some(false));
    assert_eq!(noop_payload_ok("FINV", b"7"), Some(true));
    assert_eq!(noop_payload_ok("FINV", b"77"), Some(false));
    assert_eq!(noop_payload_ok("Miss", b"0"), Some(true));
    assert_eq!(noop_payload_ok("Rndm", b"hash=abc"), Some(true));
    assert_eq!(noop_payload_ok("Rndm", b"abc"), Some(false));
    assert_eq!(noop_payload_ok("Help", b""), None);
}

#[test]
fn admin_button_leads_to_the_open_building_window() {
    assert_eq!(
        admin_window_target("resp:10:-20"),
        Some(AdminTarget { window: AdminWindow::Resp, x: 10, y: -20 })
    );
    assert_eq!(admin_window_target("resp:10:20:30"), None);
    assert_eq!(
        admin_window_target("market:1:2:extra"),
        Some(AdminTarget { window: AdminWindow::Market, x: 1, y: 2 })
    );
    assert_eq!(
        admin_window_target("up:5:6"),
        Some(AdminTarget { window: AdminWindow::Up, x: 5, y: 6 })
    );
    assert_eq!(
        admin_window_target("pack:+7:8"),
        Some(AdminTarget { window: AdminWindow::Pack, x: 7, y: 8 })
    );
    assert_eq!(admin_window_target("pack:7"), None);
    assert_eq!(admin_window_target("market:a:2"), None);
    assert_eq!(admin_window_target("gun:1:2"), None);
}
