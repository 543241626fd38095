use openmines_server::auth_limit::AuthFailures;
use openmines_server::heartbeat::PongClient;
use openmines_server::ids::PlayerId;
use openmines_server::session::{closes_for_block, PacketRoute, SessionMachine, TickAction};
use openmines_server::session_state::{AuthState, GuiAuthStep};

#[test]
fn heartbeats_wait_for_the_flushed_auth_response() {
    let mut s = SessionMachine::new(0, 100);
    assert!(matches!(s.on_heartbeat_tick(400, 30_000), TickAction::Skip));
    let mut f = AuthFailures::new();
    assert!(s.on_login_answer(AuthState::Authenticated { player_id: PlayerId(3) }, Some(PlayerId(3)), &mut f, 1, 500));
    assert!(matches!(s.on_heartbeat_tick(800, 30_000), TickAction::Skip));
    s.on_outbox_flushed(1_000);
    match s.on_heartbeat_tick(1_400, 30_000) {
        TickAction::Ping(p) => {
            assert_eq!(p.client_time, 401);
            assert_eq!(p.text, "100 ");
        }
        other => panic!("unexpected {other:?}"),
    }
    s.on_pong(&PongClient { response: 1, current_time: 9 }, 1_450);
    assert!(matches!(s.on_heartbeat_tick(40_000, 30_000), TickAction::Disconnect));
    assert_eq!(s.player_id(), Some(PlayerId(3)));
}

#[test]
fn packets_are_routed_by_authentication_state() {
    let mut s = SessionMachine::new(0, 100);
    assert_eq!(s.route("PO"), PacketRoute::Pong);
    assert_eq!(s.route("AU"), PacketRoute::Login);
    assert_eq!(s.route("TY"), PacketRoute::Ignore);
    let mut f = AuthFailures::new();
    assert!(s.on_login_answer(AuthState::GuiAuth(GuiAuthStep::MainMenu), None, &mut f, 7, 10));
    assert_eq!(s.route("TY"), PacketRoute::GuiDialog);
    assert_eq!(s.route("AU"), PacketRoute::Ignore);
    s.on_gui_login(PlayerId(5));
    assert_eq!(s.route("TY"), PacketRoute::Command);
    assert_eq!(s.route("PO"), PacketRoute::Pong);
    assert_eq!(s.player_id(), Some(PlayerId(5)));
}

#[test]
fn repeated_failed_logins_close_the_connection() {
    let mut f = AuthFailures::new();
    for i in 0..5 {
        let mut s = SessionMachine::new(0, 100);
        assert!(s.on_login_answer(AuthState::GuiAuth(GuiAuthStep::MainMenu), None, &mut f, 42, i));
    }
    let mut s = SessionMachine::new(0, 100);
    assert!(!s.on_login_answer(AuthState::GuiAuth(GuiAuthStep::MainMenu), None, &mut f, 42, 9));
    assert!(closes_for_block(f.auth_blocked_remaining_by_addr(42, 9)));
    assert!(!closes_for_block(None));
    assert!(!closes_for_block(Some(0)));
}
