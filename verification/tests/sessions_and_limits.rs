use openmines_server::auth_limit::{AuthFailures, AUTH_BLOCK_DURATION_MS};
use openmines_server::heartbeat::{PongClient, SessionHeartbeat};
use openmines_server::ids::PlayerId;
use openmines_server::session_state::{AuthState, GuiAuthStep, HeartbeatGate};

#[test]
fn six_failures_in_the_window_block_the_address() {
    let mut f = AuthFailures::new();
    let addr = 0x7f00_0001u128;
    for i in 0..5 {
        assert_eq!(f.record_auth_failure_by_addr(addr, 1_000 + i), None);
        assert_eq!(f.auth_blocked_remaining_by_addr(addr, 1_000 + i), None);
    }
    assert_eq!(f.record_auth_failure_by_addr(addr, 2_000), Some(AUTH_BLOCK_DURATION_MS));
    assert_eq!(f.auth_blocked_remaining_by_addr(addr, 2_000), Some(20_000));
    assert_eq!(f.auth_blocked_remaining_by_addr(addr, 7_000), Some(15_000));
    assert_eq!(f.auth_blocked_remaining_by_addr(addr, 22_000), None);
    assert_eq!(f.auth_blocked_remaining_by_addr(1, 2_000), None);
}

#[test]
fn a_failure_after_the_window_starts_a_fresh_count() {
    let mut f = AuthFailures::new();
    for i in 0..5 {
        f.record_auth_failure_by_addr(9, i);
    }
    assert_eq!(f.record_auth_failure_by_addr(9, 40_000), None);
    assert_eq!(f.auth_blocked_remaining_by_addr(9, 40_000), None);
}

#[test]
fn pruning_forgets_old_records_but_not_blocks() {
    let mut f = AuthFailures::new();
    for _ in 0..6 {
        f.record_auth_failure_by_addr(1, 100);
    }
    f.record_auth_failure_by_addr(2, 0);
    f.prune_auth_failures_by_addr(30_050);
    assert_eq!(f.auth_blocked_remaining_by_addr(1, 10_000), Some(10_100));
    // Address 2 was forgotten: five more failures do not block it.
    for i in 0..5 {
        assert_eq!(f.record_auth_failure_by_addr(2, 30_050 + i), None);
    }
}

#[test]
fn heartbeat_measures_round_trips_and_times_out() {
    let mut hb = SessionHeartbeat::new(1_000, 250);
    assert!(!hb.is_timed_out(1_500, 600));
    assert!(hb.is_timed_out(1_601, 600));
    let ping = hb.next_ping_packet(1_100);
    assert_eq!(ping.client_time, 101);
    assert_eq!(ping.text, "250 ");
    hb.record_pong(&PongClient { response: 1, current_time: 5_000 }, 1_180);
    let ping = hb.next_ping_packet(1_200);
    assert_eq!(ping.text, "80 ");
    assert_eq!(ping.client_time, 5_021);
    hb.record_pong(&PongClient { response: 1, current_time: 0 }, 1_200);
    assert_eq!(hb.next_ping_packet(1_200).text, "1 ");
    hb.reset_liveness(9_000);
    assert!(!hb.is_timed_out(9_000, 0));
}

#[test]
fn heartbeat_gate_opens_once_the_auth_response_is_flushed() {
    let mut g = HeartbeatGate::WaitingForAuthResponse;
    assert!(!g.enable_if_auth_response_flushed());
    g.mark_auth_response_queued();
    assert!(!g.is_enabled());
    assert!(g.enable_if_auth_response_flushed());
    assert!(g.is_enabled());
    assert!(!g.enable_if_auth_response_flushed());
}

#[test]
fn only_authenticated_sessions_have_a_player() {
    assert_eq!(AuthState::Authenticated { player_id: PlayerId(4) }.player_id(), Some(PlayerId(4)));
    assert_eq!(AuthState::PreAuth.player_id(), None);
    assert_eq!(AuthState::GuiAuth(GuiAuthStep::MainMenu).player_id(), None);
}

#[test]
fn a_burst_of_failures_blocks_at_the_sixth_and_a_long_gap_restarts_the_count() {
    let mut f = AuthFailures::new();
    let addr = 42u128;
    for k in 1..=5u64 {
        assert_eq!(f.record_auth_failure_by_addr(addr, k * 10_000), None);
    }
    assert_eq!(f.record_auth_failure_by_addr(addr, 60_000), Some(AUTH_BLOCK_DURATION_MS));
    assert_eq!(f.auth_blocked_remaining_by_addr(addr, 65_000), Some(15_000));
    assert_eq!(f.auth_blocked_remaining_by_addr(addr, 80_000), None);
    // More than the window after the last failure the count starts again.
    assert_eq!(f.record_auth_failure_by_addr(addr, 100_000), None);
    assert_eq!(f.auth_blocked_remaining_by_addr(addr, 100_000), None);
}
