use openmines_server::movement::{
    decide_move, opens_pack_after_move, MoveContext, MoveDecision, MoveReject, MoveRequest,
};

fn ctx() -> MoveContext {
    MoveContext {
        x: 10,
        y: 10,
        clan: 3,
        window_open: false,
        manual_control_allowed: true,
        auto_dig: false,
        target_in_world: true,
        gate_clan: None,
        target_empty: true,
    }
}

fn req(x: i32, y: i32, dir: i32, programmatic: bool) -> MoveRequest {
    MoveRequest { target_x: x, target_y: y, direction: dir, programmatic }
}

#[test]
fn a_step_to_a_free_neighbour_is_taken_facing_the_step() {
    assert_eq!(decide_move(req(9, 10, 0, false), ctx()), MoveDecision::Moved { dir: 1 });
    assert_eq!(decide_move(req(11, 10, 0, false), ctx()), MoveDecision::Moved { dir: 3 });
    assert_eq!(decide_move(req(10, 9, 0, false), ctx()), MoveDecision::Moved { dir: 2 });
    assert_eq!(decide_move(req(10, 11, 1, false), ctx()), MoveDecision::Moved { dir: 0 });
    // Turning in place keeps the sent direction, Ctrl-shifted by ten.
    assert_eq!(decide_move(req(10, 10, 12, false), ctx()), MoveDecision::Moved { dir: 2 });
}

#[test]
fn move_distance_reject_stays_tp_back_without_state_error() {
    assert_eq!(
        decide_move(req(11, 11, 0, false), ctx()),
        MoveDecision::Rejected { reason: MoveReject::Distance, teleport_back: true }
    );
    assert_eq!(
        decide_move(req(12, 10, 0, false), ctx()),
        MoveDecision::Rejected { reason: MoveReject::Distance, teleport_back: true }
    );
}

#[test]
fn programmatic_move_reject_does_not_send_tp_back() {
    assert_eq!(
        decide_move(req(12, 10, 0, true), ctx()),
        MoveDecision::Rejected { reason: MoveReject::Distance, teleport_back: false }
    );
    let blocked = MoveContext { target_empty: false, ..ctx() };
    assert_eq!(
        decide_move(req(11, 10, 0, true), blocked),
        MoveDecision::Rejected { reason: MoveReject::Obstacle, teleport_back: false }
    );
}

#[test]
fn programmatic_autodig_digs_instead_of_moving() {
    let wall = MoveContext { target_empty: false, auto_dig: true, ..ctx() };
    assert_eq!(
        decide_move(req(11, 10, -1, true), wall),
        MoveDecision::Autodig { dig_dir: 3, teleport_back: false }
    );
    assert_eq!(
        decide_move(req(11, 10, -1, false), wall),
        MoveDecision::Autodig { dig_dir: 3, teleport_back: true }
    );
    assert_eq!(
        decide_move(req(11, 10, 0, true), wall),
        MoveDecision::Rejected { reason: MoveReject::Obstacle, teleport_back: false }
    );
}

#[test]
fn gates_let_only_their_clan_through() {
    let own = MoveContext { gate_clan: Some(3), target_empty: false, ..ctx() };
    assert_eq!(decide_move(req(11, 10, 0, false), own), MoveDecision::Moved { dir: 3 });
    let other = MoveContext { gate_clan: Some(4), ..ctx() };
    assert_eq!(
        decide_move(req(11, 10, 0, false), other),
        MoveDecision::Rejected { reason: MoveReject::Gate, teleport_back: true }
    );
}

#[test]
fn manual_moves_wait_for_programs_and_closed_windows() {
    let running = MoveContext { manual_control_allowed: false, ..ctx() };
    assert_eq!(decide_move(req(11, 10, 0, false), running), MoveDecision::Ignored);
    assert_eq!(decide_move(req(11, 10, 0, true), running), MoveDecision::Moved { dir: 3 });
    let window = MoveContext { window_open: true, ..ctx() };
    assert_eq!(
        decide_move(req(11, 10, 0, false), window),
        MoveDecision::Rejected { reason: MoveReject::WindowOpen, teleport_back: true }
    );
    let outside = MoveContext { target_in_world: false, ..ctx() };
    assert_eq!(
        decide_move(req(11, 10, 0, false), outside),
        MoveDecision::Rejected { reason: MoveReject::InvalidCoord, teleport_back: true }
    );
}

#[test]
fn pack_window_opens_only_without_program_and_for_own_or_clanless_packs() {
    assert!(opens_pack_after_move(0, 0, 5));
    assert!(opens_pack_after_move(0, 5, 5));
    assert!(!opens_pack_after_move(0, 6, 5));
    assert!(!opens_pack_after_move(1, 0, 5));
}
