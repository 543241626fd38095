use openmines_server::fanout::{coalesce_movement_burst, MovementFanout};
use openmines_server::ids::{PlayerId, SessionId};

fn movement(player_id: i32, byte: u8) -> MovementFanout {
    MovementFanout {
        player_id: PlayerId(player_id),
        recipients: vec![SessionId(player_id as u64)],
        data: vec![byte],
    }
}

#[test]
fn movement_burst_keeps_latest_packet_in_last_update_order() {
    let fanouts = coalesce_movement_burst(vec![movement(2, 20), movement(1, 10), movement(2, 21)]);
    assert_eq!(
        fanouts,
        vec![(vec![SessionId(1)], vec![10]), (vec![SessionId(2)], vec![21])]
    );
}

#[test]
fn a_single_update_burst_is_delivered_as_is() {
    let fanouts = coalesce_movement_burst(vec![movement(1, 10)]);
    assert_eq!(fanouts, vec![(vec![SessionId(1)], vec![10])]);
    assert!(coalesce_movement_burst(vec![]).is_empty());
}
