use openmines_server::bots_render::{observer_payload, plan_bots_render_batch};
use openmines_server::chunk_sync::{
    cleared_blocks, group_packs_by_block, left_chunk_recipients, prepare_chunk_changed, PlayerView,
    chunk_origin_u16, chunk_registration_change, chunk_view_diff, ChunkMove, HbBundler,
};
use openmines_server::chunks::{gun_candidate_chunks, visible_chunks_around};
use openmines_server::due::BotsRenderDue;
use openmines_server::packs::PackOverlay;
use openmines_server::presence::Presence;
use openmines_server::ids::{ChunkPos, EntityId, PlayerId, SessionId};

#[test]
fn view_diff_lists_entered_and_left_chunks_in_order() {
    let old = vec![(0, 0), (1, 0), (2, 0)];
    let new = vec![(1, 0), (2, 0), (3, 0), (4, 0)];
    let d = chunk_view_diff(&old, &new);
    assert_eq!(d.entered, vec![(3, 0), (4, 0)]);
    assert_eq!(d.left, vec![(0, 0)]);
    let same = chunk_view_diff(&old, &old);
    assert!(same.entered.is_empty() && same.left.is_empty());
}

#[test]
fn spawn_in_chunk_zero_zero_registers_the_player() {
    assert_eq!(
        chunk_registration_change(None, (0, 0)),
        Some(ChunkMove { from: None, to: (0, 0) })
    );
    assert_eq!(chunk_registration_change(Some((0, 0)), (0, 0)), None);
    assert_eq!(
        chunk_registration_change(Some((0, 0)), (1, 0)),
        Some(ChunkMove { from: Some((0, 0)), to: (1, 0) })
    );
}

#[test]
fn chunk_origin_caps_at_u16_max() {
    assert_eq!(chunk_origin_u16(0), 0);
    assert_eq!(chunk_origin_u16(3), 96);
    assert_eq!(chunk_origin_u16(2047), 65504);
    assert_eq!(chunk_origin_u16(2048), 65535);
}

#[test]
fn bundler_closes_full_bundles_at_chunk_ends_and_keeps_every_packet() {
    let mut b = HbBundler::new(2, 100);
    b.push(vec![1]);
    assert!(!b.end_chunk());
    b.push(vec![2]);
    b.push(vec![3]);
    assert!(b.end_chunk());
    b.push(vec![4; 200]);
    assert!(b.end_chunk());
    b.push(vec![5]);
    assert!(!b.end_chunk());
    let bundles = b.finish();
    assert_eq!(
        bundles,
        vec![vec![vec![1], vec![2], vec![3]], vec![vec![4; 200]], vec![vec![5]]]
    );
    assert!(HbBundler::new(1, 1).finish().is_empty());
}

#[test]
fn visible_chunks_are_the_clipped_five_by_five_block() {
    let v = visible_chunks_around(0, 0, 10, 10);
    assert_eq!(v.len(), 9);
    assert_eq!(v[0], (0, 0));
    assert_eq!(v[8], (2, 2));
    let mid = visible_chunks_around(5, 5, 10, 10);
    assert_eq!(mid.len(), 25);
    assert_eq!(mid[0], (3, 3));
    assert_eq!(mid[24], (7, 7));
}

#[test]
fn gun_candidates_are_the_three_by_three_block() {
    let g = gun_candidate_chunks(0, 0);
    assert_eq!(g, vec![ChunkPos(0, 0), ChunkPos(1, 0), ChunkPos(0, 1), ChunkPos(1, 1)]);
    assert_eq!(gun_candidate_chunks(5, 5).len(), 9);
}

fn due(p: i32) -> BotsRenderDue {
    BotsRenderDue { due_at: 0, player_id: PlayerId(p), session_token: p as u64 }
}

#[test]
fn bots_render_budget_defers_the_rest_after_the_first_overrun() {
    let observers = vec![(due(1), 50), (due(2), 0), (due(3), 50), (due(4), 10)];
    let r = plan_bots_render_batch(observers, vec![due(9)], 3, 100);
    // 57 bytes sent; the empty view is served without a packet; 57 + 57 > 100.
    assert_eq!(r.completed, vec![due(1), due(2)]);
    assert_eq!(r.deferred, vec![due(9), due(3), due(4)]);
    assert_eq!(r.observers_sent, 1);
    assert_eq!(r.bytes_enqueued, 57);
    assert_eq!(r.snapshot_chunks, 3);
}

#[test]
fn bots_render_always_serves_the_first_observer() {
    let r = plan_bots_render_batch(vec![(due(1), 500), (due(2), 1)], vec![], 0, 10);
    assert_eq!(r.completed, vec![due(1)]);
    assert_eq!(r.deferred, vec![due(2)]);
    assert_eq!(r.bytes_enqueued, 507);
}

#[test]
fn chunk_change_updates_view_and_index_once() {
    let mut presence = Presence::new();
    let pid = PlayerId(4);
    presence.register_active_player(pid, EntityId(1), SessionId(2));
    let mut view = PlayerView { last_chunk: None, visible_chunks: vec![] };
    // First placement after spawning, in chunk (0, 0).
    let diff = prepare_chunk_changed(&mut presence, pid, &mut view, (0, 0), 10, 10).unwrap();
    assert_eq!(view.last_chunk, Some((0, 0)));
    assert_eq!(view.visible_chunks.len(), 9);
    assert_eq!(diff.entered.len(), 9);
    assert!(diff.left.is_empty());
    assert_eq!(presence.players_in_chunk(ChunkPos(0, 0)), vec![pid]);
    // A second call in the same chunk changes nothing.
    assert!(prepare_chunk_changed(&mut presence, pid, &mut view, (0, 0), 10, 10).is_none());
    // Moving on re-registers the player and reports the view change.
    let diff = prepare_chunk_changed(&mut presence, pid, &mut view, (1, 0), 10, 10).unwrap();
    assert!(presence.players_in_chunk(ChunkPos(0, 0)).is_empty());
    assert_eq!(presence.players_in_chunk(ChunkPos(1, 0)), vec![pid]);
    assert_eq!(diff.entered, vec![(3, 0), (3, 1), (3, 2)]);
    assert!(diff.left.is_empty());
}

#[test]
fn observer_payload_skips_the_observers_own_bot() {
    let items = vec![
        (Some(PlayerId(1)), vec![1u8, 2]),
        (Some(PlayerId(2)), vec![3u8]),
        (None, vec![4u8, 5]),
        (Some(PlayerId(1)), vec![6u8]),
    ];
    assert_eq!(observer_payload(&items, PlayerId(1)), vec![3, 4, 5]);
    assert_eq!(observer_payload(&items, PlayerId(9)), vec![1, 2, 3, 4, 5, 6]);
    assert!(observer_payload(&vec![], PlayerId(1)).is_empty());
}

#[test]
fn blocks_are_cleared_once_and_packs_grouped_by_block() {
    assert_eq!(cleared_blocks(&vec![7, 3, 7, 9, 3]), vec![7, 3, 9]);
    assert!(cleared_blocks(&vec![]).is_empty());
    let o = |code: u8| PackOverlay { code, x: 1, y: 2, clan: 0, off: 0 };
    let groups = group_packs_by_block(&vec![(5, o(1)), (8, o(2)), (5, o(3))]);
    assert_eq!(groups, vec![(5, vec![o(1), o(3)]), (8, vec![o(2)])]);
}

#[test]
fn players_in_chunks_that_left_view_are_told_except_the_mover() {
    let mut presence = Presence::new();
    presence.register_active_player(PlayerId(1), EntityId(1), SessionId(11));
    presence.register_active_player(PlayerId(2), EntityId(2), SessionId(22));
    presence.register_player_chunk(PlayerId(1), ChunkPos(0, 0));
    presence.register_player_chunk(PlayerId(2), ChunkPos(0, 0));
    let r = left_chunk_recipients(&presence, PlayerId(1), &vec![(0, 0), (5, 5)]);
    assert_eq!(r, vec![vec![SessionId(22)], vec![]]);
}
