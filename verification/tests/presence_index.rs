use openmines_server::due::{BotsRenderDue, BotsRenderSchedule};
use openmines_server::ids::{ChunkPos, EntityId, PlayerId, SessionId};
use openmines_server::player_init::DisconnectPlan;
use openmines_server::presence::{first_render_delay, ActivePlayer, Presence};

#[test]
fn active_players_are_replaced_on_reconnect_and_removed_on_leave() {
    let mut p = Presence::new();
    p.register_active_player(PlayerId(1), EntityId(10), SessionId(100));
    p.register_active_player(PlayerId(2), EntityId(20), SessionId(200));
    assert_eq!(p.online_count(), 2);
    p.register_active_player(PlayerId(1), EntityId(11), SessionId(101));
    assert_eq!(p.online_count(), 2);
    assert_eq!(p.get_active(PlayerId(1)), Some(ActivePlayer { entity: EntityId(11), session_id: SessionId(101) }));
    assert_eq!(p.active_session_for_player(PlayerId(2)), Some(SessionId(200)));
    assert_eq!(p.active_player_entity_for_session(PlayerId(1), SessionId(100)), None);
    assert_eq!(p.active_player_entity_for_session(PlayerId(1), SessionId(101)), Some(EntityId(11)));
    assert_eq!(p.remove_active_player(PlayerId(2)).map(|a| a.entity), Some(EntityId(20)));
    assert!(!p.is_player_active(PlayerId(2)));
    assert_eq!(p.remove_active_player(PlayerId(2)), None);
    assert_eq!(p.online_count(), 1);
}

#[test]
fn spawn_in_chunk_zero_zero_registers_in_chunk_players() {
    let mut p = Presence::new();
    p.register_player_chunk(PlayerId(7), ChunkPos(0, 0));
    p.register_player_chunk(PlayerId(7), ChunkPos(0, 0));
    p.register_player_chunk(PlayerId(8), ChunkPos(0, 0));
    p.register_player_chunk(PlayerId(9), ChunkPos(1, 0));
    assert_eq!(p.players_in_chunk(ChunkPos(0, 0)), vec![PlayerId(7), PlayerId(8)]);
    p.unregister_player_from_chunk(PlayerId(7), ChunkPos(0, 0));
    assert_eq!(p.players_in_chunk(ChunkPos(0, 0)), vec![PlayerId(8)]);
    assert_eq!(p.players_in_chunk(ChunkPos(5, 5)), vec![]);
}

#[test]
fn broadcasts_reach_active_sessions_except_the_sender() {
    let mut p = Presence::new();
    for (pid, chunk) in [(1, (0, 0)), (2, (0, 0)), (3, (1, 0)), (4, (9, 9))] {
        p.register_player_chunk(PlayerId(pid), ChunkPos(chunk.0, chunk.1));
    }
    p.register_active_player(PlayerId(1), EntityId(1), SessionId(11));
    p.register_active_player(PlayerId(3), EntityId(3), SessionId(33));
    p.register_active_player(PlayerId(4), EntityId(4), SessionId(44));
    // Player 2 is indexed but no longer active.
    assert_eq!(p.session_ids_in_chunk(ChunkPos(0, 0), None), vec![SessionId(11)]);
    assert_eq!(p.session_ids_in_chunk(ChunkPos(0, 0), Some(PlayerId(1))), vec![]);
    let visible = vec![(0, 0), (1, 0)];
    assert_eq!(p.nearby_session_ids(&visible, None), vec![SessionId(11), SessionId(33)]);
    assert_eq!(p.nearby_session_ids(&visible, Some(PlayerId(3))), vec![SessionId(11)]);
}

fn pass(pid: i32, at: u64, token: u64) -> BotsRenderDue {
    BotsRenderDue { due_at: at, player_id: PlayerId(pid), session_token: token }
}

#[test]
fn stale_render_passes_are_dropped_and_the_limit_counts_current_ones() {
    let mut p = Presence::new();
    p.register_active_player(PlayerId(1), EntityId(1), SessionId(5));
    p.register_active_player(PlayerId(2), EntityId(2), SessionId(6));
    let mut s = BotsRenderSchedule::new();
    s.schedule(pass(1, 10, 4)); // older session of player 1
    s.schedule(pass(2, 20, 6));
    s.schedule(pass(1, 30, 5));
    s.schedule(pass(3, 40, 1)); // player 3 is offline
    s.schedule(pass(2, 90, 6));
    let taken = p.take_due_bots_render(&mut s, 50, 1);
    assert_eq!(taken, vec![pass(2, 20, 6)]);
    let taken = p.take_due_bots_render(&mut s, 50, 10);
    assert_eq!(taken, vec![pass(1, 30, 5)]);
    assert_eq!(s.next_due_at(), Some(90));
    p.reschedule_bots_render(&mut s, pass(1, 30, 5), 70);
    p.reschedule_bots_render(&mut s, pass(1, 30, 4), 60);
    assert_eq!(s.next_due_at(), Some(70));
}

#[test]
fn first_render_passes_spread_over_the_interval() {
    // 4 s interval, 50 ms ticks: 80 slots.
    assert_eq!(first_render_delay(50, 4_000, 0), 50);
    assert_eq!(first_render_delay(50, 4_000, 79), 4_000);
    assert_eq!(first_render_delay(50, 4_000, 80), 50);
    assert_eq!(first_render_delay(0, 4_000, 3), 4);
    assert_eq!(first_render_delay(10_000, 4_000, 7), 10_000);
}

#[test]
fn disconnect_keeps_running_programmator_entity_offline() {
    let mut p = Presence::new();
    let pid = PlayerId(1);
    p.register_active_player(pid, EntityId(9), SessionId(123));
    p.register_player_chunk(pid, ChunkPos(0, 0));
    let visible = vec![(0u32, 0u32), (1, 0), (0, 1), (1, 1)];
    let effects = p.disconnect_in_tick(pid, SessionId(123), (0, 0), &visible, true, true);
    assert_eq!(effects.plan, DisconnectPlan::KeepOffline);
    assert!(effects.save_row);
    assert_eq!(effects.fanout, Some(vec![]));
    assert!(!p.is_player_active(pid));
    assert!(p.players_in_chunk(ChunkPos(0, 0)).is_empty());
    let stale = p.disconnect_in_tick(pid, SessionId(123), (0, 0), &visible, true, true);
    assert_eq!(stale.plan, DisconnectPlan::Stale);
    assert!(!stale.save_row);
    assert_eq!(stale.fanout, None);
}

#[test]
fn disconnect_tells_the_players_in_view_and_despawns_without_programmator() {
    let mut p = Presence::new();
    p.register_active_player(PlayerId(1), EntityId(9), SessionId(11));
    p.register_active_player(PlayerId(2), EntityId(8), SessionId(22));
    p.register_player_chunk(PlayerId(1), ChunkPos(0, 0));
    p.register_player_chunk(PlayerId(2), ChunkPos(1, 0));
    let visible = vec![(0u32, 0u32), (1, 0)];
    // A session that is not the player's current one does nothing.
    let stale = p.disconnect_in_tick(PlayerId(1), SessionId(99), (0, 0), &visible, false, true);
    assert_eq!(stale.plan, DisconnectPlan::Stale);
    assert!(p.is_player_active(PlayerId(1)));
    let effects = p.disconnect_in_tick(PlayerId(1), SessionId(11), (0, 0), &visible, false, false);
    assert_eq!(effects.plan, DisconnectPlan::Despawn);
    assert!(!effects.save_row);
    assert_eq!(effects.fanout, Some(vec![SessionId(22)]));
}
