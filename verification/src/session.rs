//! The per-connection session machine: where the connection stands in
//! authentication, when heartbeats may start, what a heartbeat tick does,
//! and where an incoming packet goes.
use vstd::prelude::*;
use crate::auth_limit::{spec_next_fails, AuthFailures, AUTH_FAILURE_LIMIT};
use crate::heartbeat::{clamp_rtt, elapsed_ms, ms_as_i32, sat_add_i32, PingRequest, PongClient, SessionHeartbeat};
use crate::text::spec_decimal;
use crate::ids::PlayerId;
use crate::session_state::{AuthState, HeartbeatGate};
use crate::text::{chars_equal_str, str_chars};

verus! {

/// What a heartbeat tick does.
#[derive(Debug)]
pub enum TickAction {
    /// Heartbeats have not started yet.
    Skip,
    /// The client stopped answering: close the connection.
    Disconnect,
    /// Send this ping.
    Ping(PingRequest),
}

/// Where an incoming packet goes.
#[derive(Clone, Copy, Debug, PartialEq, Eq, Structural)]
pub enum PacketRoute {
    /// A pong: liveness and round trip (in any state).
    Pong,
    /// A login (`AU`) before authentication.
    Login,
    /// A `TY` packet during the GUI login dialog (only its `GUI_` buttons count).
    GuiDialog,
    /// A `TY` command of an authenticated player.
    Command,
    /// Anything else is dropped.
    Ignore,
}

/// Where packets go in each authentication state.
pub open spec fn spec_route(auth: AuthState, event: Seq<char>) -> PacketRoute {
    if event == "PO"@ {
        PacketRoute::Pong
    } else {
        match auth {
            AuthState::PreAuth => if event == "AU"@ {
                PacketRoute::Login
            } else {
                PacketRoute::Ignore
            },
            AuthState::GuiAuth(_) => if event == "TY"@ {
                PacketRoute::GuiDialog
            } else {
                PacketRoute::Ignore
            },
            AuthState::Authenticated { .. } => if event == "TY"@ {
                PacketRoute::Command
            } else {
                PacketRoute::Ignore
            },
        }
    }
}

/// The state of one connection.
pub struct SessionMachine {
    auth: AuthState,
    gate: HeartbeatGate,
    heartbeat: SessionHeartbeat,
}

impl SessionMachine {
    pub closed spec fn auth(&self) -> AuthState {
        self.auth
    }

    pub closed spec fn gate(&self) -> HeartbeatGate {
        self.gate
    }

    pub closed spec fn heartbeat(&self) -> SessionHeartbeat {
        self.heartbeat
    }

    /// A fresh connection at `now`: not authenticated, heartbeats waiting
    /// for the authentication response.
    pub fn new(now: u64, rtt_base_ms: i32) -> (r: Self)
        ensures
            r.auth() == AuthState::PreAuth,
            r.gate() == HeartbeatGate::WaitingForAuthResponse,
            r.heartbeat().pong_at() == now,
            r.heartbeat().ping_sent_at() is None,
            r.heartbeat().rtt() == rtt_base_ms,
    {
        SessionMachine {
            auth: AuthState::PreAuth,
            gate: HeartbeatGate::WaitingForAuthResponse,
            heartbeat: SessionHeartbeat::new(now, rtt_base_ms),
        }
    }

    /// The authenticated player, if any.
    pub fn player_id(&self) -> (r: Option<PlayerId>)
        ensures
            r == (match self.auth() {
                AuthState::Authenticated { player_id } => Some(player_id),
                _ => None,
            }),
    {
        self.auth.player_id()
    }

    /// Where a packet with event `event` goes in the current state.
    pub fn route(&self, event: &str) -> (r: PacketRoute)
        ensures
            r == spec_route(self.auth(), event@),
    {
        let e = str_chars(event);
        if chars_equal_str(&e, "PO") {
            return PacketRoute::Pong;
        }
        match &self.auth {
            AuthState::PreAuth => if chars_equal_str(&e, "AU") {
                PacketRoute::Login
            } else {
                PacketRoute::Ignore
            },
            AuthState::GuiAuth(_) => if chars_equal_str(&e, "TY") {
                PacketRoute::GuiDialog
            } else {
                PacketRoute::Ignore
            },
            AuthState::Authenticated { .. } => if chars_equal_str(&e, "TY") {
                PacketRoute::Command
            } else {
                PacketRoute::Ignore
            },
        }
    }

    /// A heartbeat tick at `now`: nothing until heartbeats are enabled; then
    /// a client silent for longer than `timeout_ms` is disconnected, and
    /// otherwise pinged.
    pub fn on_heartbeat_tick(&mut self, now: u64, timeout_ms: u64) -> (r: TickAction)
        ensures
            final(self).auth() == old(self).auth(),
            final(self).gate() == old(self).gate(),
            old(self).gate() != HeartbeatGate::Enabled ==> r is Skip && final(self).heartbeat()
                == old(self).heartbeat(),
            old(self).gate() == HeartbeatGate::Enabled && elapsed_ms(now, old(self).heartbeat().pong_at())
                > timeout_ms ==> r is Disconnect && final(self).heartbeat() == old(self).heartbeat(),
            old(self).gate() == HeartbeatGate::Enabled && elapsed_ms(now, old(self).heartbeat().pong_at())
                <= timeout_ms ==> r is Ping && final(self).heartbeat().ping_sent_at() == Some(now)
                && final(self).heartbeat().pong_at() == old(self).heartbeat().pong_at()
                && final(self).heartbeat().rtt() == old(self).heartbeat().rtt()
                && final(self).heartbeat().client_time() == old(self).heartbeat().client_time(),
            r matches TickAction::Ping(p) ==> p.client_time == sat_add_i32(
                sat_add_i32(
                    old(self).heartbeat().client_time() as int,
                    ms_as_i32(elapsed_ms(now, old(self).heartbeat().pong_at())),
                ),
                1,
            ) && p.text@ == spec_decimal(old(self).heartbeat().rtt() as int).push(' '),
    {
        if !self.gate.is_enabled() {
            return TickAction::Skip;
        }
        if self.heartbeat.is_timed_out(now, timeout_ms) {
            return TickAction::Disconnect;
        }
        TickAction::Ping(self.heartbeat.next_ping_packet(now))
    }

    /// A pong arrived at `now` (accepted in every state).
    pub fn on_pong(&mut self, pong: &PongClient, now: u64)
        ensures
            final(self).auth() == old(self).auth(),
            final(self).gate() == old(self).gate(),
            final(self).heartbeat().pong_at() == now,
            final(self).heartbeat().client_time() == pong.current_time,
            final(self).heartbeat().ping_sent_at() == old(self).heartbeat().ping_sent_at(),
            final(self).heartbeat().rtt() == (match old(self).heartbeat().ping_sent_at() {
                Some(sent) => clamp_rtt(ms_as_i32(elapsed_ms(now, sent))),
                None => old(self).heartbeat().rtt() as int,
            }),
    {
        self.heartbeat.record_pong(pong, now);
    }

    /// The answer to a login: the connection moves to `new_state` and the
    /// authentication response is queued. A failed login (`player` is
    /// `None`) counts against the client address; the result says whether
    /// the connection stays open (it closes once the address is blocked).
    pub fn on_login_answer(
        &mut self,
        new_state: AuthState,
        player: Option<PlayerId>,
        failures: &mut AuthFailures,
        addr: u128,
        now: u64,
    ) -> (r: bool)
        requires
            old(failures).wf(),
            spec_next_fails(old(failures).failures(addr), now) <= u32::MAX,
        ensures
            final(self).auth() == new_state,
            final(self).gate() == HeartbeatGate::AuthResponseQueued,
            final(self).heartbeat() == old(self).heartbeat(),
            final(failures).wf(),
            player is Some ==> r && *final(failures) == *old(failures),
            player is None ==> final(failures).failures(addr) == Some(
                (spec_next_fails(old(failures).failures(addr), now) as u32, now),
            ) && (forall|a: u128| a != addr ==> final(failures).failures(a) == old(failures).failures(a))
                && r == (spec_next_fails(old(failures).failures(addr), now) < AUTH_FAILURE_LIMIT),
    {
        self.auth = new_state;
        self.gate.mark_auth_response_queued();
        match player {
            Some(_) => true,
            None => failures.record_auth_failure_by_addr(addr, now).is_none(),
        }
    }

    /// The GUI login dialog logged `player` in.
    pub fn on_gui_login(&mut self, player: PlayerId)
        ensures
            final(self).auth() == (AuthState::Authenticated { player_id: player }),
            final(self).gate() == HeartbeatGate::AuthResponseQueued,
            final(self).heartbeat() == old(self).heartbeat(),
    {
        self.auth = AuthState::Authenticated { player_id: player };
        self.gate.mark_auth_response_queued();
    }

    /// The outbox was flushed at `now`: once the authentication response is
    /// out, heartbeats start and the client counts as alive from now.
    pub fn on_outbox_flushed(&mut self, now: u64)
        ensures
            final(self).auth() == old(self).auth(),
            old(self).gate() == HeartbeatGate::AuthResponseQueued ==> final(self).gate()
                == HeartbeatGate::Enabled && final(self).heartbeat().pong_at() == now
                && final(self).heartbeat().ping_sent_at() == old(self).heartbeat().ping_sent_at()
                && final(self).heartbeat().rtt() == old(self).heartbeat().rtt()
                && final(self).heartbeat().client_time() == old(self).heartbeat().client_time(),
            old(self).gate() != HeartbeatGate::AuthResponseQueued ==> final(self).gate() == old(
                self,
            ).gate() && final(self).heartbeat() == old(self).heartbeat(),
    {
        if self.gate.enable_if_auth_response_flushed() {
            self.heartbeat.reset_liveness(now);
        }
    }
}

/// The connection closes once its address is blocked for some time.
pub fn closes_for_block(blocked_remaining: Option<u64>) -> (r: bool)
    ensures
        r == (blocked_remaining matches Some(d) && d > 0),
{
    match blocked_remaining {
        Some(d) => d > 0,
        None => false,
    }
}

} // verus!
