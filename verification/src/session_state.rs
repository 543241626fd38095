//! Connection-level authentication state and the heartbeat gate.
use vstd::prelude::*;
use crate::ids::PlayerId;

verus! {

/// Where a connection stands in authentication.
#[derive(Clone, Debug, PartialEq, Eq)]
pub enum AuthState {
    PreAuth,
    GuiAuth(GuiAuthStep),
    Authenticated { player_id: PlayerId },
}

impl AuthState {
    /// The authenticated player, if any.
    pub fn player_id(&self) -> (r: Option<PlayerId>)
        ensures
            r == (match *self {
                AuthState::Authenticated { player_id } => Some(player_id),
                _ => None,
            }),
    {
        match self {
            AuthState::Authenticated { player_id } => Some(*player_id),
            AuthState::PreAuth => None,
            AuthState::GuiAuth(_) => None,
        }
    }
}

/// Sub-state of the login / registration dialog driven by the client GUI.
#[derive(Clone, Debug, PartialEq, Eq)]
pub enum GuiAuthStep {
    /// Default window: nick input and a "new account" button.
    MainMenu,
    /// Player found by nick, waiting for the password.
    LoginPassword { nick: String },
    /// New account: waiting for the nick.
    RegisterNick,
    /// New account: nick accepted, waiting for the password.
    RegisterPassword { nick: String },
}

/// Heartbeats start only once the authentication response has left the outbox.
#[derive(Clone, Copy, Debug, PartialEq, Eq, Structural)]
pub enum HeartbeatGate {
    WaitingForAuthResponse,
    AuthResponseQueued,
    Enabled,
}

impl HeartbeatGate {
    /// Heartbeats may be sent.
    pub fn is_enabled(self) -> (r: bool)
        ensures
            r == (self == HeartbeatGate::Enabled),
    {
        match self {
            HeartbeatGate::Enabled => true,
            _ => false,
        }
    }

    /// The authentication response has been queued for sending.
    pub fn mark_auth_response_queued(&mut self)
        ensures
            *final(self) == HeartbeatGate::AuthResponseQueued,
    {
        *self = HeartbeatGate::AuthResponseQueued;
    }

    /// Once the queued authentication response is flushed, enables heartbeats;
    /// reports whether this call enabled them.
    pub fn enable_if_auth_response_flushed(&mut self) -> (r: bool)
        ensures
            r == (*old(self) == HeartbeatGate::AuthResponseQueued),
            *final(self) == (if r {
                HeartbeatGate::Enabled
            } else {
                *old(self)
            }),
    {
        if *self == HeartbeatGate::AuthResponseQueued {
            *self = HeartbeatGate::Enabled;
            true
        } else {
            false
        }
    }
}

} // verus!
