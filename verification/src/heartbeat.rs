//! Per-session liveness: pong tracking, round-trip time and the data of the
//! next ping. Times are milliseconds of a monotonic clock.
use vstd::prelude::*;
use crate::text::{push_decimal_i32, spec_decimal, string_push};

verus! {

/// The smallest and largest round-trip time a ping reports.
pub const RTT_MIN_MS: i32 = 1;
pub const RTT_MAX_MS: i32 = 99_999;

/// A client pong: the response id and the client's clock.
#[derive(Clone, Copy, Debug, PartialEq, Eq)]
pub struct PongClient {
    pub response: i32,
    pub current_time: i32,
}

/// What the next ping carries: the client time estimate and the text
/// (the round-trip time followed by a space).
#[derive(Clone, Debug, PartialEq, Eq)]
pub struct PingRequest {
    pub client_time: i32,
    pub text: String,
}

pub struct SessionHeartbeat {
    pong_at: u64,
    pi_sent_at: Option<u64>,
    rtt_ms: i32,
    pong_client_time: i32,
}

/// `a - b`, or zero when `b` is later (`Instant::saturating_duration_since`).
pub open spec fn elapsed_ms(a: u64, b: u64) -> int {
    if a >= b {
        a - b
    } else {
        0
    }
}

/// An elapsed time in milliseconds as an `i32`, saturating at `i32::MAX`.
pub open spec fn ms_as_i32(ms: int) -> int {
    if ms > i32::MAX {
        i32::MAX as int
    } else {
        ms
    }
}

/// The reported round trip: the elapsed time clamped to `1..=99_999`.
pub open spec fn clamp_rtt(ms: int) -> int {
    if ms < RTT_MIN_MS {
        RTT_MIN_MS as int
    } else if ms > RTT_MAX_MS {
        RTT_MAX_MS as int
    } else {
        ms
    }
}

/// `a + b` saturated to the `i32` range.
pub open spec fn sat_add_i32(a: int, b: int) -> int {
    if a + b > i32::MAX {
        i32::MAX as int
    } else if a + b < i32::MIN {
        i32::MIN as int
    } else {
        a + b
    }
}

fn elapsed_ms_exec(a: u64, b: u64) -> (r: u64)
    ensures
        r == elapsed_ms(a, b),
{
    if a >= b {
        a - b
    } else {
        0
    }
}

fn sat_add_i32_exec(a: i32, b: i32) -> (r: i32)
    ensures
        r == sat_add_i32(a as int, b as int),
{
    let sum = a as i64 + b as i64;
    if sum > i32::MAX as i64 {
        i32::MAX
    } else if sum < i32::MIN as i64 {
        i32::MIN
    } else {
        sum as i32
    }
}

fn ms_as_i32_exec(ms: u64) -> (r: i32)
    ensures
        r == ms_as_i32(ms as int),
{
    if ms > i32::MAX as u64 {
        i32::MAX
    } else {
        ms as i32
    }
}

impl SessionHeartbeat {
    /// Time of the last sign of life (connect, reset or pong).
    pub closed spec fn pong_at(&self) -> u64 {
        self.pong_at
    }

    /// When the last ping was sent, if any.
    pub closed spec fn ping_sent_at(&self) -> Option<u64> {
        self.pi_sent_at
    }

    /// The last measured round trip.
    pub closed spec fn rtt(&self) -> i32 {
        self.rtt_ms
    }

    /// The client clock of the last pong.
    pub closed spec fn client_time(&self) -> i32 {
        self.pong_client_time
    }

    /// A heartbeat that saw the client alive at `now`, with the configured
    /// initial round trip and no ping sent yet.
    pub fn new(now: u64, rtt_base_ms: i32) -> (r: Self)
        ensures
            r.pong_at() == now,
            r.ping_sent_at() is None,
            r.rtt() == rtt_base_ms,
            r.client_time() == 0,
    {
        SessionHeartbeat { pong_at: now, pi_sent_at: None, rtt_ms: rtt_base_ms, pong_client_time: 0 }
    }

    /// Treats `now` as a sign of life.
    pub fn reset_liveness(&mut self, now: u64)
        ensures
            final(self).pong_at() == now,
            final(self).ping_sent_at() == old(self).ping_sent_at(),
            final(self).rtt() == old(self).rtt(),
            final(self).client_time() == old(self).client_time(),
    {
        self.pong_at = now;
    }

    /// No sign of life for longer than `timeout`.
    pub fn is_timed_out(&self, now: u64, timeout: u64) -> (r: bool)
        ensures
            r == (elapsed_ms(now, self.pong_at()) > timeout),
    {
        elapsed_ms_exec(now, self.pong_at) > timeout
    }

    /// Records a pong: the client is alive at `now`, the round trip since the
    /// last ping (if one was sent) is measured, and the client clock kept.
    pub fn record_pong(&mut self, pong: &PongClient, now: u64)
        ensures
            final(self).pong_at() == now,
            final(self).ping_sent_at() == old(self).ping_sent_at(),
            final(self).client_time() == pong.current_time,
            final(self).rtt() == (match old(self).ping_sent_at() {
                Some(sent) => clamp_rtt(ms_as_i32(elapsed_ms(now, sent))),
                None => old(self).rtt() as int,
            }),
    {
        self.pong_at = now;
        if let Some(sent) = self.pi_sent_at {
            let rtt = ms_as_i32_exec(elapsed_ms_exec(now, sent));
            self.rtt_ms = if rtt < RTT_MIN_MS {
                RTT_MIN_MS
            } else if rtt > RTT_MAX_MS {
                RTT_MAX_MS
            } else {
                rtt
            };
        }
        self.pong_client_time = pong.current_time;
    }

    /// Prepares the next ping at `now`: the client time is the last pong's
    /// client clock plus the time since that pong plus one, saturating; the
    /// text is the round trip and a space. Remembers `now` as the ping time.
    pub fn next_ping_packet(&mut self, now: u64) -> (r: PingRequest)
        ensures
            final(self).ping_sent_at() == Some(now),
            final(self).pong_at() == old(self).pong_at(),
            final(self).rtt() == old(self).rtt(),
            final(self).client_time() == old(self).client_time(),
            r.client_time == sat_add_i32(
                sat_add_i32(
                    old(self).client_time() as int,
                    ms_as_i32(elapsed_ms(now, old(self).pong_at())),
                ),
                1,
            ),
            r.text@ == spec_decimal(old(self).rtt() as int).push(' '),
    {
        let since_pong_ms = ms_as_i32_exec(elapsed_ms_exec(now, self.pong_at));
        let client_time = sat_add_i32_exec(sat_add_i32_exec(self.pong_client_time, since_pong_ms), 1);
        let mut text = String::new();
        push_decimal_i32(&mut text, self.rtt_ms);
        string_push(&mut text, ' ');
        self.pi_sent_at = Some(now);
        PingRequest { client_time, text }
    }
}

/// A sign of life at `t` keeps the session from timing out at every moment
/// up to `t + timeout`.
pub proof fn lemma_alive_within_timeout(t: u64, now: u64, timeout: u64)
    requires
        now <= t + timeout,
    ensures
        !(elapsed_ms(now, t) > timeout),
{
}

/// A measured round trip always lies in `1..=99_999` ms, and is exact in
/// between.
pub proof fn lemma_rtt_in_range(ms: int)
    ensures
        RTT_MIN_MS <= clamp_rtt(ms_as_i32(ms)) <= RTT_MAX_MS,
        RTT_MIN_MS <= ms <= RTT_MAX_MS ==> clamp_rtt(ms_as_i32(ms)) == ms,
{
}

} // verus!
