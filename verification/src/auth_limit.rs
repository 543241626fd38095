//! Brute-force protection for logins: failures are counted per client
//! address inside a sliding window, and an address that reached the limit
//! is blocked for a while. Times are milliseconds of a monotonic clock.
use vstd::prelude::*;

verus! {

/// Failures that block an address.
pub const AUTH_FAILURE_LIMIT: u32 = 6;

/// A failure older than this (strictly) restarts the count.
pub const AUTH_FAILURE_WINDOW_MS: u64 = 30_000;

/// How long a blocked address stays blocked after its last failure.
pub const AUTH_BLOCK_DURATION_MS: u64 = 20_000;

/// Failure count and time of the last failure of one address.
#[derive(Clone, Copy, Debug, PartialEq, Eq)]
pub struct AuthFailure {
    pub addr: u128,
    pub fails: u32,
    pub last: u64,
}

/// `now - since`, or zero when `since` is later.
pub open spec fn elapsed(now: u64, since: u64) -> int {
    if now >= since {
        now - since
    } else {
        0
    }
}

/// The record of `addr` in `s`, searching from the back.
pub open spec fn entry_of(s: Seq<AuthFailure>, addr: u128) -> Option<(u32, u64)>
    decreases s.len(),
{
    if s.len() == 0 {
        None
    } else if s.last().addr == addr {
        Some((s.last().fails, s.last().last))
    } else {
        entry_of(s.drop_last(), addr)
    }
}

pub open spec fn no_duplicate_addrs(s: Seq<AuthFailure>) -> bool {
    forall|i: int, j: int| 0 <= i < j < s.len() ==> (#[trigger] s[i]).addr != (#[trigger] s[j]).addr
}

proof fn lemma_entry_of(s: Seq<AuthFailure>, addr: u128)
    requires
        no_duplicate_addrs(s),
    ensures
        forall|i: int|
            0 <= i < s.len() && (#[trigger] s[i]).addr == addr ==> entry_of(s, addr) == Some(
                (s[i].fails, s[i].last),
            ),
        (forall|i: int| 0 <= i < s.len() ==> (#[trigger] s[i]).addr != addr) ==> entry_of(s, addr)
            is None,
    decreases s.len(),
{
    if s.len() > 0 {
        let t = s.drop_last();
        assert(no_duplicate_addrs(t)) by {
            assert forall|i: int, j: int| 0 <= i < j < t.len() implies (#[trigger] t[i]).addr
                != (#[trigger] t[j]).addr by {
                assert(t[i] == s[i] && t[j] == s[j]);
            }
        }
        lemma_entry_of(t, addr);
        assert forall|i: int|
            0 <= i < s.len() && (#[trigger] s[i]).addr == addr implies entry_of(s, addr) == Some(
            (s[i].fails, s[i].last),
        ) by {
            if i < s.len() - 1 {
                assert(t[i] == s[i]);
                assert(s[s.len() - 1].addr != addr);
            }
        }
        if forall|i: int| 0 <= i < s.len() ==> (#[trigger] s[i]).addr != addr {
            assert forall|i: int| 0 <= i < t.len() implies (#[trigger] t[i]).addr != addr by {
                assert(t[i] == s[i]);
            }
            assert(s[s.len() - 1].addr != addr);
        }
    }
}

/// What blocks `addr` at `now`: the remaining block time, if it is blocked.
pub open spec fn spec_blocked_remaining(entry: Option<(u32, u64)>, now: u64) -> Option<u64> {
    match entry {
        Some((fails, last)) => if fails >= AUTH_FAILURE_LIMIT && elapsed(now, last)
            < AUTH_BLOCK_DURATION_MS {
            Some((AUTH_BLOCK_DURATION_MS - elapsed(now, last)) as u64)
        } else {
            None
        },
        None => None,
    }
}

/// The failure count after one more failure at `now`: a fresh window
/// starts at one, otherwise the count goes up by one.
pub open spec fn spec_next_fails(entry: Option<(u32, u64)>, now: u64) -> int {
    match entry {
        Some((fails, last)) => if elapsed(now, last) > AUTH_FAILURE_WINDOW_MS {
            1
        } else {
            fails + 1
        },
        None => 1,
    }
}

/// A record survives pruning at `now` while its last failure is younger
/// than the window.
pub open spec fn spec_pruned(entry: Option<(u32, u64)>, now: u64) -> Option<(u32, u64)> {
    match entry {
        Some((fails, last)) => if elapsed(now, last) < AUTH_FAILURE_WINDOW_MS {
            Some((fails, last))
        } else {
            None
        },
        None => None,
    }
}

/// A failure that reaches the limit blocks its address at once, for the
/// whole block duration.
pub proof fn lemma_limit_blocks_at_once(entry: Option<(u32, u64)>, now: u64)
    requires
        AUTH_FAILURE_LIMIT <= spec_next_fails(entry, now) <= u32::MAX,
    ensures
        spec_blocked_remaining(Some((spec_next_fails(entry, now) as u32, now)), now) == Some(
            AUTH_BLOCK_DURATION_MS,
        ),
{
}

/// A block never lasts longer than the block duration, and is over once
/// that long has passed since the last failure.
pub proof fn lemma_block_is_bounded(entry: Option<(u32, u64)>, now: u64)
    ensures
        spec_blocked_remaining(entry, now) matches Some(d) ==> 0 < d <= AUTH_BLOCK_DURATION_MS,
        entry matches Some((_, last)) && elapsed(now, last) >= AUTH_BLOCK_DURATION_MS
            ==> spec_blocked_remaining(entry, now) is None,
{
}

/// Pruning never lifts a block: the block is shorter than the window, so a
/// blocked address keeps its record.
pub proof fn lemma_prune_keeps_blocks(entry: Option<(u32, u64)>, now: u64)
    requires
        spec_blocked_remaining(entry, now) is Some,
    ensures
        spec_pruned(entry, now) == entry,
        spec_blocked_remaining(spec_pruned(entry, now), now) == spec_blocked_remaining(entry, now),
{
}

/// The record of an address after failures at `times`, one after another,
/// starting from `entry`.
pub open spec fn record_failures(entry: Option<(u32, u64)>, times: Seq<u64>) -> Option<(u32, u64)>
    decreases times.len(),
{
    if times.len() == 0 {
        entry
    } else {
        let prev = record_failures(entry, times.drop_last());
        Some((spec_next_fails(prev, times.last()) as u32, times.last()))
    }
}

/// The failures come in time order, each within the window of the one before.
pub open spec fn is_burst(times: Seq<u64>) -> bool {
    forall|i: int| 0 < i < times.len() ==> times[i - 1] <= #[trigger] times[i] && times[i] - times[i - 1]
        <= AUTH_FAILURE_WINDOW_MS
}

/// Before the first failure at `t` the address has no record, or only one
/// older than the window.
pub open spec fn starts_fresh(entry: Option<(u32, u64)>, t: u64) -> bool {
    match entry {
        Some((_, last)) => elapsed(t, last) > AUTH_FAILURE_WINDOW_MS,
        None => true,
    }
}

/// A burst of `k` failures from a fresh start counts `k`: the `k`-th
/// failure blocks the address exactly when `k` reaches the limit, and the
/// block then runs for the block duration from the last failure.
pub proof fn lemma_failure_burst(entry: Option<(u32, u64)>, times: Seq<u64>, now: u64)
    requires
        1 <= times.len() <= u32::MAX,
        is_burst(times),
        starts_fresh(entry, times[0]),
        now >= times.last(),
    ensures
        record_failures(entry, times) == Some((times.len() as u32, times.last())),
        spec_next_fails(record_failures(entry, times.drop_last()), times.last()) == times.len(),
        spec_blocked_remaining(record_failures(entry, times), now) == (if times.len() >= AUTH_FAILURE_LIMIT
            && now - times.last() < AUTH_BLOCK_DURATION_MS {
            Some((AUTH_BLOCK_DURATION_MS - (now - times.last())) as u64)
        } else {
            None
        }),
    decreases times.len(),
{
    let t = times.drop_last();
    if t.len() > 0 {
        assert(is_burst(t)) by {
            assert forall|i: int| 0 < i < t.len() implies t[i - 1] <= #[trigger] t[i] && t[i] - t[i - 1]
                <= AUTH_FAILURE_WINDOW_MS by {
                assert(t[i] == times[i] && t[i - 1] == times[i - 1]);
            }
        }
        assert(t[0] == times[0]);
        assert(times[times.len() - 1] == times.last());
        assert(t.last() == times[times.len() - 2]);
        lemma_failure_burst(entry, t, t.last());
        assert(times[times.len() - 2] <= times[times.len() - 1]);
    } else {
        assert(times.last() == times[0]);
    }
}

/// Failure records of all addresses.
pub struct AuthFailures {
    entries: Vec<AuthFailure>,
}

impl AuthFailures {
    /// The failure record of each address.
    pub closed spec fn failures(&self, addr: u128) -> Option<(u32, u64)> {
        entry_of(self.entries@, addr)
    }

    pub closed spec fn wf(&self) -> bool {
        no_duplicate_addrs(self.entries@)
    }

    pub fn new() -> (r: Self)
        ensures
            r.wf(),
            forall|a: u128| r.failures(a) is None,
    {
        AuthFailures { entries: Vec::new() }
    }

    fn find(&self, addr: u128) -> (r: Option<usize>)
        requires
            self.wf(),
        ensures
            match r {
                Some(i) => i < self.entries@.len() && self.entries@[i as int].addr == addr,
                None => forall|i: int|
                    0 <= i < self.entries@.len() ==> (#[trigger] self.entries@[i]).addr != addr,
            },
    {
        let mut i: usize = 0;
        while i < self.entries.len()
            invariant
                i <= self.entries@.len(),
                forall|j: int| 0 <= j < i ==> (#[trigger] self.entries@[j]).addr != addr,
            decreases self.entries@.len() - i,
        {
            if self.entries[i].addr == addr {
                return Some(i);
            }
            i = i + 1;
        }
        None
    }

    /// How long `addr` stays blocked at `now`, or `None` when it is not.
    pub fn auth_blocked_remaining_by_addr(&self, addr: u128, now: u64) -> (r: Option<u64>)
        requires
            self.wf(),
        ensures
            r == spec_blocked_remaining(self.failures(addr), now),
    {
        proof {
            lemma_entry_of(self.entries@, addr);
        }
        match self.find(addr) {
            None => None,
            Some(i) => {
                let e = self.entries[i];
                if e.fails >= AUTH_FAILURE_LIMIT {
                    let el = if now >= e.last {
                        now - e.last
                    } else {
                        0
                    };
                    if el < AUTH_BLOCK_DURATION_MS {
                        return Some(AUTH_BLOCK_DURATION_MS - el);
                    }
                }
                None
            },
        }
    }

    /// Counts a failure of `addr` at `now`; returns the block duration when
    /// the address has now reached the failure limit.
    pub fn record_auth_failure_by_addr(&mut self, addr: u128, now: u64) -> (r: Option<u64>)
        requires
            old(self).wf(),
            spec_next_fails(old(self).failures(addr), now) <= u32::MAX,
        ensures
            final(self).wf(),
            final(self).failures(addr) == Some(
                (spec_next_fails(old(self).failures(addr), now) as u32, now),
            ),
            forall|a: u128| a != addr ==> final(self).failures(a) == old(self).failures(a),
            r == (if spec_next_fails(old(self).failures(addr), now) >= AUTH_FAILURE_LIMIT {
                Some(AUTH_BLOCK_DURATION_MS)
            } else {
                None
            }),
    {
        proof {
            lemma_entry_of(self.entries@, addr);
        }
        let fails = match self.find(addr) {
            Some(i) => {
                let e = self.entries[i];
                let el = if now >= e.last {
                    now - e.last
                } else {
                    0
                };
                let fails = if el > AUTH_FAILURE_WINDOW_MS {
                    1
                } else {
                    e.fails + 1
                };
                self.entries.set(i, AuthFailure { addr, fails, last: now });
                proof {
                    let s = self.entries@;
                    assert(no_duplicate_addrs(s)) by {
                        assert forall|x: int, y: int| 0 <= x < y < s.len() implies (
                        #[trigger] s[x]).addr != (#[trigger] s[y]).addr by {
                            assert(s[x].addr == old(self).entries@[x].addr);
                            assert(s[y].addr == old(self).entries@[y].addr);
                        }
                    }
                    lemma_entry_of(s, addr);
                    assert(s[i as int].addr == addr);
                    assert forall|a: u128| a != addr implies entry_of(s, a) == entry_of(
                        old(self).entries@,
                        a,
                    ) by {
                        lemma_entry_of(s, a);
                        lemma_entry_of(old(self).entries@, a);
                        if exists|j: int| 0 <= j < s.len() && (#[trigger] s[j]).addr == a {
                            let j = choose|j: int| 0 <= j < s.len() && (#[trigger] s[j]).addr == a;
                            assert(old(self).entries@[j] == s[j]);
                        } else {
                            assert forall|j: int| 0 <= j < s.len() implies (
                            #[trigger] old(self).entries@[j]).addr != a by {
                                assert(old(self).entries@[j].addr == s[j].addr || j == i);
                            }
                        }
                    }
                }
                fails
            },
            None => {
                self.entries.push(AuthFailure { addr, fails: 1, last: now });
                proof {
                    let s = self.entries@;
                    let o = old(self).entries@;
                    assert(no_duplicate_addrs(s)) by {
                        assert forall|x: int, y: int| 0 <= x < y < s.len() implies (
                        #[trigger] s[x]).addr != (#[trigger] s[y]).addr by {
                            assert(s[x] == o[x]);
                            if y < o.len() {
                                assert(s[y] == o[y]);
                            }
                        }
                    }
                    lemma_entry_of(s, addr);
                    assert(s[o.len() as int].addr == addr);
                    assert forall|a: u128| a != addr implies entry_of(s, a) == entry_of(o, a) by {
                        assert(s.drop_last() =~= o);
                    }
                }
                1
            },
        };
        if fails >= AUTH_FAILURE_LIMIT {
            Some(AUTH_BLOCK_DURATION_MS)
        } else {
            None
        }
    }

    /// Forgets every address whose last failure is not younger than the window.
    pub fn prune_auth_failures_by_addr(&mut self, now: u64)
        requires
            old(self).wf(),
        ensures
            final(self).wf(),
            forall|a: u128| #[trigger]
                final(self).failures(a) == spec_pruned(old(self).failures(a), now),
    {
        let ghost o = self.entries@;
        let mut kept: Vec<AuthFailure> = Vec::new();
        let mut i: usize = 0;
        while i < self.entries.len()
            invariant
                o == self.entries@,
                no_duplicate_addrs(o),
                i <= o.len(),
                no_duplicate_addrs(kept@),
                forall|k: int|
                    0 <= k < kept@.len() ==> exists|j: int|
                        0 <= j < i && o[j] == #[trigger] kept@[k] && elapsed(now, o[j].last)
                            < AUTH_FAILURE_WINDOW_MS,
                forall|j: int|
                    0 <= j < i && elapsed(now, (#[trigger] o[j]).last) < AUTH_FAILURE_WINDOW_MS
                        ==> kept@.contains(o[j]),
            decreases o.len() - i,
        {
            let e = self.entries[i];
            let el = if now >= e.last {
                now - e.last
            } else {
                0
            };
            if el < AUTH_FAILURE_WINDOW_MS {
                let ghost before = kept@;
                kept.push(e);
                proof {
                    assert forall|x: int, y: int| 0 <= x < y < kept@.len() implies (
                    #[trigger] kept@[x]).addr != (#[trigger] kept@[y]).addr by {
                        if y == before.len() {
                            let j = choose|j: int|
                                0 <= j < i && o[j] == #[trigger] before[x] && elapsed(
                                    now,
                                    o[j].last,
                                ) < AUTH_FAILURE_WINDOW_MS;
                            assert(kept@[x] == before[x]);
                            assert(o[j].addr != o[i as int].addr);
                        } else {
                            assert(kept@[x] == before[x] && kept@[y] == before[y]);
                        }
                    }
                    assert forall|k: int|
                        0 <= k < kept@.len() implies exists|j: int|
                        0 <= j < i + 1 && o[j] == #[trigger] kept@[k] && elapsed(now, o[j].last)
                            < AUTH_FAILURE_WINDOW_MS by {
                        if k < before.len() {
                            assert(kept@[k] == before[k]);
                        } else {
                            assert(o[i as int] == kept@[k]);
                        }
                    }
                    assert forall|j: int|
                        0 <= j < i + 1 && elapsed(now, (#[trigger] o[j]).last)
                            < AUTH_FAILURE_WINDOW_MS implies kept@.contains(o[j]) by {
                        if j < i {
                            let k = choose|k: int| 0 <= k < before.len() && before[k] == o[j];
                            assert(kept@[k] == before[k]);
                        } else {
                            assert(kept@[before.len() as int] == o[j]);
                        }
                    }
                }
            }
            i = i + 1;
        }
        self.entries = kept;
        proof {
            let s = self.entries@;
            assert forall|a: u128| #[trigger]
                entry_of(s, a) == (match entry_of(o, a) {
                    Some((fails, last)) => if elapsed(now, last) < AUTH_FAILURE_WINDOW_MS {
                        Some((fails, last))
                    } else {
                        None
                    },
                    None => None,
                }) by {
                lemma_entry_of(s, a);
                lemma_entry_of(o, a);
                if exists|j: int| 0 <= j < o.len() && (#[trigger] o[j]).addr == a {
                    let j = choose|j: int| 0 <= j < o.len() && (#[trigger] o[j]).addr == a;
                    if elapsed(now, o[j].last) < AUTH_FAILURE_WINDOW_MS {
                        let k = choose|k: int| 0 <= k < s.len() && s[k] == o[j];
                        assert(s[k].addr == a);
                    } else {
                        assert forall|k: int| 0 <= k < s.len() implies (#[trigger] s[k]).addr
                            != a by {
                            let j2 = choose|j2: int|
                                0 <= j2 < o.len() && o[j2] == #[trigger] s[k] && elapsed(
                                    now,
                                    o[j2].last,
                                ) < AUTH_FAILURE_WINDOW_MS;
                            if s[k].addr == a {
                                assert(j2 != j);
                            }
                        }
                    }
                } else {
                    assert forall|k: int| 0 <= k < s.len() implies (#[trigger] s[k]).addr != a by {
                        let j2 = choose|j2: int|
                            0 <= j2 < o.len() && o[j2] == #[trigger] s[k] && elapsed(now, o[j2].last)
                                < AUTH_FAILURE_WINDOW_MS;
                    }
                }
            }
        }
    }
}

} // verus!
