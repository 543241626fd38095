//! The respawn-building settings form (`cost:…#clanzone:…#clan:…`).
use vstd::prelude::*;
use crate::text::{
    chars_match_at, find_char, first_index_of, lemma_first_index_of, parse_i32_range,
    spec_parse_i32, str_chars,
};

verus! {

/// Fields a respawn owner may change; absent keys stay `None`.
#[derive(Clone, Copy, Debug, PartialEq, Eq)]
pub struct RespSaveFields {
    pub cost: Option<i32>,
    pub clanzone: Option<i32>,
    pub clan_enabled: Option<bool>,
}

/// The highest entry cost a respawn may charge.
pub const RESP_MAX_COST: i32 = 5000;

pub open spec fn no_resp_fields() -> RespSaveFields {
    RespSaveFields { cost: None, clanzone: None, clan_enabled: None }
}

/// `1`/`true` enable clan-only mode, `0`/`false` disable it.
pub open spec fn spec_clan_flag(v: Seq<char>) -> Option<bool> {
    if v == "1"@ || v == "true"@ {
        Some(true)
    } else if v == "0"@ || v == "false"@ {
        Some(false)
    } else {
        None
    }
}

/// Applies one `key:value` pair (split at the first `:`) to `acc`.
pub open spec fn apply_resp_pair(acc: RespSaveFields, pair: Seq<char>) -> Option<RespSaveFields> {
    let c = first_index_of(pair, ':');
    let key = pair.take(c);
    let value = pair.skip(c + 1);
    if c == pair.len() || key.len() == 0 || value.len() == 0 {
        None
    } else if key == "cost"@ {
        match spec_parse_i32(value) {
            Some(p) => if 0 <= p <= RESP_MAX_COST {
                Some(RespSaveFields { cost: Some(p), ..acc })
            } else {
                None
            },
            None => None,
        }
    } else if key == "clanzone"@ {
        match spec_parse_i32(value) {
            Some(p) => Some(RespSaveFields { clanzone: Some(p), ..acc }),
            None => None,
        }
    } else if key == "clan"@ {
        match spec_clan_flag(value) {
            Some(b) => Some(RespSaveFields { clan_enabled: Some(b), ..acc }),
            None => None,
        }
    } else {
        None
    }
}

/// Applies the `#`-separated pairs of `s` from left to right; a later pair
/// for the same key overrides an earlier one.
pub open spec fn apply_resp_pairs(acc: RespSaveFields, s: Seq<char>) -> Option<RespSaveFields>
    decreases s.len(),
{
    let h = first_index_of(s, '#');
    proof {
        lemma_first_index_of(s, '#');
    }
    match apply_resp_pair(acc, s.take(h)) {
        None => None,
        Some(next) => if h >= s.len() {
            Some(next)
        } else {
            apply_resp_pairs(next, s.skip(h + 1))
        },
    }
}

/// The form without one trailing `#`.
pub open spec fn resp_form_body(data: Seq<char>) -> Seq<char> {
    if data.len() > 0 && data.last() == '#' {
        data.drop_last()
    } else {
        data
    }
}

/// What the settings form means: every pair must be well formed, and at
/// least one field must be set.
pub open spec fn spec_parse_resp_save_fields(data: Seq<char>) -> Option<RespSaveFields> {
    let body = resp_form_body(data);
    if body.len() == 0 {
        None
    } else {
        match apply_resp_pairs(no_resp_fields(), body) {
            Some(f) => if f == no_resp_fields() {
                None
            } else {
                Some(f)
            },
            None => None,
        }
    }
}

/// `v[lo..hi]` equals the characters of `word`.
fn range_is(v: &Vec<char>, lo: usize, hi: usize, word: &str) -> (r: bool)
    requires
        lo <= hi <= v@.len(),
    ensures
        r == (v@.subrange(lo as int, hi as int) == word@),
{
    let w = str_chars(word);
    if w.len() != hi - lo {
        return false;
    }
    let m = chars_match_at(v, lo, &w);
    m
}

/// Applies the pair `v[lo..hi]` to `acc`.
fn apply_pair_exec(v: &Vec<char>, lo: usize, hi: usize, acc: RespSaveFields) -> (r: Option<
    RespSaveFields,
>)
    requires
        lo <= hi <= v@.len(),
    ensures
        r == apply_resp_pair(acc, v@.subrange(lo as int, hi as int)),
{
    let ghost pair = v@.subrange(lo as int, hi as int);
    let c = find_char(v, lo, hi, ':');
    proof {
        lemma_first_index_of(pair, ':');
    }
    if c == hi || c == lo || c + 1 == hi {
        return None;
    }
    assert(pair.take(c - lo) =~= v@.subrange(lo as int, c as int));
    assert(pair.skip(c - lo + 1) =~= v@.subrange(c + 1, hi as int));
    if range_is(v, lo, c, "cost") {
        match parse_i32_range(v, c + 1, hi) {
            Some(p) => if 0 <= p && p <= RESP_MAX_COST {
                Some(RespSaveFields { cost: Some(p), ..acc })
            } else {
                None
            },
            None => None,
        }
    } else if range_is(v, lo, c, "clanzone") {
        match parse_i32_range(v, c + 1, hi) {
            Some(p) => Some(RespSaveFields { clanzone: Some(p), ..acc }),
            None => None,
        }
    } else if range_is(v, lo, c, "clan") {
        let flag = if range_is(v, c + 1, hi, "1") || range_is(v, c + 1, hi, "true") {
            Some(true)
        } else if range_is(v, c + 1, hi, "0") || range_is(v, c + 1, hi, "false") {
            Some(false)
        } else {
            None
        };
        match flag {
            Some(b) => Some(RespSaveFields { clan_enabled: Some(b), ..acc }),
            None => None,
        }
    } else {
        None
    }
}

/// Parses the respawn settings form: `#`-separated `key:value` pairs with
/// keys `cost` (0..=5000), `clanzone` (any `i32`) and `clan` (`1`/`true`/`0`/`false`).
pub fn parse_resp_save_fields(data: &str) -> (r: Option<RespSaveFields>)
    ensures
        r == spec_parse_resp_save_fields(data@),
{
    let chars = str_chars(data);
    let mut end = chars.len();
    if end > 0 && chars[end - 1] == '#' {
        end = end - 1;
    }
    let ghost body = resp_form_body(data@);
    assert(body =~= chars@.subrange(0, end as int));
    if end == 0 {
        return None;
    }
    let mut acc = RespSaveFields { cost: None, clanzone: None, clan_enabled: None };
    let mut pos: usize = 0;
    loop
        invariant
            0 < end <= chars@.len(),
            pos <= end,
            body == resp_form_body(data@),
            body == chars@.subrange(0, end as int),
            apply_resp_pairs(no_resp_fields(), body) == apply_resp_pairs(
                acc,
                chars@.subrange(pos as int, end as int),
            ),
        decreases end - pos,
    {
        let ghost s = chars@.subrange(pos as int, end as int);
        let h = find_char(&chars, pos, end, '#');
        assert(s.take(h - pos) =~= chars@.subrange(pos as int, h as int));
        match apply_pair_exec(&chars, pos, h, acc) {
            None => {
                return None;
            },
            Some(next) => {
                if h == end {
                    if next.cost.is_none() && next.clanzone.is_none() && next.clan_enabled.is_none() {
                        return None;
                    }
                    return Some(next);
                }
                assert(s.skip(h - pos + 1) =~= chars@.subrange(h + 1, end as int));
                acc = next;
                pos = h + 1;
            },
        }
    }
}

/// The settings of a respawn building that its owner can change.
#[derive(Clone, Copy, Debug, PartialEq, Eq, Structural)]
pub struct RespSettings {
    pub cost: i32,
    pub clanzone: i32,
    /// The clan the respawn serves (`0` for everyone).
    pub clan_id: i32,
}

/// The building components a save writes are there: the stats when the
/// cost or the clan zone changes, the ownership when the clan mode
/// changes, and the flags in any case.
pub fn resp_save_ready(fields: RespSaveFields, has_stats: bool, has_ownership: bool, has_flags: bool) -> (r: bool)
    ensures
        r == ((fields.cost is None && fields.clanzone is None || has_stats)
            && (fields.clan_enabled is None || has_ownership) && has_flags),
{
    (fields.cost.is_none() && fields.clanzone.is_none() || has_stats)
        && (fields.clan_enabled.is_none() || has_ownership) && has_flags
}

/// Applies a saved form to the current settings: each field given replaces
/// the old value; turning the clan mode on binds the respawn to the owner's
/// clan `owner_clan`, turning it off sets `0`. `.1` tells whether any field
/// was given.
pub fn apply_resp_save(fields: RespSaveFields, current: RespSettings, owner_clan: i32) -> (r: (RespSettings, bool))
    ensures
        r.0.cost == (match fields.cost {
            Some(c) => c,
            None => current.cost,
        }),
        r.0.clanzone == (match fields.clanzone {
            Some(z) => z,
            None => current.clanzone,
        }),
        r.0.clan_id == (match fields.clan_enabled {
            Some(true) => owner_clan,
            Some(false) => 0,
            None => current.clan_id,
        }),
        r.1 == (fields.cost is Some || fields.clanzone is Some || fields.clan_enabled is Some),
{
    let mut next = current;
    let mut updated = false;
    if let Some(cost) = fields.cost {
        next.cost = cost;
        updated = true;
    }
    if let Some(clanzone) = fields.clanzone {
        next.clanzone = clanzone;
        updated = true;
    }
    if let Some(enabled) = fields.clan_enabled {
        next.clan_id = if enabled {
            owner_clan
        } else {
            0
        };
        updated = true;
    }
    (next, updated)
}

/// Result of withdrawing a respawn's earnings.
#[derive(Clone, Copy, Debug, PartialEq, Eq, Structural)]
pub struct ProfitWithdrawal {
    /// Money taken out of the building.
    pub amount: i64,
    /// The owner's money afterwards.
    pub money: i64,
}

/// The owner takes all the money stored in the building (which is left
/// empty); the owner's money grows by that amount when it is positive.
pub fn withdraw_profit(stored: i64, money: i64) -> (r: ProfitWithdrawal)
    requires
        stored > 0 ==> money + stored <= i64::MAX,
    ensures
        r.amount == stored,
        r.money == if stored > 0 {
            money + stored
        } else {
            money as int
        },
{
    if stored > 0 {
        ProfitWithdrawal { amount: stored, money: money + stored }
    } else {
        ProfitWithdrawal { amount: stored, money }
    }
}

} // verus!
