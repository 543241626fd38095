//! Decisions taken while dispatching an authenticated TY packet: which
//! events are rate limited, which payloads of the ignored events are well
//! formed, and where the admin (gear) button of an open window leads.
use vstd::prelude::*;
use crate::text::{chars_equal_str, chars_match_at, find_char, first_index_of, parse_i32_range, spec_parse_i32, str_chars};
use crate::ty_payload::{decode_finv_index, decode_miss_enabled, decode_rndm_hash, is_unit_payload, rndm_prefix};
use vstd::utf8::valid_utf8;

verus! {

/// The rate limiter a TY event is charged to.
#[derive(Clone, Copy, Debug, PartialEq, Eq, Structural)]
pub enum TyRateLimit {
    Gui,
    Chat,
}

pub open spec fn spec_rate_limit_for_event(e: Seq<char>) -> Option<TyRateLimit> {
    if e == "GUI_"@ {
        Some(TyRateLimit::Gui)
    } else if e == "Locl"@ || e == "Chat"@ || e == "Cpri"@ {
        Some(TyRateLimit::Chat)
    } else {
        None
    }
}

/// `GUI_` is charged to the GUI limiter; `Locl`, `Chat` and `Cpri` to the
/// chat limiter; other events are not limited.
pub fn rate_limit_for_event(event: &str) -> (r: Option<TyRateLimit>)
    ensures
        r == spec_rate_limit_for_event(event@),
{
    let e = str_chars(event);
    if chars_equal_str(&e, "GUI_") {
        Some(TyRateLimit::Gui)
    } else if chars_equal_str(&e, "Locl") || chars_equal_str(&e, "Chat") || chars_equal_str(
        &e,
        "Cpri",
    ) {
        Some(TyRateLimit::Chat)
    } else {
        None
    }
}

/// For the events the server accepts and ignores, whether the payload has
/// the shape the client sends: `_` for `Xhur` and `TAUR`, one digit for
/// `FINV`, `0`/`1` for `Miss`, `hash=<utf-8>` for `Rndm`. `None` for other
/// events.
pub open spec fn spec_noop_payload_ok(e: Seq<char>, payload: Seq<u8>) -> Option<bool> {
    if e == "Xhur"@ || e == "TAUR"@ {
        Some(payload == seq![95u8])
    } else if e == "FINV"@ {
        Some(payload.len() == 1 && 48 <= payload[0] <= 57)
    } else if e == "Miss"@ {
        Some(payload == seq![48u8] || payload == seq![49u8])
    } else if e == "Rndm"@ {
        Some(rndm_prefix().is_prefix_of(payload) && valid_utf8(payload.skip(5)))
    } else {
        None
    }
}

/// Checks the payload of an ignored TY event (see `spec_noop_payload_ok`).
pub fn noop_payload_ok(event: &str, payload: &[u8]) -> (r: Option<bool>)
    ensures
        r == spec_noop_payload_ok(event@, payload@),
{
    let e = str_chars(event);
    if chars_equal_str(&e, "Xhur") || chars_equal_str(&e, "TAUR") {
        Some(is_unit_payload(payload))
    } else if chars_equal_str(&e, "FINV") {
        Some(decode_finv_index(payload).is_some())
    } else if chars_equal_str(&e, "Miss") {
        Some(decode_miss_enabled(payload).is_some())
    } else if chars_equal_str(&e, "Rndm") {
        Some(decode_rndm_hash(payload).is_some())
    } else {
        None
    }
}

/// The building window whose admin panel the gear button opens.
#[derive(Clone, Copy, Debug, PartialEq, Eq, Structural)]
pub enum AdminWindow {
    Resp,
    Market,
    Up,
    Pack,
}

/// Where the gear button leads: an admin panel of the building at `(x, y)`.
#[derive(Clone, Copy, Debug, PartialEq, Eq, Structural)]
pub struct AdminTarget {
    pub window: AdminWindow,
    pub x: i32,
    pub y: i32,
}

/// The first two `:`-separated fields of `s` read as `i32`; with `exact`,
/// `s` must have no third field.
pub open spec fn spec_coord_fields(s: Seq<char>, exact: bool) -> Option<(i32, i32)> {
    let i = first_index_of(s, ':');
    if i >= s.len() {
        None
    } else {
        let after = s.skip(i + 1);
        let j = first_index_of(after, ':');
        if exact && j < after.len() {
            None
        } else {
            match (spec_parse_i32(s.take(i)), spec_parse_i32(after.take(j))) {
                (Some(x), Some(y)) => Some((x, y)),
                _ => None,
            }
        }
    }
}

pub open spec fn target_at(w: AdminWindow, f: Option<(i32, i32)>) -> Option<AdminTarget> {
    match f {
        Some((x, y)) => Some(AdminTarget { window: w, x, y }),
        None => None,
    }
}

/// Windows `resp:<x>:<y>` and `pack:<x>:<y>` (exactly two fields),
/// `market:<x>:<y>[:…]` and `up:<x>:<y>[:…]` lead to the admin panel of the
/// building at `(x, y)`; any other window has none.
pub open spec fn spec_admin_window_target(w: Seq<char>) -> Option<AdminTarget> {
    if "resp:"@.is_prefix_of(w) {
        target_at(AdminWindow::Resp, spec_coord_fields(w.skip(5), true))
    } else if "market:"@.is_prefix_of(w) {
        target_at(AdminWindow::Market, spec_coord_fields(w.skip(7), false))
    } else if "up:"@.is_prefix_of(w) {
        target_at(AdminWindow::Up, spec_coord_fields(w.skip(3), false))
    } else if "pack:"@.is_prefix_of(w) {
        target_at(AdminWindow::Pack, spec_coord_fields(w.skip(5), true))
    } else {
        None
    }
}

fn coord_fields(v: &Vec<char>, lo: usize, exact: bool) -> (r: Option<(i32, i32)>)
    requires
        lo <= v@.len(),
    ensures
        r == spec_coord_fields(v@.skip(lo as int), exact),
{
    let n = v.len();
    let ghost s = v@.skip(lo as int);
    assert(s =~= v@.subrange(lo as int, n as int));
    let i = find_char(v, lo, n, ':');
    if i == n {
        return None;
    }
    let ghost after = s.skip(i - lo + 1);
    assert(after =~= v@.subrange(i + 1, n as int));
    let j = find_char(v, i + 1, n, ':');
    if exact && j < n {
        return None;
    }
    assert(s.take(i - lo) =~= v@.subrange(lo as int, i as int));
    assert(after.take(j - (i + 1)) =~= v@.subrange(i + 1, j as int));
    let x = parse_i32_range(v, lo, i);
    let y = parse_i32_range(v, i + 1, j);
    match (x, y) {
        (Some(x), Some(y)) => Some((x, y)),
        _ => None,
    }
}

fn prefix_chars(v: &Vec<char>, prefix: &str) -> (r: bool)
    ensures
        r == prefix@.is_prefix_of(v@),
{
    let p = str_chars(prefix);
    let m = chars_match_at(v, 0, &p);
    proof {
        if m {
            assert(p@.is_prefix_of(v@)) by {
                assert forall|k: int| 0 <= k < p@.len() implies p@[k] == v@[k] by {
                    assert(v@.subrange(0, p@.len() as int)[k] == v@[k]);
                }
            }
        } else if p@.is_prefix_of(v@) {
            assert(v@.subrange(0, p@.len() as int) =~= p@);
        }
    }
    m
}

fn with_window(w: AdminWindow, f: Option<(i32, i32)>) -> (r: Option<AdminTarget>)
    ensures
        r == target_at(w, f),
{
    match f {
        Some((x, y)) => Some(AdminTarget { window: w, x, y }),
        None => None,
    }
}

/// Where the gear button of the open window `window` leads (see
/// `spec_admin_window_target`).
pub fn admin_window_target(window: &str) -> (r: Option<AdminTarget>)
    ensures
        r == spec_admin_window_target(window@),
{
    proof {
        reveal_strlit("resp:");
        reveal_strlit("market:");
        reveal_strlit("up:");
        reveal_strlit("pack:");
    }
    let v = str_chars(window);
    if prefix_chars(&v, "resp:") {
        with_window(AdminWindow::Resp, coord_fields(&v, 5, true))
    } else if prefix_chars(&v, "market:") {
        with_window(AdminWindow::Market, coord_fields(&v, 7, false))
    } else if prefix_chars(&v, "up:") {
        with_window(AdminWindow::Up, coord_fields(&v, 3, false))
    } else if prefix_chars(&v, "pack:") {
        with_window(AdminWindow::Pack, coord_fields(&v, 5, true))
    } else {
        None
    }
}

} // verus!
