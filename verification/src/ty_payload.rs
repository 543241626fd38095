//! Payload formats of the TY events that the server acknowledges without
//! acting on them (inventory filter hotkeys, mission init, device hash).
use vstd::prelude::*;
use vstd::string::StringSliceAdditionalSpecFns;
use vstd::utf8::valid_utf8;

verus! {

const ASCII_0: u8 = 48;
const ASCII_1: u8 = 49;
const ASCII_9: u8 = 57;
const ASCII_UNDERSCORE: u8 = 95;
const ASCII_A: u8 = 97;
const ASCII_H: u8 = 104;
const ASCII_S: u8 = 115;
const ASCII_EQUALS: u8 = 61;

/// `payload` is a single ASCII digit; its value.
pub open spec fn spec_finv_index(payload: Seq<u8>) -> Option<u8> {
    if payload.len() == 1 && 48 <= payload[0] <= 57 {
        Some((payload[0] - 48) as u8)
    } else {
        None
    }
}

/// The inventory filter hotkey index: exactly one ASCII digit.
pub fn decode_finv_index(payload: &[u8]) -> (r: Option<u8>)
    ensures
        r == spec_finv_index(payload@),
{
    if payload.len() == 1 && payload[0] >= ASCII_0 && payload[0] <= ASCII_9 {
        Some(payload[0] - ASCII_0)
    } else {
        None
    }
}

/// The unit payload `_` that argument-less TY events carry.
pub fn is_unit_payload(payload: &[u8]) -> (r: bool)
    ensures
        r == (payload@ == seq![95u8]),
{
    if payload.len() == 1 && payload[0] == ASCII_UNDERSCORE {
        assert(payload@ =~= seq![95u8]);
        true
    } else {
        false
    }
}

/// Mission-panel init flag: `0` or `1`.
pub fn decode_miss_enabled(payload: &[u8]) -> (r: Option<bool>)
    ensures
        r == (if payload@ == seq![48u8] {
            Some(false)
        } else if payload@ == seq![49u8] {
            Some(true)
        } else {
            None
        }),
{
    if payload.len() == 1 && payload[0] == ASCII_0 {
        assert(payload@ =~= seq![48u8]);
        Some(false)
    } else if payload.len() == 1 && payload[0] == ASCII_1 {
        assert(payload@ =~= seq![49u8]);
        Some(true)
    } else {
        None
    }
}

/// The bytes of `hash=`.
pub open spec fn rndm_prefix() -> Seq<u8> {
    seq![104u8, 97u8, 115u8, 104u8, 61u8]
}

/// `std::str::from_utf8`: the bytes read as a string when they are valid UTF-8.
#[verifier::external_body]
fn str_from_utf8(bytes: &[u8]) -> (r: Option<&str>)
    ensures
        r is Some <==> valid_utf8(bytes@),
        r matches Some(s) ==> s.spec_bytes() == bytes@,
{
    std::str::from_utf8(bytes).ok()
}

/// The device hash of an `Rndm` payload: the UTF-8 text after `hash=`.
pub fn decode_rndm_hash(payload: &[u8]) -> (r: Option<&str>)
    ensures
        r is Some <==> (rndm_prefix().is_prefix_of(payload@) && valid_utf8(payload@.skip(5))),
        r matches Some(s) ==> s.spec_bytes() == payload@.skip(5),
{
    if payload.len() < 5 || payload[0] != ASCII_H || payload[1] != ASCII_A || payload[2] != ASCII_S
        || payload[3] != ASCII_H || payload[4] != ASCII_EQUALS {
        proof {
            if rndm_prefix().is_prefix_of(payload@) {
                assert(payload@.subrange(0, 5)[0] == 104u8);
                assert(payload@.subrange(0, 5)[1] == 97u8);
                assert(payload@.subrange(0, 5)[2] == 115u8);
                assert(payload@.subrange(0, 5)[3] == 104u8);
                assert(payload@.subrange(0, 5)[4] == 61u8);
            }
        }
        return None;
    }
    assert(payload@.subrange(0, 5) =~= rndm_prefix());
    let rest = vstd::slice::slice_subrange(payload, 5, payload.len());
    assert(rest@ =~= payload@.skip(5));
    str_from_utf8(rest)
}

} // verus!
