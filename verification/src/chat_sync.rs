//! Private chat channel tags.
use vstd::prelude::*;
use crate::text::{
    find_char, first_index_of, is_digit, lemma_first_index_of_unique, lemma_parse_decimal_i32, parse_i32_range,
    spec_decimal, spec_parse_i32, str_chars,
};

verus! {

/// The meaning of a private channel tag `_a_b`: exactly two `_`-separated
/// pieces after the leading `_`, each an `i32` as `i32::from_str` reads it.
pub open spec fn spec_parse_private_tag(tag: Seq<char>) -> Option<(i32, i32)> {
    if tag.len() == 0 || tag[0] != '_' {
        None
    } else {
        let rest = tag.drop_first();
        let k = first_index_of(rest, '_');
        if k == rest.len() {
            None
        } else {
            let tail = rest.skip(k + 1);
            if first_index_of(tail, '_') < tail.len() {
                None
            } else {
                match (spec_parse_i32(rest.take(k)), spec_parse_i32(tail)) {
                    (Some(a), Some(b)) => Some((a, b)),
                    _ => None,
                }
            }
        }
    }
}

/// Parses the private channel tag `_a_b` into the two player ids `(a, b)`.
pub fn parse_private_tag(tag: &str) -> (r: Option<(i32, i32)>)
    ensures
        r == spec_parse_private_tag(tag@),
{
    let chars = str_chars(tag);
    let n = chars.len();
    if n == 0 || chars[0] != '_' {
        return None;
    }
    let ghost rest = chars@.drop_first();
    assert(rest =~= chars@.subrange(1, n as int));
    let k = find_char(&chars, 1, n, '_');
    if k == n {
        return None;
    }
    let ghost tail = rest.skip(k - 1 + 1);
    assert(tail =~= chars@.subrange(k + 1, n as int));
    assert(rest.take(k - 1) =~= chars@.subrange(1, k as int));
    let third = find_char(&chars, k + 1, n, '_');
    if third < n {
        return None;
    }
    let a = parse_i32_range(&chars, 1, k);
    let b = parse_i32_range(&chars, k + 1, n);
    match (a, b) {
        (Some(a), Some(b)) => Some((a, b)),
        _ => None,
    }
}

/// The private tag of players `a` and `b`, `_a_b` with both ids written
/// in decimal.
pub open spec fn spec_private_tag(a: i32, b: i32) -> Seq<char> {
    seq!['_'] + spec_decimal(a as int) + seq!['_'] + spec_decimal(b as int)
}

/// Reading the tag written for two player ids gives both ids back.
pub proof fn lemma_private_tag_round_trip(a: i32, b: i32)
    ensures
        spec_parse_private_tag(spec_private_tag(a, b)) == Some((a, b)),
{
    let da = spec_decimal(a as int);
    let db = spec_decimal(b as int);
    lemma_parse_decimal_i32(a);
    lemma_parse_decimal_i32(b);
    let tag = spec_private_tag(a, b);
    let rest = tag.drop_first();
    assert(rest =~= da + seq!['_'] + db);
    assert forall|j: int| 0 <= j < da.len() implies rest[j] != '_' by {
        assert(rest[j] == da[j]);
        assert(da[j] == '-' || is_digit(da[j]));
    }
    assert(rest[da.len() as int] == '_');
    lemma_first_index_of_unique(rest, '_', da.len() as int);
    let k = da.len() as int;
    assert(rest.take(k) =~= da);
    let tail = rest.skip(k + 1);
    assert(tail =~= db);
    assert forall|j: int| 0 <= j < tail.len() implies tail[j] != '_' by {
        assert(db[j] == '-' || is_digit(db[j]));
    }
    lemma_first_index_of_unique(tail, '_', tail.len() as int);
}

} // verus!
