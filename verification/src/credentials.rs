//! Password hashing and legacy token checks: SHA-256 / MD5 digests written
//! as lowercase hex, and random account tokens.
use vstd::prelude::*;
use vstd::slice::slice_to_vec;
use vstd::string::StringSliceAdditionalSpecFns;
use crate::text::{chars_equal_str, str_chars, string_push, strip_str_prefix};

verus! {

/// The SHA-256 digest of a byte string.
pub uninterp spec fn sha256(data: Seq<u8>) -> Seq<u8>;

/// The MD5 digest of a byte string.
pub uninterp spec fn md5(data: Seq<u8>) -> Seq<u8>;

/// `sha2::Sha256::digest`: the SHA-256 digest of `data`, 32 bytes.
#[verifier::external_body]
fn sha256_digest(data: &[u8]) -> (r: Vec<u8>)
    ensures
        r@ == sha256(data@),
        r@.len() == 32,
{
    <sha2::Sha256 as sha2::Digest>::digest(data).to_vec()
}

/// `md5::compute`: the MD5 digest of `data`, 16 bytes.
#[verifier::external_body]
fn md5_digest(data: &[u8]) -> (r: Vec<u8>)
    ensures
        r@ == md5(data@),
        r@.len() == 16,
{
    md5::compute(data).0.to_vec()
}

/// `rand::random_range(0..n)`: a uniformly random index below `n`.
#[verifier::external_body]
pub(crate) fn random_index(n: usize) -> (r: usize)
    requires
        n > 0,
    ensures
        r < n,
{
    rand::random_range(0..n)
}

/// The lowercase hex digit of `d < 16`.
pub open spec fn hex_digit(d: int) -> char {
    if d < 10 {
        ((d + 48) as u32) as char
    } else {
        ((d + 87) as u32) as char
    }
}

/// `{:x}` of a digest: two lowercase hex digits per byte, high nibble first.
pub open spec fn spec_hex_lower(bytes: Seq<u8>) -> Seq<char>
    decreases bytes.len(),
{
    if bytes.len() == 0 {
        Seq::empty()
    } else {
        spec_hex_lower(bytes.drop_last()) + seq![
            hex_digit(bytes.last() as int / 16),
            hex_digit(bytes.last() as int % 16),
        ]
    }
}

fn hex_digit_exec(d: u8) -> (c: char)
    requires
        d < 16,
    ensures
        c == hex_digit(d as int),
{
    if d < 10 {
        (d + 48) as char
    } else {
        (d + 87) as char
    }
}

/// Writes `bytes` as lowercase hex.
pub fn hex_lower(bytes: &[u8]) -> (r: String)
    ensures
        r@ == spec_hex_lower(bytes@),
{
    let mut out = String::new();
    let mut i: usize = 0;
    while i < bytes.len()
        invariant
            i <= bytes@.len(),
            out@ == spec_hex_lower(bytes@.take(i as int)),
        decreases bytes@.len() - i,
    {
        let b = bytes[i];
        string_push(&mut out, hex_digit_exec(b / 16));
        string_push(&mut out, hex_digit_exec(b % 16));
        assert(bytes@.take(i + 1).drop_last() =~= bytes@.take(i as int));
        assert(out@ =~= spec_hex_lower(bytes@.take(i + 1)));
        i = i + 1;
    }
    assert(bytes@.take(bytes@.len() as int) =~= bytes@);
    out
}

/// What a salted password hash digests: the user's salt, `:`, the password.
pub open spec fn password_material(passwd: Seq<u8>, user_hash: Seq<u8>) -> Seq<u8> {
    user_hash + seq![58u8] + passwd
}

/// `sha256:` followed by the hex digest of the salted password.
pub open spec fn spec_hash_password(passwd: Seq<u8>, user_hash: Seq<u8>) -> Seq<char> {
    "sha256:"@ + spec_hex_lower(sha256(password_material(passwd, user_hash)))
}

/// Hashes `passwd` with the per-user salt `user_hash`.
pub fn hash_password(passwd: &str, user_hash: &str) -> (r: String)
    ensures
        r@ == spec_hash_password(passwd.spec_bytes(), user_hash.spec_bytes()),
{
    let mut material = slice_to_vec(user_hash.as_bytes());
    material.push(58u8);
    let mut tail = slice_to_vec(passwd.as_bytes());
    material.append(&mut tail);
    assert(material@ =~= password_material(passwd.spec_bytes(), user_hash.spec_bytes()));
    let digest = sha256_digest(material.as_slice());
    let hex = hex_lower(digest.as_slice());
    let mut r = String::from_str("sha256:");
    r.append(hex.as_str());
    r
}

/// A stored password matches: `sha256:<hex>` records are compared by digest
/// of the salted password, anything else is a legacy plain-text password.
pub open spec fn spec_verify_password(passwd: &str, stored: Seq<char>, user_hash: &str) -> bool {
    if "sha256:"@.is_prefix_of(stored) {
        stored.skip(7) == spec_hex_lower(
            sha256(password_material(passwd.spec_bytes(), user_hash.spec_bytes())),
        )
    } else {
        stored == passwd@
    }
}

/// Checks `passwd` against the stored record for a user with salt `user_hash`.
pub fn verify_password(passwd: &str, stored: &str, user_hash: &str) -> (r: bool)
    ensures
        r == spec_verify_password(passwd, stored@, user_hash),
{
    proof {
        reveal_strlit("sha256:");
    }
    match strip_str_prefix(stored, "sha256:") {
        None => chars_equal_str(&str_chars(stored), passwd),
        Some(hex) => {
            let hashed = hash_password(passwd, user_hash);
            let ghost digest_hex = spec_hex_lower(
                sha256(password_material(passwd.spec_bytes(), user_hash.spec_bytes())),
            );
            let computed = match strip_str_prefix(hashed.as_str(), "sha256:") {
                Some(h) => h,
                None => "",
            };
            assert(computed@ == digest_hex) by {
                assert("sha256:"@.is_prefix_of(hashed@)) by {
                    assert(hashed@.subrange(0, 7) =~= "sha256:"@);
                }
                assert(hashed@.skip(7) =~= digest_hex);
            }
            chars_equal_str(&str_chars(computed), hex)
        },
    }
}

/// Concatenation of the UTF-8 bytes of two strings.
pub open spec fn joined_bytes(a: &str, b: &str) -> Seq<u8> {
    a.spec_bytes() + b.spec_bytes()
}

fn join_bytes(a: &str, b: &str) -> (r: Vec<u8>)
    ensures
        r@ == joined_bytes(a, b),
{
    let mut v = slice_to_vec(a.as_bytes());
    let mut t = slice_to_vec(b.as_bytes());
    v.append(&mut t);
    v
}

/// The legacy login token: hex MD5 of the account hash followed by the session id.
pub fn auth_token_hash_md5(hash: &str, sid: &str) -> (r: String)
    ensures
        r@ == spec_hex_lower(md5(joined_bytes(hash, sid))),
{
    let data = join_bytes(hash, sid);
    let digest = md5_digest(data.as_slice());
    hex_lower(digest.as_slice())
}

/// The newer login token: hex SHA-256 of the account hash followed by the session id.
pub fn auth_token_hash_sha256(hash: &str, sid: &str) -> (r: String)
    ensures
        r@ == spec_hex_lower(sha256(joined_bytes(hash, sid))),
{
    let data = join_bytes(hash, sid);
    let digest = sha256_digest(data.as_slice());
    hex_lower(digest.as_slice())
}

/// A client token is accepted when it equals either token form.
pub fn token_matches_legacy_auth(token: &str, hash: &str, sid: &str) -> (r: bool)
    ensures
        r == (token@ == spec_hex_lower(md5(joined_bytes(hash, sid))) || token@ == spec_hex_lower(
            sha256(joined_bytes(hash, sid)),
        )),
{
    let t = str_chars(token);
    let md5_hex = auth_token_hash_md5(hash, sid);
    if chars_equal_str(&t, md5_hex.as_str()) {
        return true;
    }
    let sha_hex = auth_token_hash_sha256(hash, sid);
    chars_equal_str(&t, sha_hex.as_str())
}

/// `c` is one of the (ASCII) bytes of `charset`.
pub open spec fn in_charset(c: char, charset: Seq<u8>) -> bool {
    exists|j: int| 0 <= j < charset.len() && c == (#[trigger] charset[j]) as char
}

/// A string of `len` characters drawn at random from `charset`.
pub fn generate_random_string(len: usize, charset: &[u8]) -> (r: String)
    requires
        charset@.len() > 0,
    ensures
        r@.len() == len,
        forall|i: int| 0 <= i < len ==> in_charset(#[trigger] r@[i], charset@),
{
    let mut out = String::new();
    let mut i: usize = 0;
    while i < len
        invariant
            i <= len,
            charset@.len() > 0,
            out@.len() == i,
            forall|k: int| 0 <= k < i ==> in_charset(#[trigger] out@[k], charset@),
        decreases len - i,
    {
        let j = random_index(charset.len());
        let b = charset[j];
        let ghost before = out@;
        string_push(&mut out, b as char);
        assert(in_charset(out@[i as int], charset@)) by {
            assert(out@[i as int] == charset@[j as int] as char);
        }
        assert forall|k: int| 0 <= k < i + 1 implies in_charset(#[trigger] out@[k], charset@) by {
            if k < i {
                assert(out@[k] == before[k]);
            }
        }
        i = i + 1;
    }
    out
}

/// A fresh account hash: twelve characters from `A`–`Z` and `0`–`9`.
pub fn generate_hash() -> (r: String)
    ensures
        r@.len() == 12,
        forall|i: int|
            0 <= i < 12 ==> ('A' <= #[trigger] r@[i] <= 'Z') || ('0' <= r@[i] <= '9'),
{
    let charset: [u8; 36] = [
        65, 66, 67, 68, 69, 70, 71, 72, 73, 74, 75, 76, 77, 78, 79, 80, 81, 82, 83, 84, 85, 86, 87, 88, 89, 90, 48, 49, 50, 51, 52, 53, 54, 55, 56, 57
    ];
    let r = generate_random_string(12, &charset);
    proof {
        assert forall|i: int| 0 <= i < 12 implies ('A' <= #[trigger] r@[i] <= 'Z') || ('0' <= r@[i]
            <= '9') by {
            assert(in_charset(r@[i], charset@));
        }
    }
    r
}

/// A fresh session id: five characters from `a`–`z` and `0`–`9`.
pub fn generate_session_id() -> (r: String)
    ensures
        r@.len() == 5,
        forall|i: int|
            0 <= i < 5 ==> ('a' <= #[trigger] r@[i] <= 'z') || ('0' <= r@[i] <= '9'),
{
    let charset: [u8; 36] = [
        97, 98, 99, 100, 101, 102, 103, 104, 105, 106, 107, 108, 109, 110, 111, 112, 113, 114, 115, 116, 117, 118, 119, 120, 121, 122, 48, 49, 50, 51, 52, 53, 54, 55, 56, 57
    ];
    let r = generate_random_string(5, &charset);
    proof {
        assert forall|i: int| 0 <= i < 5 implies ('a' <= #[trigger] r@[i] <= 'z') || ('0' <= r@[i]
            <= '9') by {
            assert(in_charset(r@[i], charset@));
        }
    }
    r
}

} // verus!
