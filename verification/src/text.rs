//! Character-level helpers over `&str` views: decimal `i32` parsing with the
//! exact acceptance rules of `i32::from_str`, and prefix stripping.
use vstd::prelude::*;
use vstd::string::StrSliceExecFns;

verus! {

/// `c` is an ASCII decimal digit.
pub open spec fn is_digit(c: char) -> bool {
    '0' <= c && c <= '9'
}

/// Every character of `s` is an ASCII decimal digit.
pub open spec fn all_digits(s: Seq<char>) -> bool {
    forall|i: int| 0 <= i < s.len() ==> is_digit(#[trigger] s[i])
}

/// The value of a digit string read in base 10 (leading zeros allowed).
pub open spec fn digits_value(s: Seq<char>) -> int
    decreases s.len(),
{
    if s.len() == 0 {
        0
    } else {
        digits_value(s.drop_last()) * 10 + ((s.last() as int) - ('0' as int))
    }
}

/// What `i32::from_str` accepts: an optional `+` or `-`, then one or more
/// ASCII digits whose value fits in `i32`.
pub open spec fn spec_parse_i32(s: Seq<char>) -> Option<i32> {
    if s.len() == 0 {
        None
    } else if s[0] == '-' {
        let d = s.drop_first();
        if d.len() > 0 && all_digits(d) && digits_value(d) <= 0x8000_0000 {
            Some((-digits_value(d)) as i32)
        } else {
            None
        }
    } else {
        let d = if s[0] == '+' {
            s.drop_first()
        } else {
            s
        };
        if d.len() > 0 && all_digits(d) && digits_value(d) <= 0x7fff_ffff {
            Some(digits_value(d) as i32)
        } else {
            None
        }
    }
}

/// A digit string is worth at least as much as any of its prefixes.
pub proof fn lemma_digits_value_prefix(s: Seq<char>, k: int)
    requires
        all_digits(s),
        0 <= k <= s.len(),
    ensures
        digits_value(s.take(k)) <= digits_value(s),
        0 <= digits_value(s),
    decreases s.len(),
{
    if s.len() == 0 {
        assert(s.take(k) =~= s);
    } else if k == s.len() {
        assert(s.take(k) =~= s);
        lemma_digits_value_prefix(s.drop_last(), k - 1);
    } else {
        assert(s.drop_last().take(k) =~= s.take(k));
        lemma_digits_value_prefix(s.drop_last(), k);
        assert(is_digit(s[s.len() - 1]));
    }
}

proof fn lemma_digits_value_step(s: Seq<char>, i: int)
    requires
        0 <= i < s.len(),
    ensures
        digits_value(s.take(i + 1)) == digits_value(s.take(i)) * 10 + ((s[i] as int) - ('0' as int)),
{
    assert(s.take(i + 1).drop_last() =~= s.take(i));
}

/// Reads the digits `v[lo..hi]` (all of them digits, `lo < hi`) into a
/// magnitude, giving up with `None` as soon as it exceeds `bound`.
fn digits_magnitude(v: &Vec<char>, lo: usize, hi: usize, bound: u64) -> (r: Option<u64>)
    requires
        lo <= hi <= v@.len(),
        bound <= 0x8000_0000_0000_0000,
    ensures
        ({
            let d = v@.subrange(lo as int, hi as int);
            match r {
                Some(m) => all_digits(d) && m == digits_value(d) && m <= bound,
                None => !all_digits(d) || digits_value(d) > bound,
            }
        }),
{
    let ghost d = v@.subrange(lo as int, hi as int);
    let mut acc: u128 = 0;
    let mut i = lo;
    while i < hi
        invariant
            lo <= i <= hi <= v@.len(),
            bound <= 0x8000_0000_0000_0000,
            d == v@.subrange(lo as int, hi as int),
            all_digits(d.take(i - lo)),
            acc == digits_value(d.take(i - lo)),
            acc <= bound,
        decreases hi - i,
    {
        let c = v[i];
        proof {
            lemma_digits_value_step(d, i - lo);
            assert(d[i - lo] == c);
        }
        if c < '0' || c > '9' {
            assert(!is_digit(d[i - lo]));
            return None;
        }
        let digit = (c as u32 - '0' as u32) as u128;
        acc = acc * 10 + digit;
        assert(d.take(i + 1 - lo) =~= d.take(i - lo).push(c));
        if acc > bound as u128 {
            proof {
                if all_digits(d) {
                    lemma_digits_value_prefix(d, i + 1 - lo);
                }
            }
            return None;
        }
        i = i + 1;
    }
    assert(d.take(hi - lo) =~= d);
    Some(acc as u64)
}

/// `i32::from_str` on the characters `v[lo..hi]`.
pub fn parse_i32_range(v: &Vec<char>, lo: usize, hi: usize) -> (r: Option<i32>)
    requires
        lo <= hi <= v@.len(),
    ensures
        r == spec_parse_i32(v@.subrange(lo as int, hi as int)),
{
    let ghost s = v@.subrange(lo as int, hi as int);
    if lo == hi {
        return None;
    }
    let first = v[lo];
    if first == '-' {
        assert(s.drop_first() =~= v@.subrange(lo + 1, hi as int));
        if lo + 1 == hi {
            return None;
        }
        match digits_magnitude(v, lo + 1, hi, 0x8000_0000) {
            Some(m) => {
                let value: i64 = 0 - (m as i64);
                Some(value as i32)
            },
            None => None,
        }
    } else {
        let start = if first == '+' {
            lo + 1
        } else {
            lo
        };
        assert(first == '+' ==> s.drop_first() =~= v@.subrange(start as int, hi as int));
        assert(first != '+' ==> s =~= v@.subrange(start as int, hi as int));
        if start == hi {
            return None;
        }
        match digits_magnitude(v, start, hi, 0x7fff_ffff) {
            Some(m) => Some(m as i32),
            None => None,
        }
    }
}

/// `i32::from_str`: an optional sign, then ASCII digits whose value fits.
pub fn parse_i32(s: &str) -> (r: Option<i32>)
    ensures
        r == spec_parse_i32(s@),
{
    let chars = str_chars(s);
    assert(chars@.subrange(0, chars@.len() as int) =~= chars@);
    parse_i32_range(&chars, 0, chars.len())
}

/// What `i64::from_str` accepts: an optional `+` or `-`, then one or more
/// ASCII digits whose value fits in `i64`.
pub open spec fn spec_parse_i64(s: Seq<char>) -> Option<i64> {
    if s.len() == 0 {
        None
    } else if s[0] == '-' {
        let d = s.drop_first();
        if d.len() > 0 && all_digits(d) && digits_value(d) <= 0x8000_0000_0000_0000 {
            Some((-digits_value(d)) as i64)
        } else {
            None
        }
    } else {
        let d = if s[0] == '+' {
            s.drop_first()
        } else {
            s
        };
        if d.len() > 0 && all_digits(d) && digits_value(d) <= 0x7fff_ffff_ffff_ffff {
            Some(digits_value(d) as i64)
        } else {
            None
        }
    }
}

/// `i64::from_str` on the characters `v[lo..hi]`.
pub fn parse_i64_range(v: &Vec<char>, lo: usize, hi: usize) -> (r: Option<i64>)
    requires
        lo <= hi <= v@.len(),
    ensures
        r == spec_parse_i64(v@.subrange(lo as int, hi as int)),
{
    let ghost s = v@.subrange(lo as int, hi as int);
    if lo == hi {
        return None;
    }
    let first = v[lo];
    if first == '-' {
        assert(s.drop_first() =~= v@.subrange(lo + 1, hi as int));
        if lo + 1 == hi {
            return None;
        }
        match digits_magnitude(v, lo + 1, hi, 0x8000_0000_0000_0000) {
            Some(m) => {
                let value: i128 = 0 - (m as i128);
                Some(value as i64)
            },
            None => None,
        }
    } else {
        let start = if first == '+' {
            lo + 1
        } else {
            lo
        };
        assert(first == '+' ==> s.drop_first() =~= v@.subrange(start as int, hi as int));
        assert(first != '+' ==> s =~= v@.subrange(start as int, hi as int));
        if start == hi {
            return None;
        }
        match digits_magnitude(v, start, hi, 0x7fff_ffff_ffff_ffff) {
            Some(m) => Some(m as i64),
            None => None,
        }
    }
}

/// `i64::from_str`: an optional sign, then ASCII digits whose value fits.
pub fn parse_i64(s: &str) -> (r: Option<i64>)
    ensures
        r == spec_parse_i64(s@),
{
    let chars = str_chars(s);
    assert(chars@.subrange(0, chars@.len() as int) =~= chars@);
    parse_i64_range(&chars, 0, chars.len())
}

/// Index of the first `c` in `s`, or `s.len()` when `c` does not occur.
pub open spec fn first_index_of(s: Seq<char>, c: char) -> int
    decreases s.len(),
{
    if s.len() == 0 {
        0
    } else if s[0] == c {
        0
    } else {
        1 + first_index_of(s.drop_first(), c)
    }
}

/// `first_index_of` is the least index holding `c`, or the length.
pub proof fn lemma_first_index_of(s: Seq<char>, c: char)
    ensures
        0 <= first_index_of(s, c) <= s.len(),
        forall|j: int| 0 <= j < first_index_of(s, c) ==> s[j] != c,
        first_index_of(s, c) < s.len() ==> s[first_index_of(s, c)] == c,
    decreases s.len(),
{
    if s.len() > 0 && s[0] != c {
        lemma_first_index_of(s.drop_first(), c);
        assert forall|j: int| 0 <= j < first_index_of(s, c) implies s[j] != c by {
            if j > 0 {
                assert(s[j] == s.drop_first()[j - 1]);
            }
        }
    }
}

/// Any index with the defining properties of `first_index_of` is it.
pub proof fn lemma_first_index_of_unique(s: Seq<char>, c: char, r: int)
    requires
        0 <= r <= s.len(),
        forall|j: int| 0 <= j < r ==> s[j] != c,
        r < s.len() ==> s[r] == c,
    ensures
        first_index_of(s, c) == r,
{
    lemma_first_index_of(s, c);
    let f = first_index_of(s, c);
    if f < r {
        assert(s[f] != c);
    } else if r < f {
        assert(s[r] != c);
    }
}

/// Position of the first `c` in `v[lo..hi]`, or `hi` when there is none.
pub fn find_char(v: &Vec<char>, lo: usize, hi: usize, c: char) -> (r: usize)
    requires
        lo <= hi <= v@.len(),
    ensures
        lo <= r <= hi,
        r - lo == first_index_of(v@.subrange(lo as int, hi as int), c),
{
    let mut i = lo;
    while i < hi && v[i] != c
        invariant
            lo <= i <= hi <= v@.len(),
            forall|j: int| lo <= j < i ==> v@[j] != c,
        decreases hi - i,
    {
        i = i + 1;
    }
    proof {
        let s = v@.subrange(lo as int, hi as int);
        assert forall|j: int| 0 <= j < i - lo implies s[j] != c by {
            assert(s[j] == v@[lo + j]);
        }
        lemma_first_index_of_unique(s, c, i - lo);
    }
    i
}

/// `String::push`: appends one character.
#[verifier::external_body]
pub(crate) fn string_push(s: &mut String, c: char)
    ensures
        final(s)@ == old(s)@.push(c),
{
    s.push(c);
}

/// The ASCII digit for `d < 10`.
pub open spec fn digit_char(d: nat) -> char {
    ((d + 48) as u32) as char
}

/// Base-10 digits of `n`, most significant first, without leading zeros.
pub open spec fn spec_digits_of(n: nat) -> Seq<char>
    decreases n,
{
    if n < 10 {
        seq![digit_char(n)]
    } else {
        spec_digits_of(n / 10).push(digit_char(n % 10))
    }
}

/// How `Display` writes an integer: an optional `-` and its digits.
pub open spec fn spec_decimal(n: int) -> Seq<char> {
    if n < 0 {
        seq!['-'] + spec_digits_of((-n) as nat)
    } else {
        spec_digits_of(n as nat)
    }
}

/// The decimal digits of `n` are digits, at least one, and worth `n`.
pub proof fn lemma_digits_of(n: nat)
    ensures
        spec_digits_of(n).len() >= 1,
        all_digits(spec_digits_of(n)),
        digits_value(spec_digits_of(n)) == n,
    decreases n,
{
    assert((digit_char(n % 10) as int) == n % 10 + 48);
    if n >= 10 {
        lemma_digits_of(n / 10);
        let d = spec_digits_of(n);
        assert(d.drop_last() =~= spec_digits_of(n / 10));
        assert(d.last() == digit_char(n % 10));
        assert(n == (n / 10) * 10 + n % 10) by (nonlinear_arith);
        assert(digits_value(d) == digits_value(spec_digits_of(n / 10)) * 10 + n % 10);
        assert forall|i: int| 0 <= i < d.len() implies is_digit(#[trigger] d[i]) by {
            if i < d.len() - 1 {
                assert(d[i] == spec_digits_of(n / 10)[i]);
            }
        }
    } else {
        assert(spec_digits_of(n) =~= seq![digit_char(n)]);
        assert(spec_digits_of(n).drop_last() =~= Seq::<char>::empty());
        assert(digits_value(Seq::<char>::empty()) == 0);
        assert(n % 10 == n);
        assert(spec_digits_of(n).last() == digit_char(n));
    }
}

/// Reading the decimal form of an `i32` gives the number back, and the
/// form holds only `-` and digits.
pub proof fn lemma_parse_decimal_i32(a: i32)
    ensures
        spec_parse_i32(spec_decimal(a as int)) == Some(a),
        forall|i: int| 0 <= i < spec_decimal(a as int).len() ==> (#[trigger] spec_decimal(a as int)[i] == '-'
            || is_digit(spec_decimal(a as int)[i])),
{
    let s = spec_decimal(a as int);
    if a < 0 {
        let m = (-a) as nat;
        lemma_digits_of(m);
        assert(s.drop_first() =~= spec_digits_of(m));
        assert forall|i: int| 0 <= i < s.len() implies (#[trigger] s[i] == '-' || is_digit(s[i])) by {
            if i > 0 {
                assert(s[i] == spec_digits_of(m)[i - 1]);
            }
        }
    } else {
        lemma_digits_of(a as nat);
        assert(is_digit(s[0]));
    }
}

fn push_digits(s: &mut String, m: u64)
    ensures
        final(s)@ == old(s)@ + spec_digits_of(m as nat),
    decreases m,
{
    if m >= 10 {
        push_digits(s, m / 10);
    }
    let d = (m % 10) as u32 + 48;
    let c = char_from_ascii_digit(d);
    string_push(s, c);
    proof {
        if m >= 10 {
            assert(old(s)@ + spec_digits_of(m as nat) =~= old(s)@ + spec_digits_of((m / 10) as nat)
                + seq![digit_char((m % 10) as nat)]);
        } else {
            assert(spec_digits_of(m as nat) =~= seq![digit_char(m as nat)]);
        }
    }
}

fn char_from_ascii_digit(d: u32) -> (c: char)
    requires
        48 <= d <= 57,
    ensures
        c == d as char,
{
    let b = d as u8;
    b as char
}

/// Appends the decimal form of `n` to `s`, as `write!(s, "{}", n)` does.
pub fn push_decimal_u64(s: &mut String, n: u64)
    ensures
        final(s)@ == old(s)@ + spec_decimal(n as int),
{
    push_digits(s, n);
}

/// Appends the decimal form of `n` to `s`, as `write!(s, "{}", n)` does.
pub fn push_decimal_i32(s: &mut String, n: i32)
    ensures
        final(s)@ == old(s)@ + spec_decimal(n as int),
{
    if n < 0 {
        string_push(s, '-');
        let m: u64 = (0 - (n as i64)) as u64;
        push_digits(s, m);
        assert(old(s)@ + spec_decimal(n as int) =~= old(s)@.push('-') + spec_digits_of(m as nat));
    } else {
        push_digits(s, n as u64);
    }
}

/// Copies the characters of `s` into a vector.
pub fn str_chars(s: &str) -> (out: Vec<char>)
    ensures
        out@ == s@,
{
    broadcast use vstd::string::group_string_axioms;

    let mut out: Vec<char> = Vec::new();
    for c in it: s.chars()
        invariant
            it.seq() == s@,
            out@ == it.seq().take(it.index() as int),
    {
        out.push(c);
    }
    out
}

/// `v[lo..hi]` equals `prefix` character by character.
pub fn chars_match_at(v: &Vec<char>, lo: usize, prefix: &Vec<char>) -> (r: bool)
    requires
        lo <= v@.len(),
    ensures
        r == (lo + prefix@.len() <= v@.len() && v@.subrange(lo as int, lo + prefix@.len()) == prefix@),
{
    if prefix.len() > v.len() - lo {
        return false;
    }
    let vlen = v.len();
    let mut i: usize = 0;
    while i < prefix.len()
        invariant
            vlen == v@.len(),
            lo + prefix@.len() <= v@.len(),
            i <= prefix@.len(),
            forall|j: int| 0 <= j < i ==> v@[lo + j] == prefix@[j],
        decreases prefix@.len() - i,
    {
        if v[lo + i] != prefix[i] {
            assert(v@.subrange(lo as int, lo + prefix@.len())[i as int] != prefix@[i as int]);
            return false;
        }
        i = i + 1;
    }
    assert(v@.subrange(lo as int, lo + prefix@.len()) =~= prefix@);
    true
}

/// The characters in `v` are exactly those of `word`.
pub fn chars_equal_str(v: &Vec<char>, word: &str) -> (r: bool)
    ensures
        r == (v@ == word@),
{
    let w = str_chars(word);
    if w.len() != v.len() {
        return false;
    }
    let m = chars_match_at(v, 0, &w);
    assert(v@.subrange(0, w@.len() as int) =~= v@);
    m
}

/// `str::strip_prefix` for a string prefix: the rest of `s` after `prefix`,
/// or `None` when `s` does not start with `prefix`.
pub fn strip_str_prefix<'a>(s: &'a str, prefix: &str) -> (r: Option<&'a str>)
    ensures
        r is Some <==> prefix@.is_prefix_of(s@),
        r matches Some(rest) ==> rest@ == s@.skip(prefix@.len() as int),
{
    let chars = str_chars(s);
    let pre = str_chars(prefix);
    if chars_match_at(&chars, 0, &pre) {
        Some(s.substring_char(pre.len(), chars.len()))
    } else {
        None
    }
}

/// Unicode `White_Space` characters, the ones `char::is_whitespace` accepts.
pub open spec fn is_white_space(c: char) -> bool {
    ('\u{9}' <= c <= '\u{d}') || c == ' ' || c == '\u{85}' || c == '\u{a0}' || c == '\u{1680}'
        || ('\u{2000}' <= c <= '\u{200a}') || c == '\u{2028}' || c == '\u{2029}' || c
        == '\u{202f}' || c == '\u{205f}' || c == '\u{3000}'
}

fn white_space(c: char) -> (r: bool)
    ensures
        r == is_white_space(c),
{
    ('\u{9}' <= c && c <= '\u{d}') || c == ' ' || c == '\u{85}' || c == '\u{a0}' || c
        == '\u{1680}' || ('\u{2000}' <= c && c <= '\u{200a}') || c == '\u{2028}' || c
        == '\u{2029}' || c == '\u{202f}' || c == '\u{205f}' || c == '\u{3000}'
}

/// `t` is `s` without its leading and trailing white space.
pub open spec fn is_trim_of(t: Seq<char>, s: Seq<char>) -> bool {
    exists|i: int, j: int|
        0 <= i <= j <= s.len() && t == s.subrange(i, j) && (forall|k: int|
            0 <= k < i ==> is_white_space(#[trigger] s[k])) && (forall|k: int|
            j <= k < s.len() ==> is_white_space(#[trigger] s[k])) && (i < j ==> !is_white_space(
            s[i],
        ) && !is_white_space(s[j - 1]))
}

/// `str::trim`: `s` without leading and trailing white space.
pub fn trim_white_space(s: &str) -> (r: &str)
    ensures
        is_trim_of(r@, s@),
{
    let v = str_chars(s);
    let n = v.len();
    let mut i: usize = 0;
    while i < n && white_space(v[i])
        invariant
            n == v@.len(),
            i <= n,
            forall|k: int| 0 <= k < i ==> is_white_space(#[trigger] v@[k]),
        decreases n - i,
    {
        i = i + 1;
    }
    let mut j: usize = n;
    while j > i && white_space(v[j - 1])
        invariant
            n == v@.len(),
            i <= j <= n,
            i < n ==> !is_white_space(v@[i as int]),
            forall|k: int| j <= k < n ==> is_white_space(#[trigger] v@[k]),
        decreases j - i,
    {
        j = j - 1;
    }
    let r = s.substring_char(i, j);
    assert(is_trim_of(r@, s@)) by {
        assert(r@ == s@.subrange(i as int, j as int));
    }
    r
}

/// The trimmed string is empty exactly when `s` is all white space.
pub proof fn lemma_trim_empty(t: Seq<char>, s: Seq<char>)
    requires
        is_trim_of(t, s),
    ensures
        t.len() == 0 <==> forall|k: int| 0 <= k < s.len() ==> is_white_space(#[trigger] s[k]),
{
    let (i, j) = choose|i: int, j: int|
        0 <= i <= j <= s.len() && t == s.subrange(i, j) && (forall|k: int|
            0 <= k < i ==> is_white_space(#[trigger] s[k])) && (forall|k: int|
            j <= k < s.len() ==> is_white_space(#[trigger] s[k])) && (i < j ==> !is_white_space(
            s[i],
        ) && !is_white_space(s[j - 1]));
    if t.len() == 0 {
        assert forall|k: int| 0 <= k < s.len() implies is_white_space(#[trigger] s[k]) by {
            if k >= i {
                assert(k >= j);
            }
        }
    } else {
        assert(!is_white_space(s[i]));
    }
}

/// A character with ASCII capitals folded to lower case, as a code point.
pub open spec fn ascii_fold(c: char) -> u32 {
    if 65 <= (c as u32) <= 90 {
        ((c as u32) + 32) as u32
    } else {
        c as u32
    }
}

/// `str::eq_ignore_ascii_case`: same length, and equal characters once
/// ASCII capitals are folded.
pub open spec fn spec_eq_ignore_ascii_case(a: Seq<char>, b: Seq<char>) -> bool {
    a.len() == b.len() && forall|i: int| 0 <= i < a.len() ==> ascii_fold(#[trigger] a[i]) == ascii_fold(b[i])
}

fn fold_exec(c: char) -> (r: u32)
    ensures
        r == ascii_fold(c),
{
    let v = c as u32;
    if 65 <= v && v <= 90 {
        v + 32
    } else {
        v
    }
}

/// Compares two strings ignoring ASCII case.
pub fn eq_ignore_ascii_case(a: &str, b: &str) -> (r: bool)
    ensures
        r == spec_eq_ignore_ascii_case(a@, b@),
{
    let x = str_chars(a);
    let y = str_chars(b);
    if x.len() != y.len() {
        return false;
    }
    let mut i: usize = 0;
    while i < x.len()
        invariant
            x@ == a@,
            y@ == b@,
            x@.len() == y@.len(),
            i <= x@.len(),
            forall|j: int| 0 <= j < i ==> ascii_fold(#[trigger] x@[j]) == ascii_fold(y@[j]),
        decreases x@.len() - i,
    {
        if fold_exec(x[i]) != fold_exec(y[i]) {
            return false;
        }
        i = i + 1;
    }
    true
}

} // verus!
