//! The stable content fingerprint and number formatting.
//!
//! Snapshot dedup and the content-addressed snapshot directories both key
//! off this hash, so it is an explicit, fully specified mapping rather
//! than any default hasher whose value could change between runs.

use vstd::prelude::*;
use crate::text::str_chars;

verus! {

pub const FNV_OFFSET_BASIS: u64 = 0xcbf29ce484222325;

pub const FNV_PRIME: u64 = 0x100000001b3;

/// One FNV-1a step: fold one character's code point into the state.
pub open spec fn spec_hash64_step(h: u64, c: char) -> u64 {
    vstd::wrapping::u64_specs::wrapping_mul(h ^ (c as u64), FNV_PRIME)
}

/// FNV-1a over the characters of `s`.
pub open spec fn spec_hash64(s: Seq<char>) -> u64
    decreases s.len(),
{
    if s.len() == 0 {
        FNV_OFFSET_BASIS
    } else {
        spec_hash64_step(spec_hash64(s.drop_last()), s.last())
    }
}

/// The content fingerprint used for snapshot dedup and directory naming.
pub fn hash_u64(value: &str) -> (r: u64)
    ensures
        r == spec_hash64(value@),
{
    let chars = str_chars(value);
    let n = chars.len();
    let mut h: u64 = FNV_OFFSET_BASIS;
    let mut i: usize = 0;
    while i < n
        invariant
            n == chars@.len(),
            chars@ == value@,
            i <= n,
            h == spec_hash64(value@.take(i as int)),
        decreases n - i,
    {
        proof {
            assert(value@.take(i + 1 as int).drop_last() =~= value@.take(i as int));
            assert(value@.take(i + 1 as int).last() == value@[i as int]);
        }
        h = (h ^ (chars[i] as u64)).wrapping_mul(FNV_PRIME);
        i = i + 1;
    }
    proof {
        assert(value@.take(value@.len() as int) =~= value@);
    }
    h
}

// --- number formatting ---

/// The character for one digit value below 16, lowercase.
pub open spec fn spec_digit_char(d: u64) -> char {
    if d < 10 {
        ((48 + d) as u8) as char
    } else {
        ((87 + d) as u8) as char
    }
}

fn digit_char(d: u64) -> (r: char)
    requires
        d < 16,
    ensures
        r == spec_digit_char(d),
{
    if d < 10 {
        ((48 + d) as u8) as char
    } else {
        ((87 + d) as u8) as char
    }
}

/// The lowercase hexadecimal digits of `n`, most significant first,
/// as `{:x}` formatting renders them.
pub open spec fn spec_hex_chars(n: u64) -> Seq<char>
    decreases n,
{
    if n < 16 {
        seq![spec_digit_char(n)]
    } else {
        spec_hex_chars(n / 16).push(spec_digit_char(n % 16))
    }
}

/// The decimal digits of `n`, most significant first, as `{}` formatting
/// renders them.
pub open spec fn spec_dec_chars(n: u64) -> Seq<char>
    decreases n,
{
    if n < 10 {
        seq![spec_digit_char(n)]
    } else {
        spec_dec_chars(n / 10).push(spec_digit_char(n % 10))
    }
}

fn reverse_chars(v: &Vec<char>) -> (r: Vec<char>)
    ensures
        r@ == v@.reverse(),
{
    let n = v.len();
    let mut out: Vec<char> = Vec::new();
    let mut i: usize = n;
    while i > 0
        invariant
            n == v@.len(),
            i <= n,
            out@.len() == n - i,
            forall|j: int| 0 <= j < out@.len() ==> out@[j] == v@[n - 1 - j],
        decreases i,
    {
        out.push(v[i - 1]);
        i = i - 1;
    }
    proof {
        assert(out@ =~= v@.reverse());
    }
    out
}

/// `n` in lowercase hexadecimal.
pub fn u64_to_hex(n: u64) -> (r: String)
    ensures
        r@ == spec_hex_chars(n),
{
    let mut digits: Vec<char> = Vec::new();
    let mut m: u64 = n;
    loop
        invariant_except_break
            m == 0 ==> digits@.len() == 0,
            spec_hex_chars(n) == spec_hex_chars(m) + digits@.reverse(),
        ensures
            spec_hex_chars(n) == digits@.reverse(),
        decreases m, (if digits@.len() == 0 { 1int } else { 0int }),
    {
        let d = m % 16;
        let c = digit_char(d);
        let next = m / 16;
        proof {
            assert(digits@.push(c).reverse() =~= seq![c] + digits@.reverse());
            if m >= 16 {
                assert(spec_hex_chars(m) == spec_hex_chars(m / 16).push(spec_digit_char(m % 16)));
                assert(spec_hex_chars(m / 16).push(spec_digit_char(m % 16)) + digits@.reverse()
                    =~= spec_hex_chars(m / 16) + (seq![c] + digits@.reverse()));
            } else {
                assert(spec_hex_chars(m) =~= seq![c]);
                assert(spec_hex_chars(m) + digits@.reverse() =~= seq![c] + digits@.reverse());
            }
        }
        digits.push(c);
        m = next;
        if m == 0 {
            break;
        }
    }
    let ordered = reverse_chars(&digits);
    proof {
        assert(ordered@ =~= digits@.reverse());
    }
    crate::text::chars_to_string(&ordered)
}

/// `n` in decimal.
pub fn u64_to_dec(n: u64) -> (r: String)
    ensures
        r@ == spec_dec_chars(n),
{
    let mut digits: Vec<char> = Vec::new();
    let mut m: u64 = n;
    loop
        invariant_except_break
            m == 0 ==> digits@.len() == 0,
            spec_dec_chars(n) == spec_dec_chars(m) + digits@.reverse(),
        ensures
            spec_dec_chars(n) == digits@.reverse(),
        decreases m, (if digits@.len() == 0 { 1int } else { 0int }),
    {
        let d = m % 10;
        let c = digit_char(d);
        let next = m / 10;
        proof {
            assert(digits@.push(c).reverse() =~= seq![c] + digits@.reverse());
            if m >= 10 {
                assert(spec_dec_chars(m) == spec_dec_chars(m / 10).push(spec_digit_char(m % 10)));
                assert(spec_dec_chars(m / 10).push(spec_digit_char(m % 10)) + digits@.reverse()
                    =~= spec_dec_chars(m / 10) + (seq![c] + digits@.reverse()));
            } else {
                assert(spec_dec_chars(m) =~= seq![c]);
                assert(spec_dec_chars(m) + digits@.reverse() =~= seq![c] + digits@.reverse());
            }
        }
        digits.push(c);
        m = next;
        if m == 0 {
            break;
        }
    }
    let ordered = reverse_chars(&digits);
    proof {
        assert(ordered@ =~= digits@.reverse());
    }
    crate::text::chars_to_string(&ordered)
}

} // verus!
