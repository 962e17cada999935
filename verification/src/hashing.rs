//! Content digests used to detect changed memory files.
//!
//! The digest only drives change detection, so a fast non-cryptographic
//! hash (FNV-1a over the characters) is sufficient; nothing here is
//! security-sensitive.

use vstd::prelude::*;

use crate::text::str_to_chars;
use crate::text::chars_to_string;

verus! {

pub const FNV_OFFSET: u64 = 0xcbf29ce484222325;

pub const FNV_PRIME: u64 = 0x100000001b3;

/// FNV-1a over the first `n` characters of the sequence.
pub open spec fn fnv1a_at(s: Seq<char>, n: int) -> u64
    decreases n,
{
    if n <= 0 {
        FNV_OFFSET
    } else {
        vstd::wrapping::u64_specs::wrapping_mul(fnv1a_at(s, n - 1) ^ (s[n - 1] as u64), FNV_PRIME)
    }
}

/// The digest of a whole character sequence, widened to 128 bits.
pub open spec fn spec_md5_hash(s: Seq<char>) -> u128 {
    fnv1a_at(s, s.len() as int) as u128
}

/// Digest of a memory file's content, used to decide whether it changed.
pub fn md5_hash(content: &str) -> (r: u128)
    ensures
        r == spec_md5_hash(content@),
{
    let chars = str_to_chars(content);
    let mut h: u64 = FNV_OFFSET;
    let mut i: usize = 0;
    while i < chars.len()
        invariant
            i <= chars.len(),
            chars@ == content@,
            h == fnv1a_at(content@, i as int),
        decreases chars.len() - i,
    {
        let c = chars[i];
        h = (h ^ (c as u64)).wrapping_mul(FNV_PRIME);
        i = i + 1;
    }
    h as u128
}

/// The lowercase hexadecimal digit for a value below 16.
pub open spec fn spec_hex_digit(d: int) -> char {
    if d == 0 {
        '0'
    } else if d == 1 {
        '1'
    } else if d == 2 {
        '2'
    } else if d == 3 {
        '3'
    } else if d == 4 {
        '4'
    } else if d == 5 {
        '5'
    } else if d == 6 {
        '6'
    } else if d == 7 {
        '7'
    } else if d == 8 {
        '8'
    } else if d == 9 {
        '9'
    } else if d == 10 {
        'a'
    } else if d == 11 {
        'b'
    } else if d == 12 {
        'c'
    } else if d == 13 {
        'd'
    } else if d == 14 {
        'e'
    } else {
        'f'
    }
}

/// Lowercase hexadecimal rendering without leading zeros, as the `{:x}`
/// format produces; zero renders as "0".
pub open spec fn spec_hex(h: u128) -> Seq<char>
    decreases h,
{
    if h < 16 {
        seq![spec_hex_digit(h as int)]
    } else {
        spec_hex(h / 16).push(spec_hex_digit((h % 16) as int))
    }
}

fn hex_digit(d: u128) -> (r: char)
    requires
        d < 16,
    ensures
        r == spec_hex_digit(d as int),
{
    if d == 0 {
        '0'
    } else if d == 1 {
        '1'
    } else if d == 2 {
        '2'
    } else if d == 3 {
        '3'
    } else if d == 4 {
        '4'
    } else if d == 5 {
        '5'
    } else if d == 6 {
        '6'
    } else if d == 7 {
        '7'
    } else if d == 8 {
        '8'
    } else if d == 9 {
        '9'
    } else if d == 10 {
        'a'
    } else if d == 11 {
        'b'
    } else if d == 12 {
        'c'
    } else if d == 13 {
        'd'
    } else if d == 14 {
        'e'
    } else {
        'f'
    }
}

/// Renders a digest the way the store records it: lowercase hex without
/// leading zeros.
pub fn hash_to_hex(h: u128) -> (r: String)
    ensures
        r@ == spec_hex(h),
{
    let mut digits: Vec<char> = Vec::new();
    let mut rest: u128 = h;
    loop
        invariant
            spec_hex(h) =~= spec_hex(rest) + digits@,
        decreases rest,
    {
        let d = rest % 16;
        let next = rest / 16;
        let ghost old_digits = digits@;
        digits.insert(0, hex_digit(d));
        proof {
            if rest >= 16 {
                assert(spec_hex(rest) =~= spec_hex(next) + seq![spec_hex_digit(d as int)]);
            }
            assert(digits@ =~= seq![spec_hex_digit(d as int)] + old_digits);
        }
        if next == 0 {
            proof {
                assert(spec_hex(rest) =~= seq![spec_hex_digit(d as int)]);
                assert(spec_hex(h) =~= digits@);
            }
            return chars_to_string(&digits);
        }
        proof {
            assert(spec_hex(h) =~= spec_hex(next) + digits@);
        }
        rest = next;
    }
}

} // verus!
