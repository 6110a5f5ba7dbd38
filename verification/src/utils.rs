use vstd::prelude::*;
use crate::natural::{digits_value, nat_of};

verus! {

pub open spec fn is_ascii_digit(b: u8) -> bool {
    48 <= b <= 57
}

pub open spec fn is_ascii_alpha(b: u8) -> bool {
    (65 <= b <= 90) || (97 <= b <= 122)
}

pub open spec fn all_digits(s: Seq<u8>) -> bool {
    forall|i: int| 0 <= i < s.len() ==> is_ascii_digit(#[trigger] s[i])
}

/// Parses a run of decimal digits whose shape the caller has already checked.
pub fn parse_validated(s: &[u8]) -> (r: num::BigUint)
    requires
        s@.len() > 0,
        all_digits(s@),
    ensures
        nat_of(r) == digits_value(s@),
{
    crate::natural::big_from_digits(s)
}

/// Copies the byte range `[from, to)` out of a slice.
pub fn copy_range(s: &[u8], from: usize, to: usize) -> (r: Vec<u8>)
    requires
        from <= to <= s@.len(),
    ensures
        r@ == s@.subrange(from as int, to as int),
{
    let mut out: Vec<u8> = Vec::new();
    let mut i: usize = from;
    while i < to
        invariant
            from <= i <= to <= s@.len(),
            out@ == s@.subrange(from as int, i as int),
        decreases to - i,
    {
        out.push(s[i]);
        proof {
            assert(s@.subrange(from as int, (i + 1) as int) =~= s@.subrange(
                from as int,
                i as int,
            ).push(s@[i as int]));
        }
        i = i + 1;
    }
    out
}

/// Appends all of `src` to `dst`.
pub fn push_all(dst: &mut Vec<u8>, src: &[u8])
    ensures
        final(dst)@ == old(dst)@ + src@,
{
    let mut i: usize = 0;
    while i < src.len()
        invariant
            0 <= i <= src@.len(),
            dst@ == old(dst)@ + src@.subrange(0, i as int),
        decreases src@.len() - i,
    {
        dst.push(src[i]);
        proof {
            assert(old(dst)@ + src@.subrange(0, (i + 1) as int) =~= (old(dst)@ + src@.subrange(
                0,
                i as int,
            )).push(src@[i as int]));
        }
        i = i + 1;
    }
    proof {
        assert(old(dst)@ + src@.subrange(0, src@.len() as int) =~= old(dst)@ + src@);
    }
}

/// The value of one hexadecimal digit byte, or 16 for any other byte.
pub open spec fn hex_val(b: u8) -> nat {
    if 48 <= b <= 57 {
        (b - 48) as nat
    } else if 65 <= b <= 70 {
        (b - 55) as nat
    } else if 97 <= b <= 102 {
        (b - 87) as nat
    } else {
        16
    }
}

/// Decodes a 64-digit hexadecimal string into the 32 bytes of a seed; any
/// other length or byte is rejected.
#[verifier::loop_isolation(false)]
pub fn decode_seed(s: &[u8]) -> (r: Option<Vec<u8>>)
    ensures
        match r {
            Some(v) => s@.len() == 64 && v@.len() == 32 && forall|i: int|
                0 <= i < 32 ==> #[trigger] v@[i] as nat == 16 * hex_val(s@[2 * i]) + hex_val(
                    s@[2 * i + 1],
                ),
            None => s@.len() != 64 || exists|i: int| 0 <= i < 64 && hex_val(#[trigger] s@[i]) >= 16,
        },
{
    if s.len() != 64 {
        return None;
    }
    let mut out: Vec<u8> = Vec::new();
    let mut i: usize = 0;
    while i < 32
        invariant
            0 <= i <= 32,
            out@.len() == i,
            forall|k: int|
                0 <= k < i ==> #[trigger] out@[k] as nat == 16 * hex_val(s@[2 * k]) + hex_val(
                    s@[2 * k + 1],
                ),
        decreases 32 - i,
    {
        let hi = match hex_digit(s[2 * i]) {
            Some(d) => d,
            None => {
                return None;
            },
        };
        let lo = match hex_digit(s[2 * i + 1]) {
            Some(d) => d,
            None => {
                return None;
            },
        };
        out.push(16 * hi + lo);
        i = i + 1;
    }
    Some(out)
}

fn hex_digit(b: u8) -> (r: Option<u8>)
    ensures
        match r {
            Some(d) => hex_val(b) < 16 && d as nat == hex_val(b),
            None => hex_val(b) >= 16,
        },
{
    if 48 <= b && b <= 57 {
        Some(b - 48)
    } else if 65 <= b && b <= 70 {
        Some(b - 55)
    } else if 97 <= b && b <= 102 {
        Some(b - 87)
    } else {
        None
    }
}

} // verus!
