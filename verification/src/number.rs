use vstd::prelude::*;
use crate::lexer::{
    digits_end, digits_len, is_number_text, lemma_digits_len_subrange, lemma_digits_run,
};
use crate::natural::{big_add, big_from_u64, big_mul, digits_value, nat_of, pow10};
use crate::rat::{rat_of_nat, normalize, RatV};
use crate::utils::{all_digits, copy_range, is_ascii_digit, parse_validated, push_all};
use crate::value::Value;

verus! {

// The numeric literal builder: the matched text becomes an exact rational
// value, and a normalized copy of the text (leading zeros of the whole part
// and trailing zeros of the fraction removed, an empty fraction collapsed)
// goes onto the trace.

/// Length of the run of `'0'` bytes beginning at `i`.
pub open spec fn zeros_len(s: Seq<u8>, i: int) -> nat
    decreases s.len() - i,
{
    if 0 <= i < s.len() && s[i] == 48 {
        1 + zeros_len(s, i + 1)
    } else {
        0
    }
}

/// Number of `'0'` bytes at the end of `s`.
pub open spec fn trail_zeros(s: Seq<u8>) -> nat
    decreases s.len(),
{
    if s.len() > 0 && s.last() == 48 {
        1 + trail_zeros(s.drop_last())
    } else {
        0
    }
}

/// `s` with leading zeros removed; a run of nothing but zeros becomes `"0"`.
pub open spec fn trim0(s: Seq<u8>) -> Seq<u8> {
    let z = zeros_len(s, 0) as int;
    if z == s.len() {
        seq![48u8]
    } else {
        s.subrange(z, s.len() as int)
    }
}

/// The normalized display text of a numeric literal.
pub open spec fn number_display(s: Seq<u8>) -> Seq<u8> {
    let d = digits_len(s, 0) as int;
    let whole = s.subrange(0, d);
    if d == s.len() {
        trim0(whole)
    } else {
        let frac0 = s.subrange(d + 1, s.len() as int);
        let frac = frac0.subrange(0, frac0.len() - trail_zeros(frac0));
        if frac.len() == 0 {
            trim0(whole)
        } else {
            trim0(whole) + seq![46u8] + frac
        }
    }
}

/// The exact rational value of a numeric literal.
pub open spec fn number_rat(s: Seq<u8>) -> RatV {
    let d = digits_len(s, 0) as int;
    let whole = s.subrange(0, d);
    if d == s.len() {
        rat_of_nat(digits_value(whole))
    } else {
        let frac0 = s.subrange(d + 1, s.len() as int);
        let frac = frac0.subrange(0, frac0.len() - trail_zeros(frac0));
        if frac.len() == 0 {
            rat_of_nat(digits_value(whole))
        } else {
            normalize(
                (digits_value(whole) * pow10(frac.len()) + digits_value(frac)) as int,
                pow10(frac.len()) as int,
            )
        }
    }
}

/// Leading zeros do not change the value a digit run denotes.
proof fn lemma_dv_drop_zeros(s: Seq<u8>, k: int)
    requires
        0 <= k <= s.len(),
        forall|i: int| 0 <= i < k ==> s[i] == 48,
    ensures
        digits_value(s.subrange(k, s.len() as int)) == digits_value(s),
    decreases s.len(),
{
    if s.len() == 0 {
    } else if k == s.len() {
        assert(s.last() == 48);
        lemma_dv_drop_zeros(s.drop_last(), k - 1);
        assert(s.drop_last().subrange(k - 1, s.len() - 1) =~= s.subrange(k, s.len() as int));
    } else {
        assert(s.subrange(k, s.len() as int).drop_last() =~= s.drop_last().subrange(
            k,
            s.len() - 1,
        ));
        lemma_dv_drop_zeros(s.drop_last(), k);
        assert(s.subrange(k, s.len() as int).last() == s.last());
    }
}

/// Builds the exact value of the numeric literal `raw` and appends its
/// normalized display text to `output`.
pub fn build_number(raw: &[u8], output: &mut Vec<u8>) -> (r: Value)
    requires
        is_number_text(raw@),
    ensures
        final(output)@ == old(output)@ + number_display(raw@),
        r@ == number_rat(raw@),
{
    proof {
        lemma_digits_run(raw@, 0);
    }
    let d = digits_end(raw, 0);
    let whole: Vec<u8> = copy_range(raw, 0, d);

    // Trim the fraction's trailing zeros (absent fraction: an empty one).
    let mut frac: Vec<u8> = if d < raw.len() {
        proof {
            lemma_digits_run(raw@, d + 1);
        }
        copy_range(raw, d + 1, raw.len())
    } else {
        Vec::new()
    };
    let ghost frac0 = frac@;
    while frac.len() > 0 && frac[frac.len() - 1] == 48
        invariant
            frac@.len() <= frac0.len(),
            frac@ == frac0.subrange(0, frac@.len() as int),
            trail_zeros(frac0) == (frac0.len() - frac@.len()) + trail_zeros(frac@),
        decreases frac@.len(),
    {
        proof {
            assert(frac@.drop_last() =~= frac0.subrange(0, frac@.len() - 1));
        }
        frac.pop();
    }
    proof {
        assert(frac@ =~= frac0.subrange(0, frac0.len() - trail_zeros(frac0)));
    }

    // Trim the whole part's leading zeros.
    let mut k: usize = 0;
    while k < whole.len() && whole[k] == 48
        invariant
            0 <= k <= whole@.len(),
            zeros_len(whole@, 0) == k + zeros_len(whole@, k as int),
            forall|i: int| 0 <= i < k ==> whole@[i] == 48,
        decreases whole@.len() - k,
    {
        k = k + 1;
    }
    let trimmed: Vec<u8> = if k == whole.len() {
        let mut v: Vec<u8> = Vec::new();
        v.push(48);
        proof {
            assert(v@ =~= trim0(whole@));
        }
        v
    } else {
        copy_range(whole.as_slice(), k, whole.len())
    };

    // Display text.
    push_all(output, trimmed.as_slice());
    if frac.len() > 0 {
        output.push(46);
        push_all(output, frac.as_slice());
    }

    // Exact value.
    proof {
        if k == whole@.len() {
            lemma_dv_drop_zeros(whole@, k as int);
            assert(digits_value(trimmed@) == digits_value(seq![48u8]));
            assert(digits_value(seq![48u8].drop_last()) == 0);
        } else {
            lemma_dv_drop_zeros(whole@, k as int);
        }
        assert(all_digits(trimmed@));
    }
    let whole_n = parse_validated(trimmed.as_slice());
    if frac.len() == 0 {
        proof {
            assert(old(output)@ + number_display(raw@) =~= output@);
        }
        Value::from_big(&whole_n)
    } else {
        let ten = big_from_u64(10);
        let mut denom = big_from_u64(1);
        let mut i: usize = 0;
        while i < frac.len()
            invariant
                0 <= i <= frac@.len(),
                nat_of(denom) == pow10(i as nat),
                nat_of(ten) == 10,
            decreases frac@.len() - i,
        {
            denom = big_mul(&ten, &denom);
            i = i + 1;
        }
        let frac_n = parse_validated(frac.as_slice());
        let numer = big_add(&big_mul(&whole_n, &denom), &frac_n);
        proof {
            assert(pow10(frac@.len()) >= 1) by {
                lemma_pow10_pos(frac@.len());
            }
            assert(old(output)@ + number_display(raw@) =~= output@);
        }
        Value::from_ratio(&numer, &denom)
    }
}

proof fn lemma_pow10_pos(k: nat)
    ensures
        pow10(k) >= 1,
    decreases k,
{
    if k > 0 {
        lemma_pow10_pos((k - 1) as nat);
    }
}

} // verus!
