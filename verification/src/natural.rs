use vstd::prelude::*;

verus! {

// Arbitrary-precision natural numbers: `num::BigUint`, modelled in
// specifications by `nat` through the content function `nat_of`. Every
// operation the calculator needs is exposed through a wrapper whose contract
// states the mathematical meaning of the call.

#[verifier::external_type_specification]
#[verifier::external_body]
pub struct ExBigUint(num::BigUint);

/// The natural number a `BigUint` holds.
pub uninterp spec fn nat_of(b: num::BigUint) -> nat;

/// The value denoted by a run of ASCII decimal digit bytes, most significant first.
pub open spec fn digits_value(s: Seq<u8>) -> nat
    decreases s.len(),
{
    if s.len() == 0 {
        0
    } else {
        digits_value(s.drop_last()) * 10 + ((s.last() - 48) as nat)
    }
}

/// The canonical decimal rendering of a natural number, as ASCII digit bytes.
pub open spec fn dec_repr(n: nat) -> Seq<u8>
    decreases n,
{
    if n < 10 {
        seq![(48 + n) as u8]
    } else {
        dec_repr(n / 10).push((48 + (n % 10)) as u8)
    }
}

pub open spec fn pow10(k: nat) -> nat
    decreases k,
{
    if k == 0 {
        1
    } else {
        10 * pow10((k - 1) as nat)
    }
}

/// The numeric values held by a sequence of `BigUint`s.
pub open spec fn nats_of(s: Seq<num::BigUint>) -> Seq<nat> {
    s.map(|i: int, b: num::BigUint| nat_of(b))
}

/// Relies on `impl From<u64> for BigUint`: the exact value is kept.
#[verifier::external_body]
pub fn big_from_u64(x: u64) -> (r: num::BigUint)
    ensures
        nat_of(r) == x as nat,
{
    num::BigUint::from(x)
}

/// Relies on `impl Clone for BigUint`: the copy holds the same value.
#[verifier::external_body]
pub fn big_dup(a: &num::BigUint) -> (r: num::BigUint)
    ensures
        nat_of(r) == nat_of(*a),
{
    a.clone()
}

/// Relies on `impl Ord for BigUint`, which orders by numeric value.
#[verifier::external_body]
pub fn big_le(a: &num::BigUint, b: &num::BigUint) -> (r: bool)
    ensures
        r == (nat_of(*a) <= nat_of(*b)),
{
    a <= b
}

pub fn big_lt(a: &num::BigUint, b: &num::BigUint) -> (r: bool)
    ensures
        r == (nat_of(*a) < nat_of(*b)),
{
    !big_le(b, a)
}

/// Relies on `impl Add for &BigUint`: exact addition.
#[verifier::external_body]
pub fn big_add(a: &num::BigUint, b: &num::BigUint) -> (r: num::BigUint)
    ensures
        nat_of(r) == nat_of(*a) + nat_of(*b),
{
    a + b
}

/// Relies on `impl Mul for &BigUint`: exact multiplication.
#[verifier::external_body]
pub fn big_mul(a: &num::BigUint, b: &num::BigUint) -> (r: num::BigUint)
    ensures
        nat_of(r) == nat_of(*a) * nat_of(*b),
{
    a * b
}

/// Relies on `Zero::is_zero` for `BigUint`.
#[verifier::external_body]
pub fn big_is_zero(a: &num::BigUint) -> (r: bool)
    ensures
        r == (nat_of(*a) == 0),
{
    num::Zero::is_zero(a)
}

/// Relies on `impl TryFrom<&BigUint> for usize`, which succeeds exactly when
/// the value fits.
#[verifier::external_body]
pub fn big_to_usize(a: &num::BigUint) -> (r: Option<usize>)
    ensures
        match r {
            Some(u) => u as nat == nat_of(*a),
            None => nat_of(*a) > usize::MAX as nat,
        },
{
    usize::try_from(a).ok()
}

/// Relies on `impl FromStr for BigUint`, which reads a non-empty run of
/// ASCII digits as its decimal value.
#[verifier::external_body]
pub(crate) fn big_from_digits(s: &[u8]) -> (r: num::BigUint)
    requires
        s@.len() > 0,
        crate::utils::all_digits(s@),
    ensures
        nat_of(r) == digits_value(s@),
{
    let text = core::str::from_utf8(s).expect("pattern should be validated by caller");
    text.parse().expect("pattern should be validated by caller")
}

/// Relies on `impl From<usize> for BigUint`: the exact value is kept.
#[verifier::external_body]
pub fn big_from_usize(x: usize) -> (r: num::BigUint)
    ensures
        nat_of(r) == x as nat,
{
    num::BigUint::from(x)
}

/// Relies on `impl Display for BigUint`: the shortest decimal form, most
/// significant digit first, no leading zeros.
#[verifier::external_body]
pub fn big_dec_bytes(a: &num::BigUint) -> (r: Vec<u8>)
    ensures
        r@ == dec_repr(nat_of(*a)),
{
    format!("{}", a).into_bytes()
}

} // verus!
