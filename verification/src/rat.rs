use vstd::prelude::*;

verus! {

// The specification-level model of exact rational numbers: a numerator and a
// positive denominator in lowest terms. All `Value` contracts speak in terms
// of this model.

pub ghost struct RatV {
    pub n: int,
    pub d: int,
}

pub open spec fn iabs(x: int) -> nat {
    if x >= 0 {
        x as nat
    } else {
        (-x) as nat
    }
}

pub open spec fn gcd(a: nat, b: nat) -> nat
    decreases b,
{
    if b == 0 {
        a
    } else {
        gcd(b, a % b)
    }
}

/// The representation of `n / d` in lowest terms with a positive denominator.
/// `d == 0` never arises; it is mapped to zero to keep the function total.
pub open spec fn normalize(n: int, d: int) -> RatV {
    if d == 0 || n == 0 {
        RatV { n: 0, d: 1 }
    } else {
        let n1: int = if d < 0 {
            -n
        } else {
            n
        };
        let d1: int = iabs(d) as int;
        let g: int = gcd(iabs(n1), d1 as nat) as int;
        RatV { n: n1 / g, d: d1 / g }
    }
}

pub open spec fn rat_zero() -> RatV {
    RatV { n: 0, d: 1 }
}

pub open spec fn rat_one() -> RatV {
    RatV { n: 1, d: 1 }
}

pub open spec fn rat_of_nat(x: nat) -> RatV {
    RatV { n: x as int, d: 1 }
}

pub open spec fn rat_bool(b: bool) -> RatV {
    if b {
        rat_one()
    } else {
        rat_zero()
    }
}

pub open spec fn rat_add(a: RatV, b: RatV) -> RatV {
    normalize(a.n * b.d + b.n * a.d, a.d * b.d)
}

pub open spec fn rat_sub(a: RatV, b: RatV) -> RatV {
    normalize(a.n * b.d - b.n * a.d, a.d * b.d)
}

pub open spec fn rat_mul(a: RatV, b: RatV) -> RatV {
    normalize(a.n * b.n, a.d * b.d)
}

pub open spec fn rat_div(a: RatV, b: RatV) -> RatV {
    normalize(a.n * b.d, a.d * b.n)
}

pub open spec fn rat_neg(a: RatV) -> RatV {
    normalize(-a.n, a.d)
}

/// Mathematical equality of the rationals `a` and `b`, by cross-multiplication.
pub open spec fn rat_eqv(a: RatV, b: RatV) -> bool {
    a.n * b.d == b.n * a.d
}

/// `a <= b` for positive denominators, by cross-multiplication.
pub open spec fn rat_le(a: RatV, b: RatV) -> bool {
    a.n * b.d <= b.n * a.d
}

pub open spec fn rat_lt(a: RatV, b: RatV) -> bool {
    a.n * b.d < b.n * a.d
}

} // verus!
