use vstd::prelude::*;
use crate::natural::nat_of;
use crate::rat::{
    rat_add, rat_bool, rat_div, rat_eqv, rat_le, rat_lt, rat_mul, rat_neg, rat_of_nat, rat_one,
    rat_sub, rat_zero, normalize, RatV,
};

verus! {

// The exact rational value type of the calculator. Arithmetic is carried out
// by `num::BigRational` behind wrappers whose contracts state the result over
// the `RatV` model; comparisons, division and truthiness are checked here.

#[verifier::external_type_specification]
#[verifier::external_body]
pub struct ExBigInt(num::BigInt);

#[verifier::external_type_specification]
#[verifier::external_body]
#[verifier::reject_recursive_types(T)]
pub struct ExRatio<T>(num::rational::Ratio<T>);

/// The rational number a `BigRational` holds, in lowest terms with a positive
/// denominator (which is how `num` keeps every value it returns).
pub uninterp spec fn rat_of(r: num::BigRational) -> RatV;

/// The decimal rendering of the nearest double-precision approximation of a
/// rational number, as produced by `Ratio::to_f64` and the standard float
/// formatter. It depends on the rational value alone.
pub uninterp spec fn approx_decimal(r: RatV) -> Seq<u8>;

pub struct Value {
    inner: num::BigRational,
}

impl View for Value {
    type V = RatV;

    closed spec fn view(&self) -> RatV {
        rat_of(self.inner)
    }
}

#[derive(Debug, PartialEq, Eq, Structural)]
pub struct DivisionByZeroError;

#[derive(Debug, PartialEq, Eq, Structural)]
pub enum ValueError {
    DivisionByZero(DivisionByZeroError),
}

impl Value {
    /// Relies on `BigRational::from_integer` and `impl From<BigUint> for
    /// BigInt`: the exact integer value over the denominator one.
    #[verifier::external_body]
    pub fn from_big(x: &num::BigUint) -> (r: Value)
        ensures
            r@ == rat_of_nat(nat_of(*x)),
    {
        Value { inner: num::BigRational::from_integer(num::BigInt::from(x.clone())) }
    }

    /// Relies on `Ratio::new`, which reduces to lowest terms and panics only
    /// on a zero denominator.
    #[verifier::external_body]
    pub fn from_ratio(numer: &num::BigUint, denom: &num::BigUint) -> (r: Value)
        requires
            nat_of(*denom) > 0,
        ensures
            r@ == normalize(nat_of(*numer) as int, nat_of(*denom) as int),
    {
        Value {
            inner: num::BigRational::new(
                num::BigInt::from(numer.clone()),
                num::BigInt::from(denom.clone()),
            ),
        }
    }

    /// Relies on `Zero::zero` for `Ratio`.
    #[verifier::external_body]
    fn zero() -> (r: Value)
        ensures
            rat_of(r.inner) == rat_zero(),
    {
        Value { inner: num::Zero::zero() }
    }

    /// Relies on `One::one` for `Ratio`.
    #[verifier::external_body]
    fn one() -> (r: Value)
        ensures
            r@ == rat_one(),
    {
        Value { inner: num::One::one() }
    }

    fn from_bool(b: bool) -> (r: Value)
        ensures
            r@ == rat_bool(b),
    {
        if b {
            Value::one()
        } else {
            Value::zero()
        }
    }

    /// Relies on `impl PartialEq for Ratio`, which compares the rational
    /// values through `Ord::cmp`.
    #[verifier::external_body]
    fn eq_raw(&self, rhs: &Value) -> (r: bool)
        ensures
            r == rat_eqv(self@, rhs@),
    {
        self.inner == rhs.inner
    }

    /// Relies on `impl Ord for Ratio`, which orders by rational value.
    #[verifier::external_body]
    fn le_raw(&self, rhs: &Value) -> (r: bool)
        ensures
            r == rat_le(self@, rhs@),
    {
        self.inner <= rhs.inner
    }

    /// Relies on `Zero::is_zero` for `Ratio`: true exactly of the value zero.
    #[verifier::external_body]
    fn is_zero_raw(&self) -> (r: bool)
        ensures
            r == rat_eqv(self@, rat_zero()),
    {
        num::Zero::is_zero(&self.inner)
    }

    pub fn eq(self, rhs: Self) -> (r: Value)
        ensures
            r@ == rat_bool(rat_eqv(self@, rhs@)),
    {
        let b = self.eq_raw(&rhs);
        Value::from_bool(b)
    }

    pub fn ne(self, rhs: Self) -> (r: Value)
        ensures
            r@ == rat_bool(!rat_eqv(self@, rhs@)),
    {
        let b = self.eq_raw(&rhs);
        Value::from_bool(!b)
    }

    pub fn lt(self, rhs: Self) -> (r: Value)
        ensures
            r@ == rat_bool(rat_lt(self@, rhs@)),
    {
        let b = rhs.le_raw(&self);
        Value::from_bool(!b)
    }

    pub fn le(self, rhs: Self) -> (r: Value)
        ensures
            r@ == rat_bool(rat_le(self@, rhs@)),
    {
        let b = self.le_raw(&rhs);
        Value::from_bool(b)
    }

    pub fn gt(self, rhs: Self) -> (r: Value)
        ensures
            r@ == rat_bool(rat_lt(rhs@, self@)),
    {
        let b = self.le_raw(&rhs);
        Value::from_bool(!b)
    }

    pub fn ge(self, rhs: Self) -> (r: Value)
        ensures
            r@ == rat_bool(rat_le(rhs@, self@)),
    {
        let b = rhs.le_raw(&self);
        Value::from_bool(b)
    }

    /// Relies on `impl Add for Ratio`: the exact sum, reduced to lowest terms.
    #[verifier::external_body]
    pub fn add(self, rhs: Self) -> (r: Value)
        ensures
            r@ == rat_add(self@, rhs@),
    {
        Value { inner: self.inner + rhs.inner }
    }

    /// Relies on `impl Sub for Ratio`: the exact difference, reduced.
    #[verifier::external_body]
    pub fn sub(self, rhs: Self) -> (r: Value)
        ensures
            r@ == rat_sub(self@, rhs@),
    {
        Value { inner: self.inner - rhs.inner }
    }

    /// Relies on `impl Mul for Ratio`: the exact product, reduced.
    #[verifier::external_body]
    pub fn mul(self, rhs: Self) -> (r: Value)
        ensures
            r@ == rat_mul(self@, rhs@),
    {
        Value { inner: self.inner * rhs.inner }
    }

    /// Relies on `impl Div for Ratio`: the exact quotient, reduced. A zero
    /// divisor panics there and is excluded here.
    #[verifier::external_body]
    fn div_exact(self, rhs: Self) -> (r: Value)
        requires
            !rat_eqv(rhs@, rat_zero()),
        ensures
            r@ == rat_div(self@, rhs@),
    {
        Value { inner: self.inner / rhs.inner }
    }

    pub fn div(self, rhs: Self) -> (r: Result<Value, DivisionByZeroError>)
        ensures
            rat_eqv(rhs@, rat_zero()) <==> r matches Err(DivisionByZeroError),
            !rat_eqv(rhs@, rat_zero()) ==> (r matches Ok(v) && v@ == rat_div(self@, rhs@)),
    {
        if rhs.is_zero_raw() {
            return Err(DivisionByZeroError);
        }
        Ok(self.div_exact(rhs))
    }

    pub fn not(self) -> (r: Value)
        ensures
            r@ == rat_bool(rat_eqv(self@, rat_zero())),
    {
        let b = self.is_zero_raw();
        Value::from_bool(b)
    }

    /// Relies on `impl Neg for Ratio`: the exact additive inverse.
    #[verifier::external_body]
    pub fn neg(self) -> (r: Value)
        ensures
            r@ == rat_neg(self@),
    {
        Value { inner: -self.inner }
    }

    /// Relies on `Ratio::to_f64` (the nearest double, never `None` for a
    /// denominator that is not zero) and the standard float formatter.
    #[verifier::external_body]
    pub fn display_bytes(&self) -> (r: Vec<u8>)
        ensures
            r@ == approx_decimal(self@),
    {
        let approx = num::ToPrimitive::to_f64(&self.inner).expect(
            "value should be representable as an `f64`",
        );
        format!("{}", approx).into_bytes()
    }
}

} // verus!
