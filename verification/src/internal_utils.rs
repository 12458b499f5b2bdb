//! Fractions, checked conversions, clamps and small helpers shared by the
//! parser and the decoder.

use crate::parser::mp4box::{
    count_where, first_where, is_av1c, is_icc, is_nclx, lemma_first_where_bounds, CodecConfiguration,
    ColorInformation, Icc, ItemProperty, Nclx,
};
use crate::{AvifError, AvifResult};
use vstd::prelude::*;
use vstd::math::abs;

pub mod pixels;

verus! {

/// A signed numerator over an unsigned denominator.
#[derive(Copy, Clone, Default, Debug)]
pub struct Fraction(pub i32, pub u32);

/// An unsigned numerator over an unsigned denominator.
#[derive(Copy, Clone, Default, Debug)]
pub struct UFraction(pub u32, pub u32);

/// A signed numerator over a signed denominator.
#[derive(Copy, Clone, Default, Debug, PartialEq, Eq, Structural)]
pub struct IFraction(pub i32, pub i32);

/// Greatest common divisor of two natural numbers (Euclid), with
/// `gcd(a, 0) == a`.
pub open spec fn spec_gcd(a: nat, b: nat) -> nat
    decreases b,
{
    if b == 0 {
        a
    } else {
        spec_gcd(b, a % b)
    }
}

/// Division rounding toward zero, as integer division does in Rust.
pub open spec fn trunc_div(a: int, b: int) -> int {
    if (a >= 0) == (b > 0) || a == 0 {
        (abs(a) / abs(b)) as int
    } else {
        -((abs(a) / abs(b)) as int)
    }
}

/// The divisor that `simplify` uses: the gcd of the magnitudes, read back as
/// an `i32` (a gcd of 2^31 reads as `i32::MIN`).
pub open spec fn fraction_gcd(n: i32, d: i32) -> int {
    let g = spec_gcd(abs(n as int), abs(d as int));
    if g == 0x8000_0000 { i32::MIN as int } else { g as int }
}

/// The fraction that `simplify` makes: both parts divided by their gcd when
/// it exceeds 1, otherwise unchanged.
pub open spec fn spec_simplified(f: IFraction) -> IFraction {
    let g = fraction_gcd(f.0, f.1);
    if g > 1 {
        IFraction(trunc_div(f.0 as int, g) as i32, trunc_div(f.1 as int, g) as i32)
    } else {
        f
    }
}

/// Two fractions denote the same number (cross products agree).
pub open spec fn same_value(a: IFraction, b: IFraction) -> bool {
    a.0 * b.1 == b.0 * a.1
}

proof fn lemma_gcd_bound(a: nat, b: nat)
    ensures
        spec_gcd(a, b) <= if a > b { a } else { b },
        b > 0 ==> spec_gcd(a, b) <= b,
    decreases b,
{
    if b > 0 {
        lemma_gcd_bound(b, a % b);
    }
}

proof fn lemma_gcd_divides(a: nat, b: nat)
    ensures
        spec_gcd(a, b) == 0 ==> a == 0 && b == 0,
        spec_gcd(a, b) > 0 ==> a % spec_gcd(a, b) == 0 && b % spec_gcd(a, b) == 0,
    decreases b,
{
    if b > 0 {
        lemma_gcd_divides(b, a % b);
        let g = spec_gcd(b, a % b);
        if g > 0 {
            // a == (a / b) * b + a % b and g divides b and a % b.
            let q = a / b;
            let r = a % b;
            assert(a == q * b + r) by (nonlinear_arith)
                requires
                    b > 0,
                    q == a / b,
                    r == a % b,
            ;
            assert(b == (b / g) * g) by (nonlinear_arith)
                requires
                    g > 0,
                    b % g == 0,
            ;
            assert(r == (r / g) * g) by (nonlinear_arith)
                requires
                    g > 0,
                    r % g == 0,
            ;
            let k = q * (b / g) + r / g;
            assert(a == k * g) by (nonlinear_arith)
                requires
                    a == q * b + r,
                    b == (b / g) * g,
                    r == (r / g) * g,
                    k == q * (b / g) + r / g,
            ;
            vstd::arithmetic::div_mod::lemma_mod_multiples_basic(k as int, g as int);
        }
    }
}

proof fn lemma_exact_div(a: int, g: int)
    requires
        g > 0,
        (abs(a) as int) % g == 0,
    ensures
        trunc_div(a, g) * g == a,
{
    let m = abs(a) as int;
    assert(m == (m / g) * g) by (nonlinear_arith)
        requires
            g > 0,
            m % g == 0,
    ;
    assert(abs(g) == g);
    if a >= 0 {
        assert(trunc_div(a, g) == m / g);
    } else {
        assert(trunc_div(a, g) == -(m / g));
        assert(-(m / g) * g == -((m / g) * g)) by (nonlinear_arith);
    }
}

/// Simplifying a fraction keeps its value.
pub proof fn lemma_simplified_same_value(f: IFraction)
    ensures
        same_value(spec_simplified(f), f),
{
    let g = fraction_gcd(f.0, f.1);
    if g > 1 {
        let gn = spec_gcd(abs(f.0 as int), abs(f.1 as int));
        lemma_gcd_divides(abs(f.0 as int), abs(f.1 as int));
        assert(gn == g);
        lemma_exact_div(f.0 as int, g);
        lemma_exact_div(f.1 as int, g);
        let n2 = trunc_div(f.0 as int, g);
        let d2 = trunc_div(f.1 as int, g);
        assert(n2 * (f.1 as int) == (f.0 as int) * d2) by (nonlinear_arith)
            requires
                n2 * g == f.0,
                d2 * g == f.1,
                g > 0,
        ;
    }
}

impl IFraction {
    fn gcd(a: i32, b: i32) -> (r: i32)
        ensures
            r == fraction_gcd(a, b),
    {
        let mut a: u64 = if a < 0 { (-(a as i64)) as u64 } else { a as u64 };
        let mut b: u64 = if b < 0 { (-(b as i64)) as u64 } else { b as u64 };
        let ghost a0 = a as nat;
        let ghost b0 = b as nat;
        proof {
            lemma_gcd_bound(a0, b0);
        }
        while b != 0
            invariant
                spec_gcd(a as nat, b as nat) == spec_gcd(a0, b0),
                a <= 0x8000_0000,
                b <= 0x8000_0000,
            decreases b,
        {
            let r = a % b;
            a = b;
            b = r;
        }
        if a == 0x8000_0000 {
            i32::MIN
        } else {
            a as i32
        }
    }

    fn exact_div(n: i32, g: i32) -> (r: i32)
        requires
            g > 1,
            (abs(n as int) as int) % (g as int) == 0,
        ensures
            r == trunc_div(n as int, g as int),
            r * g == n,
    {
        proof {
            lemma_exact_div(n as int, g as int);
        }
        let m: u64 = if n < 0 { (-(n as i64)) as u64 } else { n as u64 };
        let q: u64 = m / (g as u64);
        if n < 0 {
            (-(q as i64)) as i32
        } else {
            q as i32
        }
    }

    /// The fraction `n / d` in lowest terms.
    pub fn simplified(n: i32, d: i32) -> (r: Self)
        ensures
            r == spec_simplified(IFraction(n, d)),
    {
        let mut fraction = IFraction(n, d);
        fraction.simplify();
        fraction
    }

    /// Divides both parts by their greatest common divisor.
    pub fn simplify(&mut self)
        ensures
            *final(self) == spec_simplified(*old(self)),
    {
        let gcd = Self::gcd(self.0, self.1);
        if gcd > 1 {
            proof {
                lemma_gcd_divides(abs(self.0 as int), abs(self.1 as int));
            }
            self.0 = Self::exact_div(self.0, gcd);
            self.1 = Self::exact_div(self.1, gcd);
        }
    }

    /// The quotient, rounded toward zero.
    pub fn get_i32(&self) -> (r: i32)
        requires
            self.1 != 0,
            !(self.0 == i32::MIN && self.1 == -1),
        ensures
            r == trunc_div(self.0 as int, self.1 as int),
    {
        let n: u64 = if self.0 < 0 { (-(self.0 as i64)) as u64 } else { self.0 as u64 };
        let d: u64 = if self.1 < 0 { (-(self.1 as i64)) as u64 } else { self.1 as u64 };
        let q: u64 = n / d;
        assert(n == abs(self.0 as int));
        assert(d == abs(self.1 as int));
        assert(q <= n) by (nonlinear_arith)
            requires
                d >= 1,
                q == n / d,
        ;
        if (self.0 >= 0) == (self.1 > 0) || self.0 == 0 {
            if self.0 == i32::MIN {
                assert(q <= n / 2) by (nonlinear_arith)
                    requires
                        d >= 2,
                        q == n / d,
                ;
            }
            q as i32
        } else {
            (-(q as i64)) as i32
        }
    }

    /// The quotient, rounded toward zero, when it is not negative.
    pub fn get_u32(&self) -> (r: AvifResult<u32>)
        requires
            self.1 != 0,
            !(self.0 == i32::MIN && self.1 == -1),
        ensures
            trunc_div(self.0 as int, self.1 as int) >= 0 ==> r == Ok::<u32, AvifError>(
                trunc_div(self.0 as int, self.1 as int) as u32,
            ),
            trunc_div(self.0 as int, self.1 as int) < 0 ==> r == Err::<u32, AvifError>(
                AvifError::BmffParseFailed,
            ),
    {
        u32_from_i32(self.get_i32())
    }

    /// Whether the denominator divides the numerator.
    pub fn is_integer(&self) -> (r: bool)
        requires
            self.1 != 0,
        ensures
            r == (abs(self.0 as int) % abs(self.1 as int) == 0),
    {
        let n: u64 = if self.0 < 0 { (-(self.0 as i64)) as u64 } else { self.0 as u64 };
        let d: u64 = if self.1 < 0 { (-(self.1 as i64)) as u64 } else { self.1 as u64 };
        n % d == 0
    }

    fn common_denominator(&mut self, val: &mut IFraction) -> (r: AvifResult<()>)
        ensures
            ({
                let s = spec_simplified(*old(self));
                let v = *old(val);
                &&& s.1 == v.1 ==> r is Ok && *final(self) == s && *final(val) == v
                &&& s.1 != v.1 && fits_i32(s.0 * v.1) && fits_i32(s.1 * v.1) && fits_i32(v.0 * s.1)
                    && fits_i32(v.1 * s.1) ==> r is Ok && *final(self) == IFraction(
                    (s.0 * v.1) as i32,
                    (s.1 * v.1) as i32,
                ) && *final(val) == IFraction((v.0 * s.1) as i32, (v.1 * s.1) as i32)
                &&& s.1 != v.1 && !(fits_i32(s.0 * v.1) && fits_i32(s.1 * v.1) && fits_i32(v.0 * s.1)
                    && fits_i32(v.1 * s.1)) ==> r == Err::<(), AvifError>(AvifError::UnknownError)
            }),
    {
        self.simplify();
        if self.1 == val.1 {
            return Ok(());
        }
        let self_d = self.1;
        let a = match self.0.checked_mul(val.1) {
            Some(x) => x,
            None => {
                return Err(AvifError::UnknownError);
            },
        };
        let b = match self.1.checked_mul(val.1) {
            Some(x) => x,
            None => {
                return Err(AvifError::UnknownError);
            },
        };
        let c = match val.0.checked_mul(self_d) {
            Some(x) => x,
            None => {
                return Err(AvifError::UnknownError);
            },
        };
        let d = match val.1.checked_mul(self_d) {
            Some(x) => x,
            None => {
                return Err(AvifError::UnknownError);
            },
        };
        self.0 = a;
        self.1 = b;
        val.0 = c;
        val.1 = d;
        Ok(())
    }

    /// Adds `val` in place, keeping the result in lowest terms. Fails when an
    /// intermediate product or the sum does not fit in `i32`.
    pub fn add(&mut self, val: &IFraction) -> (r: AvifResult<()>)
        ensures
            r is Ok <==> spec_add(*old(self), *val) is Some,
            r is Ok ==> *final(self) == spec_add(*old(self), *val).unwrap(),
            r is Err ==> r == Err::<(), AvifError>(AvifError::UnknownError),
    {
        let mut val = *val;
        val.simplify();
        self.common_denominator(&mut val)?;
        self.0 = match self.0.checked_add(val.0) {
            Some(x) => x,
            None => {
                return Err(AvifError::UnknownError);
            },
        };
        self.simplify();
        Ok(())
    }

    /// Subtracts `val` in place, keeping the result in lowest terms. Fails
    /// when an intermediate product or the difference does not fit in `i32`.
    pub fn sub(&mut self, val: &IFraction) -> (r: AvifResult<()>)
        ensures
            r is Ok <==> spec_sub(*old(self), *val) is Some,
            r is Ok ==> *final(self) == spec_sub(*old(self), *val).unwrap(),
            r is Err ==> r == Err::<(), AvifError>(AvifError::UnknownError),
    {
        let mut val = *val;
        val.simplify();
        self.common_denominator(&mut val)?;
        self.0 = match self.0.checked_sub(val.0) {
            Some(x) => x,
            None => {
                return Err(AvifError::UnknownError);
            },
        };
        self.simplify();
        Ok(())
    }
}

/// The value lies in the range of `i32`.
pub open spec fn fits_i32(v: int) -> bool {
    i32::MIN <= v <= i32::MAX
}

/// Both fractions in lowest terms and brought over one denominator, or
/// `None` when a product does not fit in `i32`.
pub open spec fn spec_common(a: IFraction, b: IFraction) -> Option<(IFraction, IFraction)> {
    let s = spec_simplified(a);
    let v = spec_simplified(b);
    if s.1 == v.1 {
        Some((s, v))
    } else if fits_i32(s.0 * v.1) && fits_i32(s.1 * v.1) && fits_i32(v.0 * s.1) && fits_i32(
        v.1 * s.1,
    ) {
        Some(
            (
                IFraction((s.0 * v.1) as i32, (s.1 * v.1) as i32),
                IFraction((v.0 * s.1) as i32, (v.1 * s.1) as i32),
            ),
        )
    } else {
        None
    }
}

/// The sum that `IFraction::add` computes, or `None` on overflow.
pub open spec fn spec_add(a: IFraction, b: IFraction) -> Option<IFraction> {
    match spec_common(a, b) {
        Some((x, y)) => if fits_i32(x.0 + y.0) {
            Some(spec_simplified(IFraction((x.0 + y.0) as i32, x.1)))
        } else {
            None
        },
        None => None,
    }
}

/// The difference that `IFraction::sub` computes, or `None` on overflow.
pub open spec fn spec_sub(a: IFraction, b: IFraction) -> Option<IFraction> {
    match spec_common(a, b) {
        Some((x, y)) => if fits_i32(x.0 - y.0) {
            Some(spec_simplified(IFraction((x.0 - y.0) as i32, x.1)))
        } else {
            None
        },
        None => None,
    }
}

/// Adding two fractions with nonzero denominators gives their sum: the
/// result `r` satisfies `r = a + b`, as cross products over `a.1 * b.1`.
pub proof fn lemma_add_is_sum(a: IFraction, b: IFraction)
    requires
        a.1 != 0,
        b.1 != 0,
        spec_add(a, b) is Some,
    ensures
        ({
            let r = spec_add(a, b).unwrap();
            r.0 * (a.1 * b.1) == (a.0 * b.1 + b.0 * a.1) * r.1
        }),
{
    lemma_common_same_values(a, b);
    let (x, y) = spec_common(a, b).unwrap();
    let s = IFraction((x.0 + y.0) as i32, x.1);
    lemma_simplified_same_value(s);
    let r = spec_simplified(s);
    lemma_sum_of_same_values(a, b, x, y, r, 1);
}

/// Subtracting two fractions with nonzero denominators gives their
/// difference: the result `r` satisfies `r = a - b`, as cross products.
pub proof fn lemma_sub_is_difference(a: IFraction, b: IFraction)
    requires
        a.1 != 0,
        b.1 != 0,
        spec_sub(a, b) is Some,
    ensures
        ({
            let r = spec_sub(a, b).unwrap();
            r.0 * (a.1 * b.1) == (a.0 * b.1 - b.0 * a.1) * r.1
        }),
{
    lemma_common_same_values(a, b);
    let (x, y) = spec_common(a, b).unwrap();
    let s = IFraction((x.0 - y.0) as i32, x.1);
    lemma_simplified_same_value(s);
    let r = spec_simplified(s);
    lemma_sum_of_same_values(a, b, x, y, r, -1);
}

proof fn lemma_simplified_nonzero_den(f: IFraction)
    requires
        f.1 != 0,
    ensures
        spec_simplified(f).1 != 0,
{
    lemma_simplified_same_value(f);
    let g = fraction_gcd(f.0, f.1);
    if g > 1 {
        lemma_gcd_divides(abs(f.0 as int), abs(f.1 as int));
        lemma_exact_div(f.1 as int, g);
        let d2 = trunc_div(f.1 as int, g);
        if d2 == 0 {
            assert(d2 * g == 0);
        }
    }
}

proof fn lemma_common_same_values(a: IFraction, b: IFraction)
    requires
        a.1 != 0,
        b.1 != 0,
        spec_common(a, b) is Some,
    ensures
        ({
            let (x, y) = spec_common(a, b).unwrap();
            &&& same_value(x, a)
            &&& same_value(y, b)
            &&& x.1 == y.1
            &&& x.1 != 0
        }),
{
    let s = spec_simplified(a);
    let v = spec_simplified(b);
    lemma_simplified_same_value(a);
    lemma_simplified_same_value(b);
    lemma_simplified_nonzero_den(a);
    lemma_simplified_nonzero_den(b);
    if s.1 != v.1 {
        let (x, y) = spec_common(a, b).unwrap();
        assert(x.0 * a.1 == a.0 * x.1) by (nonlinear_arith)
            requires
                x.0 == s.0 * v.1,
                x.1 == s.1 * v.1,
                s.0 * a.1 == a.0 * s.1,
        ;
        assert(y.0 * b.1 == b.0 * y.1) by (nonlinear_arith)
            requires
                y.0 == v.0 * s.1,
                y.1 == v.1 * s.1,
                v.0 * b.1 == b.0 * v.1,
        ;
        assert(x.1 == y.1) by (nonlinear_arith)
            requires
                x.1 == s.1 * v.1,
                y.1 == v.1 * s.1,
        ;
        assert(x.1 != 0) by (nonlinear_arith)
            requires
                x.1 == s.1 * v.1,
                s.1 != 0,
                v.1 != 0,
        ;
    }
}

proof fn lemma_sum_of_same_values(
    a: IFraction,
    b: IFraction,
    x: IFraction,
    y: IFraction,
    r: IFraction,
    sign: int,
)
    requires
        sign == 1 || sign == -1,
        a.1 != 0,
        b.1 != 0,
        x.1 != 0,
        x.1 == y.1,
        same_value(x, a),
        same_value(y, b),
        r.0 * x.1 == (x.0 + sign * y.0) * r.1,
    ensures
        r.0 * (a.1 * b.1) == (a.0 * b.1 + sign * (b.0 * a.1)) * r.1,
{
    let p = a.1 * b.1;
    let q = a.0 * b.1 + sign * (b.0 * a.1);
    let xx = x.0 + sign * y.0;
    assert(x.0 * p == (a.0 * b.1) * x.1) by (nonlinear_arith)
        requires
            x.0 * a.1 == a.0 * x.1,
            p == a.1 * b.1,
    ;
    assert(y.0 * p == (b.0 * a.1) * x.1) by (nonlinear_arith)
        requires
            y.0 * b.1 == b.0 * y.1,
            x.1 == y.1,
            p == a.1 * b.1,
    ;
    if sign == 1 {
        assert(xx * p == q * x.1) by (nonlinear_arith)
            requires
                x.0 * p == (a.0 * b.1) * x.1,
                y.0 * p == (b.0 * a.1) * x.1,
                xx == x.0 + y.0,
                q == a.0 * b.1 + b.0 * a.1,
        ;
    } else {
        assert(xx * p == q * x.1) by (nonlinear_arith)
            requires
                x.0 * p == (a.0 * b.1) * x.1,
                y.0 * p == (b.0 * a.1) * x.1,
                xx == x.0 + sign * y.0,
                q == a.0 * b.1 + sign * (b.0 * a.1),
                sign == -1,
        ;
    }
    assert(r.0 * p * x.1 == q * r.1 * x.1) by (nonlinear_arith)
        requires
            xx * p == q * x.1,
            r.0 * x.1 == xx * r.1,
    ;
    vstd::arithmetic::mul::lemma_mul_is_commutative(r.0 * p, x.1 as int);
    vstd::arithmetic::mul::lemma_mul_is_commutative(q * r.1, x.1 as int);
    vstd::arithmetic::mul::lemma_mul_equality_converse(x.1 as int, r.0 * p, q * r.1);
}

/// `value` as a `usize`, or `BmffParseFailed` when it does not fit.
pub fn usize_from_u64(value: u64) -> (r: AvifResult<usize>)
    ensures
        value <= usize::MAX ==> r == Ok::<usize, AvifError>(value as usize),
        value > usize::MAX ==> r == Err::<usize, AvifError>(AvifError::BmffParseFailed),
{
    if value <= usize::MAX as u64 {
        Ok(value as usize)
    } else {
        Err(AvifError::BmffParseFailed)
    }
}

/// `value` as a `usize`, or `BmffParseFailed` when it does not fit.
pub fn usize_from_u32(value: u32) -> (r: AvifResult<usize>)
    ensures
        value <= usize::MAX ==> r == Ok::<usize, AvifError>(value as usize),
        value > usize::MAX ==> r == Err::<usize, AvifError>(AvifError::BmffParseFailed),
{
    if value as u64 <= usize::MAX as u64 {
        Ok(value as usize)
    } else {
        Err(AvifError::BmffParseFailed)
    }
}

/// `value` as a `usize` (always fits).
pub fn usize_from_u16(value: u16) -> (r: AvifResult<usize>)
    ensures
        r == Ok::<usize, AvifError>(value as usize),
{
    Ok(value as usize)
}

/// `value` as a `u64`, or `BmffParseFailed` when it does not fit.
pub fn u64_from_usize(value: usize) -> (r: AvifResult<u64>)
    ensures
        value <= u64::MAX ==> r == Ok::<u64, AvifError>(value as u64),
        value > u64::MAX ==> r == Err::<u64, AvifError>(AvifError::BmffParseFailed),
{
    if value as u128 <= u64::MAX as u128 {
        Ok(value as u64)
    } else {
        Err(AvifError::BmffParseFailed)
    }
}

/// `value` as a `u32`, or `BmffParseFailed` when it does not fit.
pub fn u32_from_usize(value: usize) -> (r: AvifResult<u32>)
    ensures
        value <= u32::MAX ==> r == Ok::<u32, AvifError>(value as u32),
        value > u32::MAX ==> r == Err::<u32, AvifError>(AvifError::BmffParseFailed),
{
    if value as u64 <= u32::MAX as u64 {
        Ok(value as u32)
    } else {
        Err(AvifError::BmffParseFailed)
    }
}

/// `value` as a `u32`, or `BmffParseFailed` when it does not fit.
pub fn u32_from_u64(value: u64) -> (r: AvifResult<u32>)
    ensures
        value <= u32::MAX ==> r == Ok::<u32, AvifError>(value as u32),
        value > u32::MAX ==> r == Err::<u32, AvifError>(AvifError::BmffParseFailed),
{
    if value <= u32::MAX as u64 {
        Ok(value as u32)
    } else {
        Err(AvifError::BmffParseFailed)
    }
}

/// `value` as a `u32`, or `BmffParseFailed` when it is negative.
pub fn u32_from_i32(value: i32) -> (r: AvifResult<u32>)
    ensures
        value >= 0 ==> r == Ok::<u32, AvifError>(value as u32),
        value < 0 ==> r == Err::<u32, AvifError>(AvifError::BmffParseFailed),
{
    if value >= 0 {
        Ok(value as u32)
    } else {
        Err(AvifError::BmffParseFailed)
    }
}

/// `value` as an `i32`, or `BmffParseFailed` when it does not fit.
pub fn i32_from_u32(value: u32) -> (r: AvifResult<i32>)
    ensures
        value <= i32::MAX ==> r == Ok::<i32, AvifError>(value as i32),
        value > i32::MAX ==> r == Err::<i32, AvifError>(AvifError::BmffParseFailed),
{
    if value <= i32::MAX as u32 {
        Ok(value as i32)
    } else {
        Err(AvifError::BmffParseFailed)
    }
}

/// `value` as an `isize`, or `BmffParseFailed` when it does not fit.
pub fn isize_from_usize(value: usize) -> (r: AvifResult<isize>)
    ensures
        value <= isize::MAX ==> r == Ok::<isize, AvifError>(value as isize),
        value > isize::MAX ==> r == Err::<isize, AvifError>(AvifError::BmffParseFailed),
{
    if value <= isize::MAX as usize {
        Ok(value as isize)
    } else {
        Err(AvifError::BmffParseFailed)
    }
}

/// `value` held within `[low, high]`.
pub fn clamp_u16(value: u16, low: u16, high: u16) -> (r: u16)
    ensures
        r == (if value < low { low } else if value > high { high } else { value }),
{
    if value < low {
        low
    } else if value > high {
        high
    } else {
        value
    }
}

/// `value` held within `[low, high]`.
pub fn clamp_i32(value: i32, low: i32, high: i32) -> (r: i32)
    ensures
        r == (if value < low { low } else if value > high { high } else { value }),
{
    if value < low {
        low
    } else if value > high {
        high
    } else {
        value
    }
}

/// The image is at most `size_limit` pixels and, when `dimension_limit` is
/// not zero, no side exceeds it. A zero height is refused.
pub open spec fn spec_check_limits(width: u32, height: u32, size_limit: u32, dimension_limit: u32) -> bool {
    &&& height != 0
    &&& width <= size_limit / height
    &&& (dimension_limit == 0 || (width <= dimension_limit && height <= dimension_limit))
}

/// Whether a `width` x `height` image fits the limits (see
/// `spec_check_limits`).
pub fn check_limits(width: u32, height: u32, size_limit: u32, dimension_limit: u32) -> (r: bool)
    ensures
        r == spec_check_limits(width, height, size_limit, dimension_limit),
{
    if height == 0 {
        return false;
    }
    if width > size_limit / height {
        return false;
    }
    if dimension_limit != 0 && (width > dimension_limit || height > dimension_limit) {
        return false;
    }
    true
}

/// Proof that the limit check bounds the pixel count: accepted dimensions
/// have `width * height <= size_limit`.
pub proof fn lemma_check_limits_bounds_area(
    width: u32,
    height: u32,
    size_limit: u32,
    dimension_limit: u32,
)
    requires
        spec_check_limits(width, height, size_limit, dimension_limit),
    ensures
        width * height <= size_limit,
{
    let q = size_limit / height;
    assert(width * height <= q * height) by (nonlinear_arith)
        requires
            width <= q,
            height > 0,
    ;
    assert(q * height <= size_limit) by (nonlinear_arith)
        requires
            q == size_limit / height,
            height > 0,
    ;
}

/// Rescales `v` from the limited range `[min, max]` to the full range
/// `[0, full]`, rounding to nearest, clamped.
pub open spec fn spec_limited_to_full(min: int, max: int, full: int, v: int) -> int {
    let q = ((v - min) * full + (max - min) / 2) / (max - min);
    if q < 0 { 0 } else if q > full { full } else { q }
}

fn limited_to_full(min: i32, max: i32, full: i32, v: u16) -> (r: u16)
    requires
        0 <= min < max <= 65535,
        0 <= full <= 65535,
    ensures
        r == spec_limited_to_full(min as int, max as int, full as int, v as int),
{
    let v = v as i64;
    assert(-65535 * 65535 <= (v - min as i64) * (full as i64) <= 65535 * 65535) by (nonlinear_arith)
        requires
            0 <= v <= 65535,
            0 <= min <= 65535,
            0 <= full <= 65535,
    ;
    let num: i64 = (v - min as i64) * (full as i64) + ((max - min) / 2) as i64;
    let den: i64 = (max - min) as i64;
    if num < 0 {
        assert(num / den < 0) by (nonlinear_arith)
            requires
                num < 0,
                den > 0,
        ;
        return 0;
    }
    let q: i64 = ((num as u64) / (den as u64)) as i64;
    clamp_i32(if q > full as i64 { full } else { q as i32 }, 0, full) as u16
}

/// A limited-range luma (or alpha) sample of the given depth rescaled to
/// full range; 0 for depths other than 8, 10 and 12.
pub open spec fn spec_limited_to_full_y(depth: u8, v: u16) -> int {
    if depth == 8 {
        spec_limited_to_full(16, 235, 255, v as int)
    } else if depth == 10 {
        spec_limited_to_full(64, 940, 1023, v as int)
    } else if depth == 12 {
        spec_limited_to_full(256, 3760, 4095, v as int)
    } else {
        0
    }
}

/// Rescales a limited-range luma (or alpha) sample of the given depth to
/// full range; depths other than 8, 10 and 12 give 0.
pub fn limited_to_full_y(depth: u8, v: u16) -> (r: u16)
    ensures
        r == spec_limited_to_full_y(depth, v),
        depth == 8 ==> r == spec_limited_to_full(16, 235, 255, v as int),
        depth == 10 ==> r == spec_limited_to_full(64, 940, 1023, v as int),
        depth == 12 ==> r == spec_limited_to_full(256, 3760, 4095, v as int),
        depth != 8 && depth != 10 && depth != 12 ==> r == 0,
{
    match depth {
        8 => limited_to_full(16, 235, 255, v),
        10 => limited_to_full(64, 940, 1023, v),
        12 => limited_to_full(256, 3760, 4095, v),
        _ => 0,
    }
}

/// std's `Vec::try_reserve_exact`: whether room for `additional` more items
/// could be reserved. The outcome depends on the allocator, so nothing is
/// stated of it beyond the items staying as they were (std documents that
/// the vector is unchanged on failure and its items kept on success).
#[verifier::external_body]
pub(crate) fn try_reserve_exact<T>(v: &mut Vec<T>, additional: usize) -> (r: bool)
    ensures
        final(v)@ == old(v)@,
{
    v.try_reserve_exact(additional).is_ok()
}

/// std's `Vec::capacity`. What it returns depends on the allocator, so
/// nothing is stated of it.
#[verifier::external_body]
pub(crate) fn vec_capacity<T>(v: &Vec<T>) -> (r: usize) {
    v.capacity()
}

/// An empty vector with room reserved for `size` items, or `OutOfMemory`.
pub fn create_vec_exact<T>(size: usize) -> (r: AvifResult<Vec<T>>)
    ensures
        r matches Ok(v) ==> v@.len() == 0,
        r is Err ==> r == Err::<Vec<T>, AvifError>(AvifError::OutOfMemory),
{
    let mut v = Vec::<T>::new();
    if !try_reserve_exact(&mut v, size) {
        return Err(AvifError::OutOfMemory);
    }
    Ok(v)
}

proof fn lemma_count_step(s: Seq<ItemProperty>, f: spec_fn(ItemProperty) -> bool, i: int)
    requires
        0 <= i < s.len(),
    ensures
        count_where(s.subrange(0, i + 1), f) == count_where(s.subrange(0, i), f) + if f(s[i]) {
            1nat
        } else {
            0nat
        },
{
    assert(s.subrange(0, i + 1).drop_last() =~= s.subrange(0, i));
}

proof fn lemma_count_zero_before_first(s: Seq<ItemProperty>, f: spec_fn(ItemProperty) -> bool, i: int)
    requires
        0 <= i <= s.len(),
        forall|j: int| 0 <= j < i ==> !f(#[trigger] s[j]),
    ensures
        count_where(s.subrange(0, i), f) == 0,
    decreases i,
{
    if i > 0 {
        lemma_count_zero_before_first(s, f, i - 1);
        lemma_count_step(s, f, i - 1);
    }
}

/// The one colour box of code points among the properties: `Err(false)`
/// where there is none, `Err(true)` where there are several.
pub fn find_nclx(properties: &[ItemProperty]) -> (r: Result<&Nclx, bool>)
    ensures
        ({
            let c = count_where(properties@, |p: ItemProperty| is_nclx(p));
            &&& c == 0 <==> r == Err::<&Nclx, bool>(false)
            &&& c > 1 <==> r == Err::<&Nclx, bool>(true)
            &&& c == 1 <==> r is Ok
            &&& r matches Ok(n) ==> first_where(properties@, |p: ItemProperty| is_nclx(p)) matches Some(
                i,
            ) && properties@[i] == ItemProperty::ColorInformation(ColorInformation::Nclx(*n))
        }),
{
    let ghost f = |p: ItemProperty| is_nclx(p);
    let mut found: Option<&Nclx> = None;
    let mut count: usize = 0;
    let mut i: usize = 0;
    assert(properties@.subrange(0, 0) =~= Seq::<ItemProperty>::empty());
    while i < properties.len()
        invariant
            0 <= i <= properties@.len(),
            f == (|p: ItemProperty| is_nclx(p)),
            count <= i,
            count == count_where(properties@.subrange(0, i as int), f),
            count == 0 <==> found is None,
            found matches Some(n) ==> first_where(properties@, f) matches Some(k) && k < i
                && properties@[k] == ItemProperty::ColorInformation(ColorInformation::Nclx(*n)),
            found is None ==> forall|j: int| 0 <= j < i ==> !f(#[trigger] properties@[j]),
        decreases properties@.len() - i,
    {
        proof {
            lemma_count_step(properties@, f, i as int);
        }
        match &properties[i] {
            ItemProperty::ColorInformation(ColorInformation::Nclx(nclx)) => {
                if found.is_none() {
                    proof {
                        lemma_first_where_bounds(properties@, f);
                    }
                    found = Some(nclx);
                }
                count = count + 1;
            },
            _ => {},
        }
        i += 1;
    }
    assert(properties@.subrange(0, properties@.len() as int) =~= properties@);
    if count == 0 {
        Err(false)
    } else if count == 1 {
        match found {
            Some(n) => Ok(n),
            None => Err(false),
        }
    } else {
        Err(true)
    }
}

/// The one colour box with an ICC profile among the properties:
/// `Err(false)` where there is none, `Err(true)` where there are several.
pub fn find_icc(properties: &[ItemProperty]) -> (r: Result<Icc, bool>)
    ensures
        ({
            let c = count_where(properties@, |p: ItemProperty| is_icc(p));
            &&& c == 0 <==> r == Err::<Icc, bool>(false)
            &&& c > 1 <==> r == Err::<Icc, bool>(true)
            &&& c == 1 <==> r is Ok
            &&& r matches Ok(n) ==> first_where(properties@, |p: ItemProperty| is_icc(p)) matches Some(
                i,
            ) && properties@[i] == ItemProperty::ColorInformation(ColorInformation::Icc(n))
        }),
{
    let ghost f = |p: ItemProperty| is_icc(p);
    let mut found: Option<Icc> = None;
    let mut count: usize = 0;
    let mut i: usize = 0;
    assert(properties@.subrange(0, 0) =~= Seq::<ItemProperty>::empty());
    while i < properties.len()
        invariant
            0 <= i <= properties@.len(),
            f == (|p: ItemProperty| is_icc(p)),
            count <= i,
            count == count_where(properties@.subrange(0, i as int), f),
            count == 0 <==> found is None,
            found matches Some(n) ==> first_where(properties@, f) matches Some(k) && k < i
                && properties@[k] == ItemProperty::ColorInformation(ColorInformation::Icc(n)),
            found is None ==> forall|j: int| 0 <= j < i ==> !f(#[trigger] properties@[j]),
        decreases properties@.len() - i,
    {
        proof {
            lemma_count_step(properties@, f, i as int);
        }
        match &properties[i] {
            ItemProperty::ColorInformation(ColorInformation::Icc(icc)) => {
                if found.is_none() {
                    proof {
                        lemma_first_where_bounds(properties@, f);
                    }
                    found = Some(*icc);
                }
                count = count + 1;
            },
            _ => {},
        }
        i += 1;
    }
    assert(properties@.subrange(0, properties@.len() as int) =~= properties@);
    if count == 0 {
        Err(false)
    } else if count == 1 {
        match found {
            Some(n) => Ok(n),
            None => Err(false),
        }
    } else {
        Err(true)
    }
}

/// The first AV1 codec configuration among the properties.
#[allow(non_snake_case)]
pub fn find_av1C(properties: &[ItemProperty]) -> (r: Option<&CodecConfiguration>)
    ensures
        match first_where(properties@, |p: ItemProperty| is_av1c(p)) {
            Some(i) => r matches Some(c) && properties@[i] == ItemProperty::CodecConfiguration(*c),
            None => r is None,
        },
{
    let ghost f = |p: ItemProperty| is_av1c(p);
    proof {
        lemma_first_where_bounds(properties@, f);
    }
    let mut i: usize = 0;
    while i < properties.len()
        invariant
            0 <= i <= properties@.len(),
            f == (|p: ItemProperty| is_av1c(p)),
            forall|j: int| 0 <= j < i ==> !f(#[trigger] properties@[j]),
            first_where(properties@, f) matches Some(k) ==> 0 <= k < properties@.len() && f(
                properties@[k],
            ) && forall|j: int| 0 <= j < k ==> !f(#[trigger] properties@[j]),
            first_where(properties@, f) is None ==> forall|j: int|
                0 <= j < properties@.len() ==> !f(#[trigger] properties@[j]),
        decreases properties@.len() - i,
    {
        match &properties[i] {
            ItemProperty::CodecConfiguration(c) => {
                return Some(c);
            },
            _ => {},
        }
        i += 1;
    }
    None
}

} // verus!
