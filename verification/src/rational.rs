//! Exact rational numbers: the scalars that the solver computes with.
//!
//! A [`Rational`] is a sign, a numerator and a positive denominator, the two
//! held as digit vectors of any length. Its view is the real number that it
//! stands for, and every operation states its result as real arithmetic on the
//! views.

use crate::natural::{
    digits_difference, digits_gcd, digits_less, digits_product, digits_quotient, digits_sum,
    digits_value, is_gcd, trimmed, value_of_none, value_of_two,
};
use vstd::prelude::*;

verus! {

/// The real number `n / d`.
pub open spec fn ratio(n: int, d: int) -> real {
    (n as real) / (d as real)
}

/// The integer with the given sign and magnitude.
pub open spec fn signed(neg: bool, magnitude: nat) -> int {
    if neg {
        -(magnitude as int)
    } else {
        magnitude as int
    }
}

proof fn cast_product(a: int, b: int)
    ensures
        (a * b) as real == (a as real) * (b as real),
{
    assert((a * b) as real == (a as real) * (b as real)) by (nonlinear_arith);
}

/// Two fractions with equal cross products are the same number.
pub proof fn ratio_same(a: int, b: int, c: int, d: int)
    requires
        b > 0,
        d > 0,
        a * d == c * b,
    ensures
        ratio(a, b) == ratio(c, d),
{
    cast_product(a, d);
    cast_product(c, b);
    let (ar, br, cr, dr) = (a as real, b as real, c as real, d as real);
    assert(ar / br == cr / dr) by (nonlinear_arith)
        requires
            br > 0real,
            dr > 0real,
            ar * dr == cr * br,
    ;
}

/// The sum of two fractions.
pub proof fn ratio_sum(a: int, b: int, c: int, d: int)
    requires
        b > 0,
        d > 0,
    ensures
        ratio(a, b) + ratio(c, d) == ratio(a * d + c * b, b * d),
{
    cast_product(a, d);
    cast_product(c, b);
    cast_product(b, d);
    let (ar, br, cr, dr) = (a as real, b as real, c as real, d as real);
    assert(ar / br + cr / dr == (ar * dr + cr * br) / (br * dr)) by (nonlinear_arith)
        requires
            br > 0real,
            dr > 0real,
    ;
}

/// The product of two fractions.
pub proof fn ratio_product(a: int, b: int, c: int, d: int)
    requires
        b > 0,
        d > 0,
    ensures
        ratio(a, b) * ratio(c, d) == ratio(a * c, b * d),
{
    cast_product(a, c);
    cast_product(b, d);
    let (ar, br, cr, dr) = (a as real, b as real, c as real, d as real);
    assert((ar / br) * (cr / dr) == (ar * cr) / (br * dr)) by (nonlinear_arith)
        requires
            br > 0real,
            dr > 0real,
    ;
}

/// The quotient of two fractions, the divisor not zero: the sign of the
/// divisor's numerator moves to the numerator of the result.
pub proof fn ratio_quotient(a: int, b: int, c: int, d: int)
    requires
        b > 0,
        d > 0,
        c != 0,
    ensures
        c > 0 ==> ratio(a, b) / ratio(c, d) == ratio(a * d, b * c),
        c < 0 ==> ratio(a, b) / ratio(c, d) == ratio(-(a * d), b * (-c)),
{
    cast_product(a, d);
    cast_product(b, c);
    cast_product(b, -c);
    let (ar, br, cr, dr) = (a as real, b as real, c as real, d as real);
    if c > 0 {
        assert((ar / br) / (cr / dr) == (ar * dr) / (br * cr)) by (nonlinear_arith)
            requires
                br > 0real,
                dr > 0real,
                cr > 0real,
        ;
    } else {
        assert((-c) as real == -cr);
        assert((-(a * d)) as real == -(ar * dr));
        assert((ar / br) / (cr / dr) == (-(ar * dr)) / (br * (-cr))) by (nonlinear_arith)
            requires
                br > 0real,
                dr > 0real,
                cr < 0real,
        ;
    }
}

/// The negation of a fraction.
pub proof fn ratio_negated(a: int, b: int)
    requires
        b > 0,
    ensures
        -ratio(a, b) == ratio(-a, b),
{
    let (ar, br) = (a as real, b as real);
    assert((-a) as real == -ar);
    assert(-(ar / br) == (-ar) / br) by (nonlinear_arith)
        requires
            br > 0real,
    ;
}

/// Fractions are ordered as their cross products are.
pub proof fn ratio_less(a: int, b: int, c: int, d: int)
    requires
        b > 0,
        d > 0,
    ensures
        ratio(a, b) < ratio(c, d) <==> a * d < c * b,
{
    cast_product(a, d);
    cast_product(c, b);
    let (ar, br, cr, dr) = (a as real, b as real, c as real, d as real);
    assert(ar / br < cr / dr <==> ar * dr < cr * br) by (nonlinear_arith)
        requires
            br > 0real,
            dr > 0real,
    ;
}

/// A fraction has the sign of its numerator.
pub proof fn ratio_sign(a: int, b: int)
    requires
        b > 0,
    ensures
        ratio(a, b) < 0real <==> a < 0,
        ratio(a, b) == 0real <==> a == 0,
        ratio(a, b) > 0real <==> a > 0,
{
    let (ar, br) = (a as real, b as real);
    assert((ar / br < 0real <==> ar < 0real) && (ar / br == 0real <==> ar == 0real) && (ar / br
        > 0real <==> ar > 0real)) by (nonlinear_arith)
        requires
            br > 0real,
    ;
}

proof fn signed_times(neg: bool, m: nat, k: nat)
    ensures
        signed(neg, m) * k == signed(neg, m * k),
{
    assert(signed(neg, m) * k == signed(neg, m * k)) by (nonlinear_arith)
        requires
            signed(neg, m) == if neg { -(m as int) } else { m as int },
            signed(neg, m * k) == if neg { -((m * k) as int) } else { (m * k) as int },
    ;
}

proof fn signed_product(neg1: bool, m1: nat, neg2: bool, m2: nat)
    ensures
        signed(neg1, m1) * signed(neg2, m2) == signed(neg1 != neg2, m1 * m2),
{
    let (a, b) = (m1 as int, m2 as int);
    assert(a * b == (-a) * (-b) && (-a) * b == -(a * b) && a * (-b) == -(a * b))
        by (nonlinear_arith);
}

proof fn positive_product(a: nat, b: nat)
    requires
        a > 0,
        b > 0,
    ensures
        a * b > 0,
{
    assert(a * b > 0) by (nonlinear_arith)
        requires
            a > 0,
            b > 0,
    ;
}

/// Dividing two numbers by their greatest common divisor leaves two numbers
/// with no common divisor but one.
proof fn lowest_terms(a: nat, b: nat, g: nat, x: nat, y: nat)
    requires
        b > 0,
        is_gcd(g, a, b),
        x == a / g,
        y == b / g,
    ensures
        is_gcd(1, x, y),
{
    let (ai, bi, gi) = (a as int, b as int, g as int);
    vstd::arithmetic::div_mod::lemma_fundamental_div_mod(ai, gi);
    vstd::arithmetic::div_mod::lemma_fundamental_div_mod(bi, gi);
    assert(a == g * x);
    assert(b == g * y);
    assert(y > 0) by (nonlinear_arith)
        requires
            b == g * y,
            b > 0,
            g > 0,
    ;
    assert(x % 1 == 0 && y % 1 == 0);
    assert forall|c: nat| c > 0 && #[trigger] (x % c) == 0 && y % c == 0 implies c <= 1 by {
        let (ci, xi, yi) = (c as int, x as int, y as int);
        vstd::arithmetic::div_mod::lemma_fundamental_div_mod(xi, ci);
        vstd::arithmetic::div_mod::lemma_fundamental_div_mod(yi, ci);
        let (kx, ky) = (xi / ci, yi / ci);
        let m = c * g;
        assert(m > 0) by (nonlinear_arith)
            requires
                m == c * g,
                c > 0,
                g > 0,
        ;
        assert(ai == kx * (m as int)) by (nonlinear_arith)
            requires
                ai == gi * xi,
                xi == ci * kx,
                m == c * g,
                ci == c,
                gi == g,
        ;
        assert(bi == ky * (m as int)) by (nonlinear_arith)
            requires
                bi == gi * yi,
                yi == ci * ky,
                m == c * g,
                ci == c,
                gi == g,
        ;
        vstd::arithmetic::div_mod::lemma_mod_multiples_basic(kx, m as int);
        vstd::arithmetic::div_mod::lemma_mod_multiples_basic(ky, m as int);
        assert(a % m == 0);
        assert(b % m == 0);
        assert(m <= g);
        assert(c <= 1) by (nonlinear_arith)
            requires
                m == c * g,
                m <= g,
                g > 0,
        ;
    }
}

/// A rational number of any size.
#[derive(Debug)]
pub struct Rational {
    neg: bool,
    num: Vec<u32>,
    den: Vec<u32>,
}

impl View for Rational {
    type V = real;

    closed spec fn view(&self) -> real {
        ratio(self.numer(), self.denom())
    }
}

impl Clone for Rational {
    fn clone(&self) -> (r: Self)
        ensures
            r@ == self@,
    {
        proof {
            use_type_invariant(self);
        }
        let num = self.num.clone();
        let den = self.den.clone();
        assert(num@ =~= self.num@);
        assert(den@ =~= self.den@);
        Rational { neg: self.neg, num, den }
    }
}

impl Rational {
    #[verifier::type_invariant]
    spec fn inv(self) -> bool {
        &&& digits_value(self.den@) > 0
        &&& is_gcd(1, digits_value(self.num@), digits_value(self.den@))
        &&& self.neg ==> digits_value(self.num@) > 0
        &&& trimmed(self.num@)
        &&& trimmed(self.den@)
    }

    spec fn numer(self) -> int {
        signed(self.neg, digits_value(self.num@))
    }

    spec fn denom(self) -> int {
        digits_value(self.den@) as int
    }

    /// The fraction with the given sign, numerator and denominator, brought to
    /// lowest terms.
    fn make(neg: bool, num: Vec<u32>, den: Vec<u32>) -> (r: Rational)
        requires
            digits_value(den@) > 0,
        ensures
            r@ == ratio(signed(neg, digits_value(num@)), digits_value(den@) as int),
    {
        let g = digits_gcd(&num, &den);
        let n = digits_quotient(&num, &g);
        let d = digits_quotient(&den, &g);
        let positive = Rational::is_positive(&n);
        proof {
            lowest_terms(
                digits_value(num@),
                digits_value(den@),
                digits_value(g@),
                digits_value(n@),
                digits_value(d@),
            );
        }
        proof {
            let gv = digits_value(g@) as int;
            let nv = digits_value(num@) as int;
            let dv = digits_value(den@) as int;
            let nq = digits_value(n@) as int;
            let dq = digits_value(d@) as int;
            vstd::arithmetic::div_mod::lemma_fundamental_div_mod(nv, gv);
            vstd::arithmetic::div_mod::lemma_fundamental_div_mod(dv, gv);
            assert(nv == gv * nq);
            assert(dv == gv * dq);
            assert(dq > 0) by (nonlinear_arith)
                requires
                    dv == gv * dq,
                    dv > 0,
                    gv > 0,
            ;
            assert(signed(neg, nq as nat) * dv == signed(neg, nv as nat) * dq)
                by (nonlinear_arith)
                requires
                    nv == gv * nq,
                    dv == gv * dq,
                    signed(neg, nq as nat) == if neg { -nq } else { nq },
                    signed(neg, nv as nat) == if neg { -nv } else { nv },
            ;
            ratio_same(signed(neg, nq as nat), dq, signed(neg, nv as nat), dv);
        }
        Rational { neg: neg && positive, num: n, den: d }
    }

    /// Whether the digits stand for a positive number.
    fn is_positive(digits: &Vec<u32>) -> (r: bool)
        ensures
            r == (digits_value(digits@) > 0),
    {
        let zero: Vec<u32> = Vec::new();
        proof {
            assert(zero@ =~= Seq::<u32>::empty());
            value_of_none();
        }
        digits_less(&zero, digits)
    }

    /// The whole number `n`.
    pub fn from_int(n: i64) -> (r: Rational)
        ensures
            r@ == n as real,
    {
        let r = Rational::from_fraction(n, 1);
        proof {
            let x = n as real;
            assert(x / 1real == x) by (nonlinear_arith);
        }
        r.unwrap()
    }

    /// The fraction `num / den`, or `None` where `den` is zero.
    pub fn from_fraction(num: i64, den: u64) -> (r: Option<Rational>)
        ensures
            r is Some <==> den != 0,
            r is Some ==> r->Some_0@ == ratio(num as int, den as int),
    {
        if den == 0 {
            return None;
        }
        let neg = num < 0;
        let magnitude: u64 = if num < 0 {
            ((-(num + 1)) as u64) + 1
        } else {
            num as u64
        };
        let n = Rational::digits_of(magnitude);
        let d = Rational::digits_of(den);
        assert(signed(neg, magnitude as nat) == num);
        Some(Rational::make(neg, n, d))
    }

    fn digits_of(m: u64) -> (r: Vec<u32>)
        ensures
            digits_value(r@) == m,
    {
        let lo: u32 = (m % 4294967296) as u32;
        let hi: u32 = (m / 4294967296) as u32;
        let r = vec![lo, hi];
        proof {
            assert(r@ =~= seq![lo, hi]);
            value_of_two(lo, hi);
        }
        r
    }

    /// The sign, the numerator's digits and the denominator's digits, least
    /// significant digit first, base 2^32. The fraction is in lowest terms,
    /// the denominator is positive, zero has no sign, and neither digit
    /// vector has a leading zero.
    pub fn parts(&self) -> (r: (bool, Vec<u32>, Vec<u32>))
        ensures
            digits_value(r.2@) > 0,
            trimmed(r.1@),
            trimmed(r.2@),
            is_gcd(1, digits_value(r.1@), digits_value(r.2@)),
            r.0 ==> digits_value(r.1@) > 0,
            self@ == ratio(signed(r.0, digits_value(r.1@)), digits_value(r.2@) as int),
    {
        proof {
            use_type_invariant(self);
        }
        let num = self.num.clone();
        let den = self.den.clone();
        assert(num@ =~= self.num@);
        assert(den@ =~= self.den@);
        (self.neg, num, den)
    }

    /// The sum.
    pub fn add(&self, other: &Rational) -> (r: Rational)
        ensures
            r@ == self@ + other@,
    {
        proof {
            use_type_invariant(self);
            use_type_invariant(other);
        }
        let x = digits_product(&self.num, &other.den);
        let y = digits_product(&other.num, &self.den);
        let d = digits_product(&self.den, &other.den);
        proof {
            positive_product(digits_value(self.den@), digits_value(other.den@));
            signed_times(self.neg, digits_value(self.num@), digits_value(other.den@));
            signed_times(other.neg, digits_value(other.num@), digits_value(self.den@));
            ratio_sum(self.numer(), self.denom(), other.numer(), other.denom());
        }
        if self.neg == other.neg {
            let n = digits_sum(&x, &y);
            Rational::make(self.neg, n, d)
        } else if digits_less(&x, &y) {
            let n = digits_difference(&y, &x);
            Rational::make(other.neg, n, d)
        } else {
            let n = digits_difference(&x, &y);
            Rational::make(self.neg, n, d)
        }
    }

    /// The negation.
    pub fn neg(&self) -> (r: Rational)
        ensures
            r@ == -self@,
    {
        proof {
            use_type_invariant(self);
            ratio_negated(self.numer(), self.denom());
        }
        let num = self.num.clone();
        let den = self.den.clone();
        assert(num@ =~= self.num@);
        assert(den@ =~= self.den@);
        let positive = Rational::is_positive(&num);
        Rational { neg: !self.neg && positive, num, den }
    }

    /// The difference.
    pub fn sub(&self, other: &Rational) -> (r: Rational)
        ensures
            r@ == self@ - other@,
    {
        let minus = other.neg();
        self.add(&minus)
    }

    /// The product.
    pub fn mul(&self, other: &Rational) -> (r: Rational)
        ensures
            r@ == self@ * other@,
    {
        proof {
            use_type_invariant(self);
            use_type_invariant(other);
        }
        let n = digits_product(&self.num, &other.num);
        let d = digits_product(&self.den, &other.den);
        proof {
            positive_product(digits_value(self.den@), digits_value(other.den@));
            signed_product(
                self.neg,
                digits_value(self.num@),
                other.neg,
                digits_value(other.num@),
            );
            ratio_product(self.numer(), self.denom(), other.numer(), other.denom());
        }
        Rational::make(self.neg != other.neg, n, d)
    }

    /// The quotient; the divisor is not zero.
    pub fn div(&self, other: &Rational) -> (r: Rational)
        requires
            other@ != 0real,
        ensures
            r@ == self@ / other@,
    {
        proof {
            use_type_invariant(self);
            use_type_invariant(other);
            ratio_sign(other.numer(), other.denom());
        }
        let n = digits_product(&self.num, &other.den);
        let d = digits_product(&self.den, &other.num);
        proof {
            positive_product(digits_value(self.den@), digits_value(other.num@));
            signed_times(self.neg, digits_value(self.num@), digits_value(other.den@));
            ratio_quotient(self.numer(), self.denom(), other.numer(), other.denom());
        }
        Rational::make(self.neg != other.neg, n, d)
    }

    /// Whether this number is smaller than the other.
    pub fn lt(&self, other: &Rational) -> (r: bool)
        ensures
            r == (self@ < other@),
    {
        proof {
            use_type_invariant(self);
            use_type_invariant(other);
        }
        let x = digits_product(&self.num, &other.den);
        let y = digits_product(&other.num, &self.den);
        proof {
            signed_times(self.neg, digits_value(self.num@), digits_value(other.den@));
            signed_times(other.neg, digits_value(other.num@), digits_value(self.den@));
            ratio_less(self.numer(), self.denom(), other.numer(), other.denom());
        }
        if self.neg {
            if other.neg {
                digits_less(&y, &x)
            } else {
                Rational::is_positive(&x) || Rational::is_positive(&y)
            }
        } else {
            if other.neg {
                false
            } else {
                digits_less(&x, &y)
            }
        }
    }

    /// Whether this number is larger than the other.
    pub fn gt(&self, other: &Rational) -> (r: bool)
        ensures
            r == (self@ > other@),
    {
        other.lt(self)
    }

    /// Whether this number is at most the other.
    pub fn le(&self, other: &Rational) -> (r: bool)
        ensures
            r == (self@ <= other@),
    {
        !other.lt(self)
    }

    /// Whether this number is at least the other.
    pub fn ge(&self, other: &Rational) -> (r: bool)
        ensures
            r == (self@ >= other@),
    {
        !self.lt(other)
    }

    /// The absolute value.
    pub fn abs(&self) -> (r: Rational)
        ensures
            r@ == magnitude(self@),
    {
        proof {
            use_type_invariant(self);
            ratio_sign(self.numer(), self.denom());
            ratio_negated(self.numer(), self.denom());
        }
        let num = self.num.clone();
        let den = self.den.clone();
        assert(num@ =~= self.num@);
        assert(den@ =~= self.den@);
        Rational { neg: false, num, den }
    }
}

/// The absolute value of a real number.
pub open spec fn magnitude(x: real) -> real {
    if x < 0real {
        -x
    } else {
        x
    }
}

/// The real numbers that a sequence of rationals stands for.
pub open spec fn reals(s: Seq<Rational>) -> Seq<real> {
    Seq::new(s.len(), |i: int| s[i]@)
}

/// The real matrix that rows of rationals stand for.
pub open spec fn real_rows(m: Seq<Vec<Rational>>) -> Seq<Seq<real>> {
    Seq::new(m.len(), |i: int| reals(m[i]@))
}

/// A copy of the numbers.
pub fn copy_values(v: &Vec<Rational>) -> (r: Vec<Rational>)
    ensures
        r.len() == v.len(),
        reals(r@) == reals(v@),
{
    let mut r: Vec<Rational> = Vec::new();
    let mut i: usize = 0;
    while i < v.len()
        invariant
            i <= v.len(),
            r.len() == i,
            forall|k: int| 0 <= k < i ==> r@[k]@ == v@[k]@,
        decreases v.len() - i,
    {
        r.push(v[i].clone());
        i += 1;
    }
    assert(reals(r@) =~= reals(v@));
    r
}

/// A copy of the rows.
pub fn copy_rows(m: &Vec<Vec<Rational>>) -> (r: Vec<Vec<Rational>>)
    ensures
        r.len() == m.len(),
        forall|i: int| 0 <= i < m.len() ==> (#[trigger] r@[i]).len() == m@[i].len(),
        real_rows(r@) == real_rows(m@),
{
    let mut r: Vec<Vec<Rational>> = Vec::new();
    let mut i: usize = 0;
    while i < m.len()
        invariant
            i <= m.len(),
            r.len() == i,
            forall|k: int| 0 <= k < i ==> (#[trigger] r@[k]).len() == m@[k].len(),
            forall|k: int| 0 <= k < i ==> reals(#[trigger] r@[k]@) == reals(m@[k]@),
        decreases m.len() - i,
    {
        r.push(copy_values(&m[i]));
        i += 1;
    }
    assert(real_rows(r@) =~= real_rows(m@));
    r
}

} // verus!
