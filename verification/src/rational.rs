//! Exact rational arithmetic for recipe quantities.
//!
//! Quantities and scale factors are kept as exact fractions so that
//! merging and scaling are precise; every operation is checked and
//! reports overflow instead of wrapping.
use vstd::prelude::*;

verus! {

/// The mathematical sum of two fractions, as an unreduced pair.
pub open spec fn frac_add(a: (int, int), b: (int, int)) -> (int, int) {
    (a.0 * b.1 + b.0 * a.1, a.1 * b.1)
}

/// The mathematical product of two fractions, as an unreduced pair.
pub open spec fn frac_mul(a: (int, int), b: (int, int)) -> (int, int) {
    (a.0 * b.0, a.1 * b.1)
}

/// The quotient of two fractions (second nonzero), as an unreduced
/// pair whose denominator keeps the sign convention positive.
pub open spec fn frac_div(a: (int, int), b: (int, int)) -> (int, int) {
    if b.0 >= 0 {
        (a.0 * b.1, a.1 * b.0)
    } else {
        (-(a.0 * b.1), -(a.1 * b.0))
    }
}

/// The exact sum of two fractions stays within machine bounds.
pub open spec fn frac_add_fits(a: (int, int), b: (int, int)) -> bool {
    &&& i64::MIN <= a.0 * b.1 <= i64::MAX
    &&& i64::MIN <= b.0 * a.1 <= i64::MAX
    &&& i64::MIN <= a.1 * b.1 <= i64::MAX
    &&& i64::MIN <= a.0 * b.1 + b.0 * a.1 <= i64::MAX
}

/// The exact product of two fractions stays within machine bounds.
pub open spec fn frac_mul_fits(a: (int, int), b: (int, int)) -> bool {
    &&& i64::MIN <= a.0 * b.0 <= i64::MAX
    &&& i64::MIN <= a.1 * b.1 <= i64::MAX
}

/// The pair is representable as a machine rational: numerator strictly
/// above the minimum (so its negation is too), denominator positive.
pub open spec fn frac_fits(p: (int, int)) -> bool {
    &&& i64::MIN < p.0 <= i64::MAX
    &&& 1 <= p.1 <= i64::MAX
}

/// An exact rational number `num / den`, kept unreduced, with `den >= 1`.
#[derive(Clone, Copy, Debug)]
pub struct Rational {
    pub num: i64,
    pub den: i64,
}

impl Rational {
    /// Well-formed: the denominator is positive.
    pub open spec fn wf(self) -> bool {
        self.den >= 1
    }

    /// The fraction this value denotes.
    pub open spec fn frac(self) -> (int, int) {
        (self.num as int, self.den as int)
    }

    /// Addition stays within machine bounds.
    pub open spec fn add_fits(self, other: Rational) -> bool {
        frac_add_fits(self.frac(), other.frac())
    }

    /// Multiplication stays within machine bounds.
    pub open spec fn mul_fits(self, other: Rational) -> bool {
        frac_mul_fits(self.frac(), other.frac())
    }

    pub fn new(num: i64, den: i64) -> (r: Rational)
        requires
            den >= 1,
        ensures
            r.wf(),
            r.num == num,
            r.den == den,
    {
        Rational { num, den }
    }

    pub fn one() -> (r: Rational)
        ensures
            r.wf(),
            r.frac() == (1int, 1int),
    {
        Rational { num: 1, den: 1 }
    }

    /// Exact sum; `None` exactly when an intermediate value leaves `i64`.
    pub fn add(self, other: Rational) -> (r: Option<Rational>)
        requires
            self.wf(),
            other.wf(),
        ensures
            r is Some <==> self.add_fits(other),
            r matches Some(s) ==> s.wf() && s.frac() == frac_add(self.frac(), other.frac()),
    {
        proof {
            assert(self.den * other.den >= 1) by (nonlinear_arith)
                requires
                    self.den >= 1,
                    other.den >= 1,
            ;
        }
        match (
            self.num.checked_mul(other.den),
            other.num.checked_mul(self.den),
            self.den.checked_mul(other.den),
        ) {
            (Some(p1), Some(p2), Some(d)) => match p1.checked_add(p2) {
                Some(n) => Some(Rational { num: n, den: d }),
                None => None,
            },
            _ => None,
        }
    }

    /// Exact product; `None` exactly when a product leaves `i64`.
    pub fn mul(self, other: Rational) -> (r: Option<Rational>)
        requires
            self.wf(),
            other.wf(),
        ensures
            r is Some <==> self.mul_fits(other),
            r matches Some(s) ==> s.wf() && s.frac() == frac_mul(self.frac(), other.frac()),
    {
        proof {
            assert(self.den * other.den >= 1) by (nonlinear_arith)
                requires
                    self.den >= 1,
                    other.den >= 1,
            ;
        }
        match (self.num.checked_mul(other.num), self.den.checked_mul(other.den)) {
            (Some(n), Some(d)) => Some(Rational { num: n, den: d }),
            _ => None,
        }
    }

    /// Exact quotient `self / other` for `other != 0`; `None` exactly
    /// when the quotient pair is not a machine rational.
    pub fn div(self, other: Rational) -> (r: Option<Rational>)
        requires
            self.wf(),
            other.wf(),
            other.num != 0,
        ensures
            r is Some <==> frac_fits(frac_div(self.frac(), other.frac())),
            r matches Some(s) ==> s.wf() && s.frac() == frac_div(self.frac(), other.frac()),
    {
        proof {
            let p = frac_div(self.frac(), other.frac());
            if other.num >= 0 {
                assert(p == (self.num * other.den, self.den * other.num));
            } else {
                assert(p == (-(self.num * other.den), -(self.den * other.num)));
            }
        }
        match (self.num.checked_mul(other.den), self.den.checked_mul(other.num)) {
            (Some(n), Some(d)) => {
                if d >= 1 {
                    proof {
                        assert(other.num > 0) by (nonlinear_arith)
                            requires
                                d == self.den * other.num,
                                self.den >= 1,
                                d >= 1,
                        ;
                    }
                    if n == i64::MIN {
                        None
                    } else {
                        Some(Rational { num: n, den: d })
                    }
                } else if n == i64::MIN || d == i64::MIN {
                    proof {
                        assert(other.num < 0 && d <= -1) by (nonlinear_arith)
                            requires
                                d == self.den * other.num,
                                self.den >= 1,
                                d <= 0,
                                other.num != 0,
                        ;
                    }
                    None
                } else {
                    proof {
                        assert(other.num < 0 && d <= -1) by (nonlinear_arith)
                            requires
                                d == self.den * other.num,
                                self.den >= 1,
                                d <= 0,
                                other.num != 0,
                        ;
                    }
                    Some(Rational { num: -n, den: -d })
                }
            },
            _ => None,
        }
    }
}

/// Fraction addition is commutative, pair for pair.
pub proof fn lemma_frac_add_comm(a: (int, int), b: (int, int))
    ensures
        frac_add(a, b) == frac_add(b, a),
{
    assert(a.0 * b.1 + b.0 * a.1 == b.0 * a.1 + a.0 * b.1);
    assert(a.1 * b.1 == b.1 * a.1) by (nonlinear_arith);
}

/// Fraction addition is associative, pair for pair.
pub proof fn lemma_frac_add_assoc(a: (int, int), b: (int, int), c: (int, int))
    ensures
        frac_add(frac_add(a, b), c) == frac_add(a, frac_add(b, c)),
{
    let (a0, a1) = a;
    let (b0, b1) = b;
    let (c0, c1) = c;
    assert((a0 * b1 + b0 * a1) * c1 == a0 * b1 * c1 + b0 * a1 * c1) by (nonlinear_arith);
    assert(c0 * (a1 * b1) == c0 * a1 * b1) by (nonlinear_arith);
    assert(a0 * (b1 * c1) == a0 * b1 * c1) by (nonlinear_arith);
    assert((b0 * c1 + c0 * b1) * a1 == b0 * c1 * a1 + c0 * b1 * a1) by (nonlinear_arith);
    assert(b0 * a1 * c1 == b0 * c1 * a1) by (nonlinear_arith);
    assert(c0 * a1 * b1 == c0 * b1 * a1) by (nonlinear_arith);
    assert((a1 * b1) * c1 == a1 * (b1 * c1)) by (nonlinear_arith);
}

/// Fraction multiplication is associative, pair for pair.
pub proof fn lemma_frac_mul_assoc(a: (int, int), b: (int, int), c: (int, int))
    ensures
        frac_mul(frac_mul(a, b), c) == frac_mul(a, frac_mul(b, c)),
{
    assert((a.0 * b.0) * c.0 == a.0 * (b.0 * c.0)) by (nonlinear_arith);
    assert((a.1 * b.1) * c.1 == a.1 * (b.1 * c.1)) by (nonlinear_arith);
}

/// Fraction multiplication is commutative, pair for pair.
pub proof fn lemma_frac_mul_comm(a: (int, int), b: (int, int))
    ensures
        frac_mul(a, b) == frac_mul(b, a),
{
    assert(a.0 * b.0 == b.0 * a.0) by (nonlinear_arith);
    assert(a.1 * b.1 == b.1 * a.1) by (nonlinear_arith);
}

} // verus!
