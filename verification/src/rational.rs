//! Exact rational numbers over 128-bit integers.
//!
//! Every quantity the pipeline manipulates (price, return, covariance entry,
//! portfolio weight) is a [`Ratio`]: a fraction of two `i128` values with a
//! strictly positive denominator. The mathematical value of a `Ratio` is the
//! ghost fraction [`Rat`], whose components are unbounded integers, so
//! contracts can state results exactly. Executable arithmetic is checked:
//! an operation whose intermediate products would leave `i128` reports
//! failure instead of wrapping, and results are reduced by a common divisor
//! to keep components small.

use vstd::prelude::*;

verus! {

use vstd::arithmetic::div_mod::{lemma_fundamental_div_mod, lemma_div_nonincreasing};

/// The mathematical value of a fraction: numerator `n` over denominator `d`.
pub ghost struct Rat {
    pub n: int,
    pub d: int,
}

/// A fraction denotes a rational number when its denominator is positive.
pub open spec fn rat_wf(r: Rat) -> bool {
    r.d > 0
}

pub open spec fn rat_zero() -> Rat {
    Rat { n: 0, d: 1 }
}

pub open spec fn rat_one() -> Rat {
    Rat { n: 1, d: 1 }
}

pub open spec fn rat_of_int(n: int) -> Rat {
    Rat { n: n, d: 1 }
}

/// Two fractions denote the same rational number.
pub open spec fn rat_eq(a: Rat, b: Rat) -> bool {
    a.n * b.d == b.n * a.d
}

/// `a <= b` as rational numbers; meaningful when both are well formed.
pub open spec fn rat_le(a: Rat, b: Rat) -> bool {
    a.n * b.d <= b.n * a.d
}

/// `a < b` as rational numbers; meaningful when both are well formed.
pub open spec fn rat_lt(a: Rat, b: Rat) -> bool {
    a.n * b.d < b.n * a.d
}

pub open spec fn rat_add(a: Rat, b: Rat) -> Rat {
    Rat { n: a.n * b.d + b.n * a.d, d: a.d * b.d }
}

pub open spec fn rat_sub(a: Rat, b: Rat) -> Rat {
    Rat { n: a.n * b.d - b.n * a.d, d: a.d * b.d }
}

pub open spec fn rat_mul(a: Rat, b: Rat) -> Rat {
    Rat { n: a.n * b.n, d: a.d * b.d }
}

pub open spec fn rat_neg(a: Rat) -> Rat {
    Rat { n: -a.n, d: a.d }
}

/// Reciprocal, with the denominator kept positive. The reciprocal of zero is
/// left as zero; callers that divide guard against zero divisors themselves.
pub open spec fn rat_inv(a: Rat) -> Rat {
    if a.n > 0 {
        Rat { n: a.d, d: a.n }
    } else if a.n < 0 {
        Rat { n: -a.d, d: -a.n }
    } else {
        rat_zero()
    }
}

pub open spec fn rat_div(a: Rat, b: Rat) -> Rat {
    rat_mul(a, rat_inv(b))
}

/// Components comfortably small: one cross-multiplication of two modest
/// fractions stays far inside `i128`, so checked arithmetic on them succeeds.
pub const MODEST_BOUND: i128 = 0x4000_0000_0000_0000;

pub open spec fn rat_modest(r: Rat) -> bool {
    &&& -(MODEST_BOUND as int) < r.n < MODEST_BOUND as int
    &&& 0 < r.d < MODEST_BOUND as int
}

/// Components small enough that one sum or quotient of two small fractions
/// is still modest, so a two-step computation on them cannot overflow.
pub const SMALL_BOUND: i128 = 0x4000_0000;

pub open spec fn rat_small(r: Rat) -> bool {
    &&& -(SMALL_BOUND as int) < r.n < SMALL_BOUND as int
    &&& 0 < r.d < SMALL_BOUND as int
}

/// Magnitude of an unbounded integer.
pub open spec fn iabs(x: int) -> int {
    if x >= 0 {
        x
    } else {
        -x
    }
}

pub proof fn lemma_iabs_mul(x: int, y: int)
    by (nonlinear_arith)
    ensures
        y > 0 ==> iabs(x * y) == iabs(x) * y,
        iabs(x * y) == iabs(x) * iabs(y),
{
}

// ------------------------------------------------------------------
// Algebraic facts about the ghost fractions.
// ------------------------------------------------------------------

pub proof fn lemma_rat_eq_sym(a: Rat, b: Rat)
    requires
        rat_eq(a, b),
    ensures
        rat_eq(b, a),
{
}

pub proof fn lemma_rat_eq_trans(a: Rat, b: Rat, c: Rat)
    by (nonlinear_arith)
    requires
        rat_eq(a, b),
        rat_eq(b, c),
        b.d != 0,
    ensures
        rat_eq(a, c),
{
}

pub proof fn lemma_rat_ops_wf(a: Rat, b: Rat)
    by (nonlinear_arith)
    requires
        rat_wf(a),
        rat_wf(b),
    ensures
        rat_wf(rat_add(a, b)),
        rat_wf(rat_sub(a, b)),
        rat_wf(rat_mul(a, b)),
        rat_wf(rat_neg(a)),
        rat_wf(rat_inv(a)),
        rat_wf(rat_div(a, b)),
{
}

pub proof fn lemma_rat_add_congr(a1: Rat, b1: Rat, a2: Rat, b2: Rat)
    requires
        rat_eq(a1, a2),
        rat_eq(b1, b2),
    ensures
        rat_eq(rat_add(a1, b1), rat_add(a2, b2)),
        rat_eq(rat_sub(a1, b1), rat_sub(a2, b2)),
{
    assert(a1.n * b1.d * (a2.d * b2.d) == a2.n * b2.d * (a1.d * b1.d)) by (nonlinear_arith)
        requires a1.n * a2.d == a2.n * a1.d;
    assert(b1.n * a1.d * (a2.d * b2.d) == b2.n * a2.d * (a1.d * b1.d)) by (nonlinear_arith)
        requires b1.n * b2.d == b2.n * b1.d;
    assert((a1.n * b1.d + b1.n * a1.d) * (a2.d * b2.d)
        == a1.n * b1.d * (a2.d * b2.d) + b1.n * a1.d * (a2.d * b2.d)) by (nonlinear_arith);
    assert((a2.n * b2.d + b2.n * a2.d) * (a1.d * b1.d)
        == a2.n * b2.d * (a1.d * b1.d) + b2.n * a2.d * (a1.d * b1.d)) by (nonlinear_arith);
    assert((a1.n * b1.d - b1.n * a1.d) * (a2.d * b2.d)
        == a1.n * b1.d * (a2.d * b2.d) - b1.n * a1.d * (a2.d * b2.d)) by (nonlinear_arith);
    assert((a2.n * b2.d - b2.n * a2.d) * (a1.d * b1.d)
        == a2.n * b2.d * (a1.d * b1.d) - b2.n * a2.d * (a1.d * b1.d)) by (nonlinear_arith);
}

pub proof fn lemma_rat_mul_congr(a1: Rat, b1: Rat, a2: Rat, b2: Rat)
    requires
        rat_eq(a1, a2),
        rat_eq(b1, b2),
    ensures
        rat_eq(rat_mul(a1, b1), rat_mul(a2, b2)),
{
    assert((a1.n * a2.d) * (b1.n * b2.d) == (a2.n * a1.d) * (b2.n * b1.d)) by (nonlinear_arith)
        requires a1.n * a2.d == a2.n * a1.d, b1.n * b2.d == b2.n * b1.d;
    assert((a1.n * b1.n) * (a2.d * b2.d) == (a1.n * a2.d) * (b1.n * b2.d)) by (nonlinear_arith);
    assert((a2.n * b2.n) * (a1.d * b1.d) == (a2.n * a1.d) * (b2.n * b1.d)) by (nonlinear_arith);
}

pub proof fn lemma_rat_inv_congr(a1: Rat, a2: Rat)
    requires
        rat_eq(a1, a2),
        rat_wf(a1),
        rat_wf(a2),
    ensures
        rat_eq(rat_inv(a1), rat_inv(a2)),
{
    if a1.n > 0 {
        assert(a2.n > 0) by (nonlinear_arith)
            requires a1.n * a2.d == a2.n * a1.d, a1.d > 0, a2.d > 0, a1.n > 0;
        assert(a1.d * a2.n == a2.d * a1.n) by (nonlinear_arith)
            requires a1.n * a2.d == a2.n * a1.d;
    } else if a1.n < 0 {
        assert(a2.n < 0) by (nonlinear_arith)
            requires a1.n * a2.d == a2.n * a1.d, a1.d > 0, a2.d > 0, a1.n < 0;
        assert((-a1.d) * (-a2.n) == (-a2.d) * (-a1.n)) by (nonlinear_arith)
            requires a1.n * a2.d == a2.n * a1.d;
    } else {
        assert(a2.n == 0) by (nonlinear_arith)
            requires a1.n * a2.d == a2.n * a1.d, a1.d > 0, a2.d > 0, a1.n == 0;
    }
}

pub proof fn lemma_rat_div_congr(a1: Rat, b1: Rat, a2: Rat, b2: Rat)
    requires
        rat_eq(a1, a2),
        rat_eq(b1, b2),
        rat_wf(b1),
        rat_wf(b2),
    ensures
        rat_eq(rat_div(a1, b1), rat_div(a2, b2)),
{
    lemma_rat_inv_congr(b1, b2);
    lemma_rat_mul_congr(a1, rat_inv(b1), a2, rat_inv(b2));
}

pub proof fn lemma_rat_le_congr(a1: Rat, b1: Rat, a2: Rat, b2: Rat)
    by (nonlinear_arith)
    requires
        rat_eq(a1, a2),
        rat_eq(b1, b2),
        rat_wf(a1),
        rat_wf(b1),
        rat_wf(a2),
        rat_wf(b2),
    ensures
        rat_le(a1, b1) <==> rat_le(a2, b2),
        rat_lt(a1, b1) <==> rat_lt(a2, b2),
{
}

pub proof fn lemma_rat_order_trans(a: Rat, b: Rat, c: Rat)
    by (nonlinear_arith)
    requires
        rat_wf(a),
        rat_wf(b),
        rat_wf(c),
    ensures
        rat_le(a, b) && rat_le(b, c) ==> rat_le(a, c),
        rat_le(a, b) && rat_lt(b, c) ==> rat_lt(a, c),
        rat_lt(a, b) && rat_le(b, c) ==> rat_lt(a, c),
{
}

/// Cross products of two modest fractions stay strictly inside `i128`.
pub proof fn lemma_modest_products(a: Rat, b: Rat)
    by (nonlinear_arith)
    ensures
        rat_modest(a) && rat_modest(b) ==> (
            i128::MIN < a.n * b.d < i128::MAX
            && i128::MIN < b.n * a.d < i128::MAX
            && i128::MIN < a.n * b.d + b.n * a.d < i128::MAX
            && i128::MIN < a.n * b.n < i128::MAX
            && 0 < a.d * b.d < i128::MAX
            && i128::MIN < a.d * b.n < i128::MAX
            && (b.n != 0 ==> a.d * b.n != 0)
        ),
{
}

// ------------------------------------------------------------------
// The executable fraction.
// ------------------------------------------------------------------

/// An exact rational held as an `i128` fraction with positive denominator.
#[derive(Clone, Copy, Debug, PartialEq, Eq, Structural)]
pub struct Ratio {
    num: i128,
    den: i128,
}

impl View for Ratio {
    type V = Rat;

    closed spec fn view(&self) -> Rat {
        Rat { n: self.num as int, d: self.den as int }
    }
}

impl Ratio {
    /// Denominators are positive and the numerator stays clear of
    /// `i128::MIN`, so the numerator can always be negated. Every reachable
    /// `Ratio` satisfies this; `use_type_invariant` recovers it on demand.
    #[verifier::type_invariant]
    pub open spec fn wf(self) -> bool {
        rat_wf(self@) && self@.n > i128::MIN && self@.n < i128::MAX + 1 && self@.d < i128::MAX + 1
    }

    pub fn zero() -> (r: Ratio)
        ensures
            r@ == rat_zero(),
    {
        Ratio { num: 0, den: 1 }
    }

    pub fn one() -> (r: Ratio)
        ensures
            r@ == rat_one(),
    {
        Ratio { num: 1, den: 1 }
    }

    pub fn from_int(x: i64) -> (r: Ratio)
        ensures
            r@ == rat_of_int(x as int),
    {
        Ratio { num: x as i128, den: 1 }
    }

    pub fn num(&self) -> (r: i128)
        ensures
            r as int == self@.n,
    {
        self.num
    }

    pub fn den(&self) -> (r: i128)
        ensures
            r as int == self@.d,
            r > 0,
    {
        proof { use_type_invariant(self); }
        self.den
    }

    /// True exactly when this fraction denotes zero.
    pub fn is_zero(&self) -> (r: bool)
        ensures
            r <==> rat_eq(self@, rat_zero()),
    {
        proof { use_type_invariant(self); }
        self.num == 0
    }

    /// Build a reduced fraction denoting `num / den`. Fails only for a zero
    /// denominator or for the one unrepresentable magnitude `i128::MIN`.
    pub fn new(num: i128, den: i128) -> (r: Option<Ratio>)
        ensures
            r matches Some(q) ==> rat_eq(q@, Rat { n: num as int, d: den as int }),
            den != 0 && num != i128::MIN && den != i128::MIN ==> r is Some,
            r is Some ==> den != 0,
            r matches Some(q) ==> iabs(q@.n) <= iabs(num as int) && q@.d <= iabs(den as int),
    {
        if den == 0 {
            return None;
        }
        let neg_out: bool = (num < 0) != (den < 0);
        let a: u128 = abs_i128(num);
        let d: u128 = abs_i128(den);
        let g0: u128 = gcd_u128(a, d);
        let g: u128 = if g0 >= 1 && a % g0 == 0 && d % g0 == 0 { g0 } else { 1 };
        assert(g >= 1 && a % g == 0 && d % g == 0);
        let an: u128 = a / g;
        let dn: u128 = d / g;
        proof {
            lemma_fundamental_div_mod(a as int, g as int);
            lemma_fundamental_div_mod(d as int, g as int);
            lemma_div_nonincreasing(a as int, g as int);
            lemma_div_nonincreasing(d as int, g as int);
            assert(dn >= 1) by (nonlinear_arith)
                requires d as int == g as int * (dn as int), d >= 1, g >= 1;
        }
        if an > (i128::MAX as u128) || dn > (i128::MAX as u128) {
            return None;
        }
        let num2: i128 = if neg_out { -(an as i128) } else { an as i128 };
        let den2: i128 = dn as i128;
        proof {
            assert((an as int) * (d as int) == (a as int) * (dn as int)) by (nonlinear_arith)
                requires
                    a as int == g as int * (an as int),
                    d as int == g as int * (dn as int);
            assert((num2 as int) * (den as int) == (num as int) * (den2 as int))
                by (nonlinear_arith)
                requires
                    (an as int) * (d as int) == (a as int) * (dn as int),
                    a as int == (if num >= 0 { num as int } else { -(num as int) }),
                    d as int == (if den >= 0 { den as int } else { -(den as int) }),
                    num2 as int == (if neg_out { -(an as int) } else { an as int }),
                    den2 as int == dn as int,
                    neg_out == ((num < 0) != (den < 0)),
                    den != 0;
        }
        Some(Ratio { num: num2, den: den2 })
    }

    /// Sum; reports `None` when an intermediate value leaves `i128`.
    pub fn add(&self, other: &Ratio) -> (r: Option<Ratio>)
        ensures
            r matches Some(q) ==> rat_eq(q@, rat_add(self@, other@)),
            rat_modest(self@) && rat_modest(other@) ==> r is Some,
            r matches Some(q) ==> q@.d <= self@.d * other@.d && iabs(q@.n) <= iabs(self@.n)
                * other@.d + iabs(other@.n) * self@.d,
            self@.n == 0 && self@.d == 1 ==> r is Some,
    {
        proof {
            use_type_invariant(self);
            use_type_invariant(other);
            lemma_modest_products(self@, other@);
            if self@.n == 0 && self@.d == 1 {
                assert(self@.n * other@.d == 0) by (nonlinear_arith)
                    requires self@.n == 0;
                assert(other@.n * self@.d == other@.n) by (nonlinear_arith)
                    requires self@.d == 1;
                assert(self@.d * other@.d == other@.d) by (nonlinear_arith)
                    requires self@.d == 1;
            }
        }
        let n1 = match self.num.checked_mul(other.den) {
            Some(v) => v,
            None => { return None; },
        };
        let n2 = match other.num.checked_mul(self.den) {
            Some(v) => v,
            None => { return None; },
        };
        let n = match n1.checked_add(n2) {
            Some(v) => v,
            None => { return None; },
        };
        let d = match self.den.checked_mul(other.den) {
            Some(v) => v,
            None => { return None; },
        };
        proof {
            assert(d as int == self@.d * other@.d);
            assert(d > 0) by (nonlinear_arith)
                requires d as int == self@.d * other@.d, self@.d > 0, other@.d > 0;
            lemma_iabs_mul(self@.n, other@.d);
            lemma_iabs_mul(other@.n, self@.d);
        }
        Ratio::new(n, d)
    }

    /// Difference; reports `None` when an intermediate value leaves `i128`.
    pub fn sub(&self, other: &Ratio) -> (r: Option<Ratio>)
        ensures
            r matches Some(q) ==> rat_eq(q@, rat_sub(self@, other@)),
            rat_modest(self@) && rat_modest(other@) ==> r is Some,
            r matches Some(q) ==> q@.d <= self@.d * other@.d && iabs(q@.n) <= iabs(self@.n)
                * other@.d + iabs(other@.n) * self@.d,
    {
        let r = self.add(&other.neg());
        proof {
            assert((-other@.n) * self@.d == -(other@.n * self@.d)) by (nonlinear_arith);
            assert(rat_add(self@, rat_neg(other@)) == rat_sub(self@, other@));
        }
        r
    }

    /// Negation; always exact.
    pub fn neg(&self) -> (r: Ratio)
        ensures
            r@ == rat_neg(self@),
    {
        proof { use_type_invariant(self); }
        Ratio { num: -self.num, den: self.den }
    }

    /// Product; reports `None` when an intermediate value leaves `i128`.
    pub fn mul(&self, other: &Ratio) -> (r: Option<Ratio>)
        ensures
            r matches Some(q) ==> rat_eq(q@, rat_mul(self@, other@)),
            rat_modest(self@) && rat_modest(other@) ==> r is Some,
            r matches Some(q) ==> q@.d <= self@.d * other@.d && iabs(q@.n) <= iabs(self@.n)
                * iabs(other@.n),
    {
        proof {
            use_type_invariant(self);
            use_type_invariant(other);
            lemma_modest_products(self@, other@);
        }
        let n = match self.num.checked_mul(other.num) {
            Some(v) => v,
            None => { return None; },
        };
        let d = match self.den.checked_mul(other.den) {
            Some(v) => v,
            None => { return None; },
        };
        proof {
            assert(d > 0) by (nonlinear_arith)
                requires d as int == self@.d * other@.d, self@.d > 0, other@.d > 0;
            lemma_iabs_mul(self@.n, other@.n);
        }
        Ratio::new(n, d)
    }

    /// Quotient; reports `None` for a zero divisor or when an intermediate
    /// value leaves `i128`.
    pub fn div(&self, other: &Ratio) -> (r: Option<Ratio>)
        ensures
            r matches Some(q) ==> rat_eq(q@, rat_div(self@, other@)),
            rat_modest(self@) && rat_modest(other@) && other@.n != 0 ==> r is Some,
            other@.n == 0 ==> r is None,
            r matches Some(q) ==> q@.d <= self@.d * iabs(other@.n) && iabs(q@.n) <= iabs(
                self@.n,
            ) * other@.d,
            other@.n == 1 && other@.d == 1 ==> r is Some,
    {
        proof {
            use_type_invariant(self);
            use_type_invariant(other);
            lemma_modest_products(self@, other@);
            if other@.n == 1 && other@.d == 1 {
                assert(self@.n * other@.d == self@.n) by (nonlinear_arith)
                    requires other@.d == 1;
                assert(self@.d * other@.n == self@.d) by (nonlinear_arith)
                    requires other@.n == 1;
            }
        }
        if other.num == 0 {
            return None;
        }
        let n = match self.num.checked_mul(other.den) {
            Some(v) => v,
            None => { return None; },
        };
        let d = match self.den.checked_mul(other.num) {
            Some(v) => v,
            None => { return None; },
        };
        proof {
            assert(d != 0) by (nonlinear_arith)
                requires d as int == self@.d * other@.n, self@.d > 0, other@.n != 0;
            lemma_iabs_mul(self@.n, other@.d);
            lemma_iabs_mul(self@.d, other@.n);
        }
        let r = Ratio::new(n, d);
        proof {
            if r is Some {
                let q = r->Some_0;
                let mid = Rat { n: n as int, d: d as int };
                let dv = rat_div(self@, other@);
                if other@.n > 0 {
                    assert(dv == Rat { n: self@.n * other@.d, d: self@.d * other@.n });
                    assert((n as int) * (self@.d * other@.n) == (self@.n * other@.d) * (d as int))
                        by (nonlinear_arith)
                        requires
                            n as int == self@.n * other@.d,
                            d as int == self@.d * other@.n;
                } else {
                    assert(dv == Rat { n: self@.n * -other@.d, d: self@.d * -other@.n });
                    assert((n as int) * (self@.d * -other@.n) == (self@.n * -other@.d) * (d as int))
                        by (nonlinear_arith)
                        requires
                            n as int == self@.n * other@.d,
                            d as int == self@.d * other@.n;
                }
                assert(rat_eq(mid, dv));
                lemma_rat_eq_trans(q@, mid, dv);
            }
        }
        r
    }

    /// Exact order test; reports `None` when the cross products leave `i128`.
    pub fn le(&self, other: &Ratio) -> (r: Option<bool>)
        ensures
            r matches Some(b) ==> (b <==> rat_le(self@, other@)),
            rat_modest(self@) && rat_modest(other@) ==> r is Some,
    {
        proof {
            use_type_invariant(self);
            use_type_invariant(other);
            lemma_modest_products(self@, other@);
        }
        let x = match self.num.checked_mul(other.den) {
            Some(v) => v,
            None => { return None; },
        };
        let y = match other.num.checked_mul(self.den) {
            Some(v) => v,
            None => { return None; },
        };
        Some(x <= y)
    }

    /// Strict order test; reports `None` when the cross products leave `i128`.
    pub fn lt(&self, other: &Ratio) -> (r: Option<bool>)
        ensures
            r matches Some(b) ==> (b <==> rat_lt(self@, other@)),
            rat_modest(self@) && rat_modest(other@) ==> r is Some,
    {
        proof {
            use_type_invariant(self);
            use_type_invariant(other);
            lemma_modest_products(self@, other@);
        }
        let x = match self.num.checked_mul(other.den) {
            Some(v) => v,
            None => { return None; },
        };
        let y = match other.num.checked_mul(self.den) {
            Some(v) => v,
            None => { return None; },
        };
        Some(x < y)
    }

    /// Exact equality of denoted values; reports `None` when the cross
    /// products leave `i128`.
    pub fn same_value(&self, other: &Ratio) -> (r: Option<bool>)
        ensures
            r matches Some(b) ==> (b <==> rat_eq(self@, other@)),
            rat_modest(self@) && rat_modest(other@) ==> r is Some,
    {
        proof {
            use_type_invariant(self);
            use_type_invariant(other);
            lemma_modest_products(self@, other@);
        }
        let x = match self.num.checked_mul(other.den) {
            Some(v) => v,
            None => { return None; },
        };
        let y = match other.num.checked_mul(self.den) {
            Some(v) => v,
            None => { return None; },
        };
        Some(x == y)
    }
}

/// Magnitude of an `i128`, total even at `i128::MIN`.
fn abs_i128(x: i128) -> (r: u128)
    ensures
        r as int == if x >= 0 { x as int } else { -(x as int) },
{
    if x >= 0 {
        x as u128
    } else {
        ((-(x + 1)) as u128) + 1
    }
}

/// Greatest common divisor by Euclid's algorithm; only used to shrink a
/// fraction's components, so no contract beyond termination is needed.
fn gcd_u128(a: u128, b: u128) -> u128 {
    let mut x: u128 = a;
    let mut y: u128 = b;
    while y != 0
        decreases y,
    {
        let r: u128 = x % y;
        x = y;
        y = r;
    }
    x
}

} // verus!
