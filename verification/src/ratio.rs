//! Exact non-negative rational numbers.
//!
//! Durations and in-beat offsets are fractions of a beat. They are kept as
//! reduced fractions of two 64-bit terms, so that sums over a beat are exact.
//! Every operation that could leave the representable range is checked and
//! answers `None` instead of wrapping.

use vstd::prelude::*;
use vstd::arithmetic::div_mod::*;
use vstd::arithmetic::mul::*;

verus! {

/// Greatest common divisor by Euclid's algorithm; `gcd(a, 0) == a`.
pub open spec fn gcd(a: nat, b: nat) -> nat
    decreases b,
{
    if b == 0 {
        a
    } else {
        gcd(b, a % b)
    }
}

/// `gcd(a, b)` divides both arguments, and is positive unless both are zero.
pub proof fn lemma_gcd_divides(a: nat, b: nat)
    ensures
        a > 0 || b > 0 ==> gcd(a, b) > 0,
        gcd(a, b) > 0 ==> a % gcd(a, b) == 0 && b % gcd(a, b) == 0,
        gcd(a, b) <= a || a == 0,
        gcd(a, b) <= b || b == 0,
    decreases b,
{
    if b == 0 {
        if a > 0 {
            lemma_mod_self_0(a as int);
            lemma_small_mod(0, a);
        }
    } else {
        lemma_gcd_divides(b, a % b);
        let g = gcd(b, a % b);
        assert(g > 0);
        assert(b % g == 0);
        assert((a % b) % g == 0);
        lemma_fundamental_div_mod(a as int, b as int);
        // a == b * (a / b) + a % b, and g divides both summands
        lemma_fundamental_div_mod(b as int, g as int);
        lemma_fundamental_div_mod((a % b) as int, g as int);
        let qb = (b / g) as int;
        let qr = ((a % b) / g) as int;
        let k = (a / b) as int;
        assert(a == (g * qb) * k + g * qr);
        lemma_mul_is_associative(g as int, qb, k);
        lemma_mul_is_distributive_add(g as int, qb * k, qr);
        assert(a == g * (qb * k + qr));
        lemma_mod_multiples_basic(qb * k + qr, g as int);
        lemma_mul_is_commutative(g as int, qb * k + qr);
        if a > 0 {
            if g > a {
                lemma_small_mod(a, g);
            }
        }
    }
}

/// A fraction `num / den` of two 64-bit terms with a positive denominator.
#[derive(Clone, Copy, Debug, PartialEq, Eq)]
pub struct Ratio {
    num: u64,
    den: u64,
}

/// The fraction `n / d` in lowest terms, where both terms fit in 64 bits.
pub open spec fn reduced(n: nat, d: nat) -> Option<(nat, nat)> {
    let g = gcd(n, d);
    if d == 0 || n / g > u64::MAX || d / g > u64::MAX {
        None
    } else {
        Some((n / g, d / g))
    }
}

/// Dividing both terms by their gcd keeps the value of a fraction.
pub proof fn lemma_reduced_value(n: nat, d: nat)
    requires
        d > 0,
    ensures
        d / gcd(n, d) > 0,
        (n / gcd(n, d)) as real / (d / gcd(n, d)) as real == n as real / d as real,
{
    lemma_gcd_divides(n, d);
    let g = gcd(n, d);
    lemma_fundamental_div_mod(n as int, g as int);
    lemma_fundamental_div_mod(d as int, g as int);
    let qn = n / g;
    let qd = d / g;
    assert(n == g * qn);
    assert(d == g * qd);
    assert(qd > 0) by (nonlinear_arith)
        requires
            d == g * qd,
            d > 0,
            g > 0,
    ;
    assert(qn as real / qd as real == n as real / d as real) by (nonlinear_arith)
        requires
            n == g * qn,
            d == g * qd,
            qd > 0,
            g > 0,
    ;
}

impl Ratio {
    #[verifier::type_invariant]
    pub closed spec fn wf(self) -> bool {
        self.den > 0
    }

    /// The numerator.
    pub closed spec fn numer(self) -> nat {
        self.num as nat
    }

    /// The denominator.
    pub closed spec fn denom(self) -> nat {
        self.den as nat
    }

    /// The number this fraction stands for.
    pub open spec fn value(self) -> real {
        self.numer() as real / self.denom() as real
    }

    /// The fraction with the given terms, as a specification value.
    pub closed spec fn of(n: nat, d: nat) -> Ratio {
        Ratio { num: n as u64, den: d as u64 }
    }

    /// `n / d` in lowest terms, or `None` if a reduced term needs more than
    /// 64 bits or `d` is zero.
    pub open spec fn make(n: nat, d: nat) -> Option<Ratio> {
        match reduced(n, d) {
            Some((rn, rd)) => Some(Ratio::of(rn, rd)),
            None => None,
        }
    }

    /// The terms of `Ratio::of(n, d)` are `n` and `d` when they fit.
    pub broadcast proof fn lemma_of(n: nat, d: nat)
        requires
            n <= u64::MAX,
            0 < d <= u64::MAX,
        ensures
            (#[trigger] Ratio::of(n, d)).numer() == n,
            Ratio::of(n, d).denom() == d,
            Ratio::of(n, d).wf(),
    {
    }

    /// The denominator of a well-formed fraction is positive.
    pub proof fn lemma_positive_denominator(r: Ratio)
        requires
            r.wf(),
        ensures
            r.denom() > 0,
    {
    }

    /// A fraction is determined by its two terms.
    pub proof fn lemma_ext(a: Ratio, b: Ratio)
        requires
            a.numer() == b.numer(),
            a.denom() == b.denom(),
        ensures
            a == b,
    {
    }

    /// Whatever `make` yields is well formed and has the value `n / d`.
    pub proof fn lemma_make(n: nat, d: nat)
        ensures
            d == 0 ==> Ratio::make(n, d).is_none(),
            Ratio::make(n, d) matches Some(r) ==> r.wf() && r.value() == n as real / d as real
                && r.numer() == n / gcd(n, d) && r.denom() == d / gcd(n, d),
    {
        if d > 0 {
            lemma_reduced_value(n, d);
            if let Some((rn, rd)) = reduced(n, d) {
                Ratio::lemma_of(rn, rd);
            }
        }
    }

    /// Sum of two fractions; `None` where the cross-multiplied numerator needs
    /// more than 128 bits or a reduced term more than 64.
    pub open spec fn spec_checked_add(self, other: Ratio) -> Option<Ratio> {
        let n = self.numer() * other.denom() + other.numer() * self.denom();
        if n > u128::MAX {
            None
        } else {
            Ratio::make(n, self.denom() * other.denom())
        }
    }

    /// Product of two fractions; `None` where a reduced term needs more than
    /// 64 bits.
    pub open spec fn spec_checked_mul(self, other: Ratio) -> Option<Ratio> {
        Ratio::make(self.numer() * other.numer(), self.denom() * other.denom())
    }

    /// Quotient of two fractions; `None` where the divisor is zero or a
    /// reduced term needs more than 64 bits.
    pub open spec fn spec_checked_div(self, other: Ratio) -> Option<Ratio> {
        Ratio::make(self.numer() * other.denom(), self.denom() * other.numer())
    }

    /// `floor(value * scale + 1/2)`: the value in units of `1 / scale`,
    /// rounded to the nearest whole unit, halves upwards.
    pub open spec fn spec_scale_round(self, scale: nat) -> nat {
        (2 * self.numer() * scale + self.denom()) / (2 * self.denom())
    }

    /// The fraction turned upside down.
    pub open spec fn spec_recip(self) -> Ratio {
        Ratio::of(self.denom(), self.numer())
    }

    /// The integer part of the value.
    pub open spec fn spec_floor(self) -> nat {
        self.numer() / self.denom()
    }

    /// The value minus its integer part.
    pub open spec fn spec_fract(self) -> Ratio {
        Ratio::of(self.numer() % self.denom(), self.denom())
    }

    /// `num / den` in lowest terms. `None` exactly when `den` is zero.
    pub fn new(num: u64, den: u64) -> (r: Option<Ratio>)
        ensures
            r == Ratio::make(num as nat, den as nat),
            r.is_some() <==> den != 0,
            r matches Some(q) ==> q.value() == num as real / den as real,
    {
        proof {
            Ratio::lemma_make(num as nat, den as nat);
            lemma_gcd_divides(num as nat, den as nat);
            if den > 0 {
                let g = gcd(num as nat, den as nat);
                lemma_div_is_ordered_by_denominator(num as int, 1, g as int);
                lemma_div_is_ordered_by_denominator(den as int, 1, g as int);
            }
        }
        if den == 0 {
            None
        } else {
            build(num as u128, den as u128)
        }
    }

    /// The whole number `n`.
    pub fn from_integer(n: u64) -> (r: Ratio)
        ensures
            r == Ratio::of(n as nat, 1),
            r.numer() == n,
            r.denom() == 1,
            r.value() == n as real,
    {
        proof {
            Ratio::lemma_of(n as nat, 1);
            assert(n as real / 1 as real == n as real) by (nonlinear_arith);
        }
        Ratio { num: n, den: 1 }
    }

    /// Zero.
    pub fn zero() -> (r: Ratio)
        ensures
            r == Ratio::of(0, 1),
            r.value() == 0 as real,
    {
        Ratio::from_integer(0)
    }

    /// One.
    pub fn one() -> (r: Ratio)
        ensures
            r == Ratio::of(1, 1),
            r.value() == 1 as real,
    {
        Ratio::from_integer(1)
    }

    /// The numerator of the stored fraction.
    pub fn numerator(&self) -> (n: u64)
        ensures
            n == self.numer(),
    {
        self.num
    }

    /// The denominator of the stored fraction; never zero.
    pub fn denominator(&self) -> (d: u64)
        ensures
            d == self.denom(),
            d > 0,
    {
        proof {
            use_type_invariant(self);
        }
        self.den
    }

    /// Whether the value is zero.
    pub fn is_zero(&self) -> (b: bool)
        ensures
            b <==> self.numer() == 0,
    {
        self.num == 0
    }

    /// Whether both fractions stand for the same number.
    pub fn same_value(&self, other: &Ratio) -> (b: bool)
        ensures
            b <==> self.value() == other.value(),
    {
        proof {
            use_type_invariant(self);
            use_type_invariant(other);
            Ratio::lemma_cross(*self, *other);
        }
        assert(self.num as u128 * other.den as u128 <= 0xffff_ffff_ffff_ffff * 0xffff_ffff_ffff_ffff
            && other.num as u128 * self.den as u128 <= 0xffff_ffff_ffff_ffff
            * 0xffff_ffff_ffff_ffff) by (nonlinear_arith)
            requires
                self.num <= 0xffff_ffff_ffff_ffff,
                other.den <= 0xffff_ffff_ffff_ffff,
                other.num <= 0xffff_ffff_ffff_ffff,
                self.den <= 0xffff_ffff_ffff_ffff,
        ;
        let l: u128 = self.num as u128 * other.den as u128;
        let r: u128 = other.num as u128 * self.den as u128;
        l == r
    }

    /// Two well-formed fractions are equal in value exactly when their cross
    /// products agree.
    pub proof fn lemma_cross(a: Ratio, b: Ratio)
        requires
            a.wf(),
            b.wf(),
        ensures
            a.value() == b.value() <==> a.numer() * b.denom() == b.numer() * a.denom(),
    {
        let (an, ad, bn, bd) = (a.numer(), a.denom(), b.numer(), b.denom());
        assert((an as real / ad as real == bn as real / bd as real) <==> an * bd == bn * ad)
            by (nonlinear_arith)
            requires
                ad > 0,
                bd > 0,
        ;
    }

    /// `self + other`.
    pub fn checked_add(&self, other: &Ratio) -> (r: Option<Ratio>)
        ensures
            r == self.spec_checked_add(*other),
            r matches Some(q) ==> q.value() == self.value() + other.value(),
    {
        proof {
            use_type_invariant(self);
            use_type_invariant(other);
            Ratio::lemma_add_value(*self, *other);
        }
        assert(self.num as u128 * other.den as u128 <= 0xffff_ffff_ffff_ffff * 0xffff_ffff_ffff_ffff
            && other.num as u128 * self.den as u128 <= 0xffff_ffff_ffff_ffff
            * 0xffff_ffff_ffff_ffff && self.den as u128 * other.den as u128
            <= 0xffff_ffff_ffff_ffff * 0xffff_ffff_ffff_ffff && self.den as u128 * other.den as u128
            > 0) by (nonlinear_arith)
            requires
                self.num <= 0xffff_ffff_ffff_ffff,
                other.den <= 0xffff_ffff_ffff_ffff,
                other.num <= 0xffff_ffff_ffff_ffff,
                self.den <= 0xffff_ffff_ffff_ffff,
                self.den > 0,
                other.den > 0,
        ;
        let p: u128 = self.num as u128 * other.den as u128;
        let q: u128 = other.num as u128 * self.den as u128;
        let d: u128 = self.den as u128 * other.den as u128;
        if p > u128::MAX - q {
            None
        } else {
            build(p + q, d)
        }
    }

    /// `self * other`.
    pub fn checked_mul(&self, other: &Ratio) -> (r: Option<Ratio>)
        ensures
            r == self.spec_checked_mul(*other),
            r matches Some(q) ==> q.value() == self.value() * other.value(),
    {
        proof {
            use_type_invariant(self);
            use_type_invariant(other);
            Ratio::lemma_mul_value(*self, *other);
        }
        assert(self.num as u128 * other.num as u128 <= 0xffff_ffff_ffff_ffff * 0xffff_ffff_ffff_ffff
            && self.den as u128 * other.den as u128 <= 0xffff_ffff_ffff_ffff
            * 0xffff_ffff_ffff_ffff && self.den as u128 * other.den as u128 > 0)
            by (nonlinear_arith)
            requires
                self.num <= 0xffff_ffff_ffff_ffff,
                other.den <= 0xffff_ffff_ffff_ffff,
                other.num <= 0xffff_ffff_ffff_ffff,
                self.den <= 0xffff_ffff_ffff_ffff,
                self.den > 0,
                other.den > 0,
        ;
        let n: u128 = self.num as u128 * other.num as u128;
        let d: u128 = self.den as u128 * other.den as u128;
        build(n, d)
    }

    /// `self / other`; `None` if `other` is zero.
    pub fn checked_div(&self, other: &Ratio) -> (r: Option<Ratio>)
        ensures
            r == self.spec_checked_div(*other),
            other.numer() == 0 ==> r.is_none(),
            r matches Some(q) ==> other.value() != 0 as real && q.value() == self.value()
                / other.value(),
    {
        proof {
            use_type_invariant(self);
            use_type_invariant(other);
            Ratio::lemma_div_value(*self, *other);
        }
        assert(self.num as u128 * other.den as u128 <= 0xffff_ffff_ffff_ffff * 0xffff_ffff_ffff_ffff
            && self.den as u128 * other.num as u128 <= 0xffff_ffff_ffff_ffff
            * 0xffff_ffff_ffff_ffff && (other.num > 0 ==> self.den as u128 * other.num as u128 > 0)
            && (other.num == 0 ==> self.den as u128 * other.num as u128 == 0))
            by (nonlinear_arith)
            requires
                self.num <= 0xffff_ffff_ffff_ffff,
                other.den <= 0xffff_ffff_ffff_ffff,
                other.num <= 0xffff_ffff_ffff_ffff,
                self.den <= 0xffff_ffff_ffff_ffff,
                self.den > 0,
                other.den > 0,
        ;
        let n: u128 = self.num as u128 * other.den as u128;
        let d: u128 = self.den as u128 * other.num as u128;
        if d == 0 {
            None
        } else {
            build(n, d)
        }
    }

    /// `1 / self`. `None` exactly when the value is zero.
    pub fn recip(&self) -> (r: Option<Ratio>)
        ensures
            r == (if self.numer() > 0 {
                Some(self.spec_recip())
            } else {
                None
            }),
            r matches Some(q) ==> q.value() == 1 as real / self.value(),
    {
        proof {
            use_type_invariant(self);
        }
        if self.num == 0 {
            None
        } else {
            let r = Ratio { num: self.den, den: self.num };
            proof {
                Ratio::lemma_of(self.den as nat, self.num as nat);
                Ratio::lemma_ext(r, self.spec_recip());
                let (n, d) = (self.num as int, self.den as int);
                assert(d as real / n as real == 1 as real / (n as real / d as real))
                    by (nonlinear_arith)
                    requires
                        n > 0,
                        d > 0,
                ;
            }
            Some(r)
        }
    }

    /// Whether this value is strictly below the other.
    pub fn is_less_than(&self, other: &Ratio) -> (b: bool)
        ensures
            b <==> self.value() < other.value(),
    {
        proof {
            use_type_invariant(self);
            use_type_invariant(other);
            let (an, ad, bn, bd) = (self.numer(), self.denom(), other.numer(), other.denom());
            assert((an as real / ad as real) < (bn as real / bd as real) <==> an * bd < bn * ad)
                by (nonlinear_arith)
                requires
                    ad > 0,
                    bd > 0,
            ;
        }
        assert(self.num as u128 * other.den as u128 <= 0xffff_ffff_ffff_ffff * 0xffff_ffff_ffff_ffff
            && other.num as u128 * self.den as u128 <= 0xffff_ffff_ffff_ffff
            * 0xffff_ffff_ffff_ffff) by (nonlinear_arith)
            requires
                self.num <= 0xffff_ffff_ffff_ffff,
                other.den <= 0xffff_ffff_ffff_ffff,
                other.num <= 0xffff_ffff_ffff_ffff,
                self.den <= 0xffff_ffff_ffff_ffff,
        ;
        let l: u128 = self.num as u128 * other.den as u128;
        let r: u128 = other.num as u128 * self.den as u128;
        l < r
    }

    /// The integer part.
    pub fn floor(&self) -> (n: u64)
        ensures
            n == self.spec_floor(),
            n as real <= self.value(),
            self.value() < (n + 1) as real,
    {
        proof {
            use_type_invariant(self);
            let (a, b) = (self.num as int, self.den as int);
            assert(((a / b) as real) <= (a as real) / (b as real) && (a as real) / (b as real) < ((a
                / b + 1) as real)) by (nonlinear_arith)
                requires
                    b > 0,
                    a >= 0,
            ;
        }
        self.num / self.den
    }

    /// The part after the integer part: `self - floor(self)`.
    pub fn fract(&self) -> (r: Ratio)
        ensures
            r == self.spec_fract(),
            r.numer() == self.numer() % self.denom(),
            r.numer() < r.denom(),
            r.denom() == self.denom(),
            r.value() == self.value() - self.spec_floor() as real,
    {
        proof {
            use_type_invariant(self);
            let (a, b) = (self.num as int, self.den as int);
            lemma_fundamental_div_mod(a, b);
            lemma_mod_bound(a, b);
            Ratio::lemma_of((a % b) as nat, b as nat);
            assert(((a % b) as real) / (b as real) == (a as real) / (b as real) - ((a / b) as real))
                by (nonlinear_arith)
                requires
                    b > 0,
                    a == b * (a / b) + a % b,
            ;
        }
        Ratio { num: self.num % self.den, den: self.den }
    }

    /// The value times `scale`, rounded to the nearest integer with halves
    /// upwards. `None` exactly when that integer does not fit in 64 bits.
    pub fn scale_round(&self, scale: u64) -> (r: Option<u64>)
        ensures
            r == (if self.spec_scale_round(scale as nat) <= u64::MAX {
                Some(self.spec_scale_round(scale as nat) as u64)
            } else {
                None
            }),
    {
        proof {
            use_type_invariant(self);
        }
        assert(self.num as u128 * scale as u128 <= 0xffff_ffff_ffff_ffff * 0xffff_ffff_ffff_ffff)
            by (nonlinear_arith)
            requires
                self.num <= 0xffff_ffff_ffff_ffff,
                scale <= 0xffff_ffff_ffff_ffff,
        ;
        let p: u128 = self.num as u128 * scale as u128;
        let d: u128 = self.den as u128;
        let k: u128 = p / d;
        let rem: u128 = p % d;
        let up: u128 = if 2 * rem >= d {
            1
        } else {
            0
        };
        proof {
            let (pi, di, ki, ri) = (p as int, d as int, k as int, rem as int);
            lemma_fundamental_div_mod(pi, di);
            assert(2 * self.numer() * scale == 2 * pi) by (nonlinear_arith)
                requires
                    pi == self.numer() * scale,
            ;
            assert(2 * pi + di == (2 * di) * ki + (2 * ri + di)) by (nonlinear_arith)
                requires
                    pi == di * ki + ri,
            ;
            let upi = up as int;
            let r2 = 2 * ri + di - upi * (2 * di);
            assert(0 <= r2 < 2 * di);
            assert(2 * pi + di == (ki + upi) * (2 * di) + r2) by (nonlinear_arith)
                requires
                    2 * pi + di == (2 * di) * ki + (2 * ri + di),
                    r2 == 2 * ri + di - upi * (2 * di),
            ;
            lemma_fundamental_div_mod_converse(2 * pi + di, 2 * di, ki + upi, r2);
        }
        let q: u128 = k + up;
        if q > u64::MAX as u128 {
            None
        } else {
            Some(q as u64)
        }
    }

    /// The sum has the value of the two values added.
    pub proof fn lemma_add_value(a: Ratio, b: Ratio)
        requires
            a.wf(),
            b.wf(),
        ensures
            a.spec_checked_add(b) matches Some(r) ==> r.wf() && r.value() == a.value() + b.value(),
    {
        let (an, ad, bn, bd) = (a.numer(), a.denom(), b.numer(), b.denom());
        Ratio::lemma_make(an * bd + bn * ad, ad * bd);
        assert(ad * bd > 0 && (an * bd + bn * ad) as real / (ad * bd) as real == an as real
            / ad as real + bn as real / bd as real) by (nonlinear_arith)
            requires
                ad > 0,
                bd > 0,
        ;
    }

    /// The product has the value of the two values multiplied.
    pub proof fn lemma_mul_value(a: Ratio, b: Ratio)
        requires
            a.wf(),
            b.wf(),
        ensures
            a.spec_checked_mul(b) matches Some(r) ==> r.wf() && r.value() == a.value() * b.value(),
    {
        let (an, ad, bn, bd) = (a.numer(), a.denom(), b.numer(), b.denom());
        Ratio::lemma_make(an * bn, ad * bd);
        assert(ad * bd > 0 && (an * bn) as real / (ad * bd) as real == (an as real / ad as real) * (
        bn as real / bd as real)) by (nonlinear_arith)
            requires
                ad > 0,
                bd > 0,
        ;
    }

    /// The quotient exists only for a non-zero divisor and has the value of
    /// the two values divided.
    pub proof fn lemma_div_value(a: Ratio, b: Ratio)
        requires
            a.wf(),
            b.wf(),
        ensures
            b.numer() == 0 ==> a.spec_checked_div(b).is_none(),
            a.spec_checked_div(b) matches Some(r) ==> r.wf() && b.numer() > 0 && b.value()
                != 0 as real && r.value() == a.value() / b.value(),
    {
        let (an, ad, bn, bd) = (a.numer(), a.denom(), b.numer(), b.denom());
        Ratio::lemma_make(an * bd, ad * bn);
        if bn > 0 {
            assert(ad * bn > 0 && bn as real / bd as real != 0 as real && (an * bd) as real / (ad
                * bn) as real == (an as real / ad as real) / (bn as real / bd as real))
                by (nonlinear_arith)
                requires
                    ad > 0,
                    bd > 0,
                    bn > 0,
            ;
        } else {
            assert(ad * bn == 0) by (nonlinear_arith)
                requires
                    bn == 0,
            ;
        }
    }
}

/// Euclid's algorithm on 128-bit terms.
fn gcd_u128(a: u128, b: u128) -> (g: u128)
    ensures
        g == gcd(a as nat, b as nat),
{
    let mut x: u128 = a;
    let mut y: u128 = b;
    while y != 0
        invariant
            gcd(x as nat, y as nat) == gcd(a as nat, b as nat),
        decreases y,
    {
        let r: u128 = x % y;
        x = y;
        y = r;
    }
    x
}

/// Reduces `n / d` and stores it if the reduced terms fit.
fn build(n: u128, d: u128) -> (r: Option<Ratio>)
    requires
        d > 0,
    ensures
        r == Ratio::make(n as nat, d as nat),
{
    let g: u128 = gcd_u128(n, d);
    proof {
        lemma_gcd_divides(n as nat, d as nat);
        lemma_reduced_value(n as nat, d as nat);
    }
    let rn: u128 = n / g;
    let rd: u128 = d / g;
    if rn > u64::MAX as u128 || rd > u64::MAX as u128 {
        None
    } else {
        let r = Ratio { num: rn as u64, den: rd as u64 };
        proof {
            Ratio::lemma_of(rn as nat, rd as nat);
            Ratio::lemma_ext(r, Ratio::of(rn as nat, rd as nat));
        }
        Some(r)
    }
}

impl Default for Ratio {
    fn default() -> (r: Ratio)
        ensures
            r == Ratio::of(0, 1),
            r.value() == 0 as real,
    {
        Ratio::zero()
    }
}

} // verus!
