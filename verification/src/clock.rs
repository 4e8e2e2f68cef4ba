//! Beat-and-tick positions under a fixed resolution, the cursor that walks
//! them, and the clock that owns the cursor.

use vstd::prelude::*;
use vstd::arithmetic::div_mod::*;
use vstd::std_specs::convert::FromSpecImpl;
use vstd::std_specs::cmp::PartialOrdSpecImpl;
use vstd::std_specs::ops::{AddSpecImpl, DivSpecImpl, MulSpecImpl, SubSpecImpl};
use core::cmp::Ordering;
use vstd::arithmetic::mul::*;
use crate::ratio::Ratio;
use crate::settings;

verus! {

/// Ticks per beat.
pub type Resolution = u64;

/// A point in musical time: `beat` whole beats and `tick` ticks, counted in
/// units of `1 / resolution` of a beat.
#[derive(Clone, Copy, Debug, PartialEq, Eq, Structural)]
pub struct CursorPosition {
    pub beat: u64,
    pub tick: u64,
    pub resolution: Resolution,
}

pub type Duration = CursorPosition;

/// `ticks` split into whole beats and a rest below `resolution`.
pub open spec fn position_of_ticks(ticks: int, resolution: Resolution) -> CursorPosition {
    CursorPosition {
        beat: (ticks / resolution as int) as u64,
        tick: (ticks % resolution as int) as u64,
        resolution,
    }
}

/// `a - b`, or zero where that would be negative.
pub open spec fn saturating_diff(a: int, b: int) -> int {
    if a >= b {
        a - b
    } else {
        0
    }
}

impl CursorPosition {
    /// The position as a number of ticks since `(0, 0)`.
    pub open spec fn ticks(self) -> int {
        self.beat * self.resolution + self.tick
    }

    /// The ticks that `other` comes to when counted at this position's
    /// resolution.
    pub open spec fn ticks_of(self, other: CursorPosition) -> int {
        other.beat * self.resolution + other.tick
    }

    /// A position is normalised when its tick count stays below one beat.
    pub open spec fn is_normalized(self) -> bool {
        self.tick < self.resolution
    }

    /// Whether `self` comes strictly before `other`: by beat, then by tick.
    pub open spec fn precedes(self, other: CursorPosition) -> bool {
        self.beat < other.beat || (self.beat == other.beat && self.tick < other.tick)
    }

    /// Whether both positions name the same beat and tick.
    pub open spec fn same_instant(self, other: CursorPosition) -> bool {
        self.beat == other.beat && self.tick == other.tick
    }

    /// The position one tick later; a tick count that reaches the resolution
    /// starts the next beat.
    pub open spec fn successor(self) -> CursorPosition {
        if self.tick + 1 >= self.resolution {
            CursorPosition { beat: (self.beat + 1) as u64, tick: 0, resolution: self.resolution }
        } else {
            CursorPosition { beat: self.beat, tick: (self.tick + 1) as u64, resolution: self.resolution }
        }
    }

    /// The sum of two positions: their tick totals added and split again.
    pub open spec fn plus(self, other: CursorPosition) -> CursorPosition {
        position_of_ticks(self.ticks() + self.ticks_of(other), self.resolution)
    }

    /// The difference of two positions, or the zero position where `other`
    /// is the later one.
    pub open spec fn minus(self, other: CursorPosition) -> CursorPosition {
        position_of_ticks(saturating_diff(self.ticks(), self.ticks_of(other)), self.resolution)
    }

    /// The position `n` ticks later.
    pub open spec fn advanced(self, n: nat) -> CursorPosition
        decreases n,
    {
        if n == 0 {
            self
        } else {
            self.advanced((n - 1) as nat).successor()
        }
    }

    /// The position `self.ticks() * factor`, rounded to the nearest tick.
    pub open spec fn scaled(self, factor: Ratio) -> CursorPosition {
        position_of_ticks(factor.spec_scale_round(self.ticks() as nat) as int, self.resolution)
    }

    /// The start of time at the given resolution.
    pub fn new(resolution: Resolution) -> (r: Self)
        ensures
            r == (CursorPosition { beat: 0, tick: 0, resolution }),
    {
        Self { beat: 0, tick: 0, resolution }
    }

    /// Moves one tick forward.
    pub fn increment(&mut self)
        requires
            old(self).tick < u64::MAX,
            old(self).tick + 1 >= old(self).resolution ==> old(self).beat < u64::MAX,
        ensures
            *final(self) == old(self).successor(),
    {
        self.tick += 1;

        if self.tick >= self.resolution {
            self.beat += 1;
            self.tick = 0;
        }
    }

    /// Construct an instance from ticks with given resolution.
    pub fn from_ticks(ticks: u64, resolution: Resolution) -> (r: Self)
        requires
            resolution > 0,
        ensures
            r == position_of_ticks(ticks as int, resolution),
            r.is_normalized(),
            r.ticks() == ticks,
    {
        proof {
            lemma_fundamental_div_mod(ticks as int, resolution as int);
            lemma_mod_bound(ticks as int, resolution as int);
            lemma_div_pos_is_pos(ticks as int, resolution as int);
            lemma_div_is_ordered_by_denominator(ticks as int, 1, resolution as int);
            vstd::arithmetic::mul::lemma_mul_is_commutative(
                resolution as int,
                ticks as int / resolution as int,
            );
        }
        Self { beat: ticks / resolution, tick: ticks % resolution, resolution }
    }

    /// The position at `position` beats, to the nearest tick. A fraction that
    /// rounds up to a whole beat starts the next beat.
    pub fn from_real(position: &Ratio, resolution: Resolution) -> (r: Option<Self>)
        requires
            resolution > 0,
        ensures
            r == CursorPosition::spec_from_real(*position, resolution),
            r matches Some(p) ==> p.is_normalized(),
    {
        let beat = position.floor();
        let part = position.fract();
        proof {
            CursorPosition::lemma_round_fract(part, resolution);
        }
        match part.scale_round(resolution) {
            Some(tick) => {
                if tick >= resolution {
                    if beat == u64::MAX {
                        None
                    } else {
                        Some(Self { beat: beat + 1, tick: 0, resolution })
                    }
                } else {
                    Some(Self { beat, tick, resolution })
                }
            },
            None => None,
        }
    }

    /// What `from_real` computes: `(floor(x), round(fract(x) * R))`,
    /// re-normalised; `None` where the beat does not fit in 64 bits.
    pub open spec fn spec_from_real(position: Ratio, resolution: Resolution) -> Option<
        CursorPosition,
    > {
        let beat = position.spec_floor();
        let tick = position.spec_fract().spec_scale_round(resolution as nat);
        if tick >= resolution {
            if beat >= u64::MAX {
                None
            } else {
                Some(CursorPosition { beat: (beat + 1) as u64, tick: 0, resolution })
            }
        } else {
            Some(CursorPosition { beat: beat as u64, tick: tick as u64, resolution })
        }
    }

    /// A proper fraction of a beat rounds to at most one beat of ticks.
    pub proof fn lemma_round_fract(part: Ratio, resolution: Resolution)
        requires
            part.numer() < part.denom(),
        ensures
            part.spec_scale_round(resolution as nat) <= resolution,
    {
        let (n, d, r) = (part.numer() as int, part.denom() as int, resolution as int);
        assert(2 * n * r + d < (2 * d) * (r + 1)) by (nonlinear_arith)
            requires
                0 <= n < d,
                r >= 0,
        ;
        lemma_div_by_multiple_is_strongly_ordered(2 * n * r + d, (2 * d) * (r + 1), r + 1, 2 * d);
        lemma_div_by_multiple(r + 1, 2 * d);
        assert((2 * d) * (r + 1) == (r + 1) * (2 * d)) by (nonlinear_arith);
    }

    /// Interprets `self` as a number of beats since the zero position.
    /// `None` exactly when the tick total does not fit in 64 bits or the resolution is
    /// zero.
    pub fn as_real(&self) -> (r: Option<Ratio>)
        ensures
            r == (if self.ticks() <= u64::MAX {
                Ratio::make(self.ticks() as nat, self.resolution as nat)
            } else {
                None
            }),
            r matches Some(q) ==> q.value() == self.ticks() as real / self.resolution as real,
    {
        proof {
            Ratio::lemma_make(self.ticks() as nat, self.resolution as nat);
        }
        match self.checked_ticks() {
            Some(t) => Ratio::new(t, self.resolution),
            None => None,
        }
    }

    /// The tick total, or `None` exactly when it does not fit in 64 bits.
    pub fn checked_ticks(&self) -> (r: Option<u64>)
        ensures
            r == (if self.ticks() <= u64::MAX {
                Some(self.ticks() as u64)
            } else {
                None
            }),
    {
        assert(self.beat as u128 * self.resolution as u128 <= 0xffff_ffff_ffff_ffff
            * 0xffff_ffff_ffff_ffff) by (nonlinear_arith)
            requires
                self.beat <= 0xffff_ffff_ffff_ffff,
                self.resolution <= 0xffff_ffff_ffff_ffff,
        ;
        let t: u128 = self.beat as u128 * self.resolution as u128 + self.tick as u128;
        if t > u64::MAX as u128 {
            None
        } else {
            Some(t as u64)
        }
    }

    /// The position as a number of ticks since `(0, 0)`.
    pub fn as_ticks(&self) -> (r: u64)
        requires
            self.ticks() <= u64::MAX,
        ensures
            r == self.ticks(),
    {
        assert(self.beat * self.resolution <= self.ticks()) by (nonlinear_arith)
            requires
                self.ticks() == self.beat * self.resolution + self.tick,
        ;
        self.beat * self.resolution + self.tick
    }

    pub fn beat(&self) -> (r: u64)
        ensures
            r == self.beat,
    {
        self.beat
    }

    pub fn tick(&self) -> (r: u64)
        ensures
            r == self.tick,
    {
        self.tick
    }

    pub fn resolution(&self) -> (r: Resolution)
        ensures
            r == self.resolution,
    {
        self.resolution
    }

    /// Whether `self` comes strictly before `other`: by beat, then by tick.
    pub fn is_before(&self, other: &CursorPosition) -> (b: bool)
        ensures
            b == self.precedes(*other),
    {
        self.beat < other.beat || (self.beat == other.beat && self.tick < other.tick)
    }

    /// Whether both positions name the same beat and tick.
    pub fn is_at(&self, other: &CursorPosition) -> (b: bool)
        ensures
            b == self.same_instant(*other),
    {
        self.beat == other.beat && self.tick == other.tick
    }

    /// The ticks of `other`, counted at this position's resolution.
    fn ticks_at_own_resolution(&self, other: &CursorPosition) -> (r: u64)
        requires
            self.ticks_of(*other) <= u64::MAX,
        ensures
            r == self.ticks_of(*other),
    {
        assert(other.beat * self.resolution <= self.ticks_of(*other)) by (nonlinear_arith)
            requires
                self.ticks_of(*other) == other.beat * self.resolution + other.tick,
        ;
        other.beat * self.resolution + other.tick
    }
}

impl Default for CursorPosition {
    fn default() -> (r: Self)
        ensures
            r == (CursorPosition { beat: 0, tick: 0, resolution: 1920 }),
    {
        Self { beat: 0, tick: 0, resolution: settings::Clock::default().resolution }
    }
}

impl AddSpecImpl for CursorPosition {
    open spec fn obeys_add_spec() -> bool {
        true
    }

    open spec fn add_req(self, other: CursorPosition) -> bool {
        self.resolution > 0 && self.ticks() + self.ticks_of(other) <= u64::MAX
    }

    open spec fn add_spec(self, other: CursorPosition) -> CursorPosition {
        self.plus(other)
    }
}

impl core::ops::Add for CursorPosition {
    type Output = Self;

    fn add(self, other: Self) -> Self {
        let r_ticks = self.ticks_at_own_resolution(&other);
        CursorPosition::from_ticks(self.as_ticks() + r_ticks, self.resolution)
    }
}

impl SubSpecImpl for CursorPosition {
    open spec fn obeys_sub_spec() -> bool {
        true
    }

    open spec fn sub_req(self, other: CursorPosition) -> bool {
        self.resolution > 0 && self.ticks() <= u64::MAX && self.ticks_of(other) <= u64::MAX
    }

    open spec fn sub_spec(self, other: CursorPosition) -> CursorPosition {
        self.minus(other)
    }
}

impl core::ops::Sub for CursorPosition {
    type Output = Self;

    fn sub(self, other: Self) -> Self {
        let right_ticks = self.ticks_at_own_resolution(&other);
        CursorPosition::from_ticks(self.as_ticks().saturating_sub(right_ticks), self.resolution)
    }
}

impl AddSpecImpl<u64> for CursorPosition {
    open spec fn obeys_add_spec() -> bool {
        true
    }

    open spec fn add_req(self, other: u64) -> bool {
        self.resolution > 0 && self.ticks() + other <= u64::MAX
    }

    open spec fn add_spec(self, other: u64) -> CursorPosition {
        position_of_ticks(self.ticks() + other, self.resolution)
    }
}

impl core::ops::Add<u64> for CursorPosition {
    type Output = Self;

    fn add(self, other: u64) -> Self {
        CursorPosition::from_ticks(self.as_ticks() + other, self.resolution)
    }
}

impl SubSpecImpl<u64> for CursorPosition {
    open spec fn obeys_sub_spec() -> bool {
        true
    }

    open spec fn sub_req(self, other: u64) -> bool {
        self.resolution > 0 && self.ticks() <= u64::MAX
    }

    open spec fn sub_spec(self, other: u64) -> CursorPosition {
        position_of_ticks(saturating_diff(self.ticks(), other as int), self.resolution)
    }
}

impl core::ops::Sub<u64> for CursorPosition {
    type Output = Self;

    fn sub(self, other: u64) -> Self {
        CursorPosition::from_ticks(self.as_ticks().saturating_sub(other), self.resolution)
    }
}

impl FromSpecImpl<(u64, u64, Resolution)> for CursorPosition {
    open spec fn obeys_from_spec() -> bool {
        true
    }

    open spec fn from_spec(value: (u64, u64, Resolution)) -> CursorPosition {
        CursorPosition { beat: value.0, tick: value.1, resolution: value.2 }
    }
}

impl From<(u64, u64, Resolution)> for CursorPosition {
    fn from(value: (u64, u64, Resolution)) -> Self {
        CursorPosition { beat: value.0, tick: value.1, resolution: value.2 }
    }
}

impl core::ops::AddAssign for CursorPosition {
    fn add_assign(&mut self, other: Self)
        requires
            old(self).resolution > 0,
            old(self).ticks() + old(self).ticks_of(other) <= u64::MAX,
        ensures
            *final(self) == old(self).plus(other),
    {
        let r_ticks = self.ticks_at_own_resolution(&other);
        let position = Self::from_ticks(self.as_ticks() + r_ticks, self.resolution);
        self.beat = position.beat;
        self.tick = position.tick;
    }
}

impl core::ops::SubAssign for CursorPosition {
    fn sub_assign(&mut self, other: Self)
        requires
            old(self).resolution > 0,
            old(self).ticks() <= u64::MAX,
            old(self).ticks_of(other) <= u64::MAX,
        ensures
            *final(self) == old(self).minus(other),
    {
        let right_ticks = self.ticks_at_own_resolution(&other);
        let position = Self::from_ticks(
            self.as_ticks().saturating_sub(right_ticks),
            self.resolution,
        );
        self.beat = position.beat;
        self.tick = position.tick;
    }
}

impl core::ops::AddAssign<u64> for CursorPosition {
    fn add_assign(&mut self, other: u64)
        requires
            old(self).resolution > 0,
            old(self).ticks() + other <= u64::MAX,
        ensures
            *final(self) == position_of_ticks(old(self).ticks() + other, old(self).resolution),
    {
        let position = Self::from_ticks(self.as_ticks() + other, self.resolution);
        self.beat = position.beat;
        self.tick = position.tick;
    }
}

impl core::ops::SubAssign<u64> for CursorPosition {
    fn sub_assign(&mut self, other: u64)
        requires
            old(self).resolution > 0,
            old(self).ticks() <= u64::MAX,
        ensures
            *final(self) == position_of_ticks(
                saturating_diff(old(self).ticks(), other as int),
                old(self).resolution,
            ),
    {
        let position = Self::from_ticks(self.as_ticks().saturating_sub(other), self.resolution);
        self.beat = position.beat;
        self.tick = position.tick;
    }
}

impl MulSpecImpl<Ratio> for CursorPosition {
    open spec fn obeys_mul_spec() -> bool {
        true
    }

    open spec fn mul_req(self, other: Ratio) -> bool {
        &&& self.resolution > 0
        &&& self.ticks() <= u64::MAX
        &&& other.spec_scale_round(self.ticks() as nat) <= u64::MAX
    }

    open spec fn mul_spec(self, other: Ratio) -> CursorPosition {
        self.scaled(other)
    }
}

impl core::ops::Mul<Ratio> for CursorPosition {
    type Output = Self;

    fn mul(self, other: Ratio) -> Self {
        match other.scale_round(self.as_ticks()) {
            Some(t) => CursorPosition::from_ticks(t, self.resolution),
            None => self,
        }
    }
}

impl DivSpecImpl<Ratio> for CursorPosition {
    open spec fn obeys_div_spec() -> bool {
        true
    }

    open spec fn div_req(self, rhs: Ratio) -> bool {
        &&& self.resolution > 0
        &&& self.ticks() <= u64::MAX
        &&& rhs.numer() > 0
        &&& rhs.spec_recip().spec_scale_round(self.ticks() as nat) <= u64::MAX
    }

    open spec fn div_spec(self, rhs: Ratio) -> CursorPosition {
        self.scaled(rhs.spec_recip())
    }
}

impl core::ops::Div<Ratio> for CursorPosition {
    type Output = Self;

    fn div(self, rhs: Ratio) -> Self {
        match rhs.recip() {
            Some(factor) => match factor.scale_round(self.as_ticks()) {
                Some(t) => CursorPosition::from_ticks(t, self.resolution),
                None => self,
            },
            None => self,
        }
    }
}

impl core::ops::MulAssign<Ratio> for CursorPosition {
    fn mul_assign(&mut self, other: Ratio)
        requires
            old(self).resolution > 0,
            old(self).ticks() <= u64::MAX,
            other.spec_scale_round(old(self).ticks() as nat) <= u64::MAX,
        ensures
            *final(self) == old(self).scaled(other),
    {
        let position = *self * other;
        self.beat = position.beat;
        self.tick = position.tick;
    }
}

impl core::ops::DivAssign<Ratio> for CursorPosition {
    fn div_assign(&mut self, other: Ratio)
        requires
            old(self).resolution > 0,
            old(self).ticks() <= u64::MAX,
            other.numer() > 0,
            other.spec_recip().spec_scale_round(old(self).ticks() as nat) <= u64::MAX,
        ensures
            *final(self) == old(self).scaled(other.spec_recip()),
    {
        let position = *self / other;
        self.beat = position.beat;
        self.tick = position.tick;
    }
}

impl PartialOrdSpecImpl for CursorPosition {
    open spec fn obeys_partial_cmp_spec() -> bool {
        true
    }

    open spec fn partial_cmp_spec(&self, other: &CursorPosition) -> Option<Ordering> {
        if self.precedes(*other) {
            Some(Ordering::Less)
        } else if other.precedes(*self) {
            Some(Ordering::Greater)
        } else {
            Some(Ordering::Equal)
        }
    }
}

impl PartialOrd for CursorPosition {
    fn partial_cmp(&self, other: &Self) -> (r: Option<Ordering>) {
        if self.is_before(other) {
            Some(Ordering::Less)
        } else if other.is_before(self) {
            Some(Ordering::Greater)
        } else {
            Some(Ordering::Equal)
        }
    }
}

/// Reading a position as a number of beats and placing that number again
/// gives the position back, for every normalised position whose tick total
/// fits in 64 bits.
pub proof fn lemma_real_round_trip(p: CursorPosition)
    requires
        p.resolution > 0,
        p.is_normalized(),
        p.ticks() <= u64::MAX,
    ensures
        Ratio::make(p.ticks() as nat, p.resolution as nat) matches Some(x)
            && CursorPosition::spec_from_real(x, p.resolution) == Some(p),
{
    let n = p.ticks() as nat;
    let d = p.resolution as nat;
    let g = crate::ratio::gcd(n, d);
    crate::ratio::lemma_gcd_divides(n, d);
    crate::ratio::lemma_reduced_value(n, d);
    Ratio::lemma_make(n, d);
    lemma_div_is_ordered_by_denominator(n as int, 1, g as int);
    lemma_div_is_ordered_by_denominator(d as int, 1, g as int);
    let x = Ratio::make(n, d).unwrap();
    let n1 = (n / g) as int;
    let d1 = (d / g) as int;
    lemma_fundamental_div_mod(n as int, g as int);
    lemma_fundamental_div_mod(d as int, g as int);
    assert(n == g * n1);
    assert(d == g * d1);
    // beat and tick are the quotient and rest of the tick total
    lemma_fundamental_div_mod_converse(n as int, d as int, p.beat as int, p.tick as int);
    // the reduced terms have the same quotient, and their rest is the tick count over g
    lemma_div_multiples_vanish_quotient(g as int, n1, d1);
    lemma_truncate_middle(n1, g as int, d1);
    assert(n1 / d1 == p.beat);
    assert(g * (n1 % d1) == p.tick);
    let m = n1 % d1;
    lemma_mod_bound(n1, d1);
    Ratio::lemma_of(m as nat, d1 as nat);
    let part = x.spec_fract();
    assert(part.numer() == m && part.denom() == d1);
    // round(m / d1 * d) == g * m, exactly
    assert(2 * m * d + d1 == (2 * d1) * (g * m) + d1) by (nonlinear_arith)
        requires
            d == g * d1,
    ;
    lemma_fundamental_div_mod_converse(2 * m * d + d1, 2 * d1, g * m, d1);
}

/// Adding positions of one resolution is associative: only the tick totals
/// count, however each operand splits them into beats and ticks.
pub proof fn lemma_add_associative(a: CursorPosition, b: CursorPosition, c: CursorPosition)
    requires
        a.resolution > 0,
        a.resolution == b.resolution,
        b.resolution == c.resolution,
        a.ticks() + b.ticks() + c.ticks() <= u64::MAX,
    ensures
        a.plus(b).plus(c) == a.plus(b.plus(c)),
        a.plus(b).plus(c) == position_of_ticks(
            a.ticks() + b.ticks() + c.ticks(),
            a.resolution,
        ),
{
    lemma_position_of_ticks(a.ticks() + b.ticks(), a.resolution);
    lemma_position_of_ticks(b.ticks() + c.ticks(), a.resolution);
    assert(a.ticks() >= 0 && b.ticks() >= 0 && c.ticks() >= 0) by (nonlinear_arith)
        requires
            a.ticks() == a.beat * a.resolution + a.tick,
            b.ticks() == b.beat * b.resolution + b.tick,
            c.ticks() == c.beat * c.resolution + c.tick,
    ;
}

/// Splitting a tick total that fits in 64 bits loses nothing.
pub proof fn lemma_position_of_ticks(ticks: int, resolution: Resolution)
    requires
        resolution > 0,
        0 <= ticks <= u64::MAX,
    ensures
        position_of_ticks(ticks, resolution).ticks() == ticks,
        position_of_ticks(ticks, resolution).is_normalized(),
        position_of_ticks(ticks, resolution).resolution == resolution,
{
    lemma_fundamental_div_mod(ticks, resolution as int);
    lemma_mod_bound(ticks, resolution as int);
    lemma_div_pos_is_pos(ticks, resolution as int);
    lemma_div_is_ordered_by_denominator(ticks, 1, resolution as int);
    lemma_mul_is_commutative(resolution as int, ticks / resolution as int);
}

/// Subtraction never goes below the zero position: taking away at least as
/// many ticks as there are leaves `(0, 0)`.
pub proof fn lemma_sub_saturates(a: CursorPosition, b: CursorPosition)
    requires
        a.resolution > 0,
        a.ticks() <= a.ticks_of(b),
    ensures
        a.minus(b) == (CursorPosition { beat: 0, tick: 0, resolution: a.resolution }),
{
    lemma_div_of0(a.resolution as int);
    lemma_small_mod(0, a.resolution as nat);
}

/// Where the right side is not the later one, the difference is exact: it
/// holds as many ticks as the left side has more, and is normalised.
pub proof fn lemma_sub_exact(a: CursorPosition, b: CursorPosition)
    requires
        a.resolution > 0,
        a.ticks_of(b) <= a.ticks() <= u64::MAX,
    ensures
        a.minus(b).ticks() == a.ticks() - a.ticks_of(b),
        a.minus(b).is_normalized(),
        a.minus(b).resolution == a.resolution,
{
    assert(a.ticks_of(b) >= 0) by (nonlinear_arith)
        requires
            a.ticks_of(b) == b.beat * a.resolution + b.tick,
    ;
    lemma_position_of_ticks(a.ticks() - a.ticks_of(b), a.resolution);
}

/// A cursor: a position that moves tick by tick.
#[derive(Clone, Copy, Debug, PartialEq, Structural)]
pub struct Cursor {
    pub position: CursorPosition,
    pub resolution: Resolution,
}

impl Cursor {
    /// A cursor at the start of time.
    pub fn new(resolution: Resolution) -> (r: Self)
        ensures
            r.position == (CursorPosition { beat: 0, tick: 0, resolution }),
            r.resolution == resolution,
    {
        Cursor { position: CursorPosition::new(resolution), resolution }
    }

    pub fn resolution(&self) -> (r: Resolution)
        ensures
            r == self.resolution,
    {
        self.resolution
    }

    /// Sets the `Cursor` position's beat and tick to `0`s.
    pub fn reset(&mut self)
        ensures
            final(self).position == (CursorPosition {
                beat: 0,
                tick: 0,
                resolution: old(self).position.resolution,
            }),
            final(self).resolution == old(self).resolution,
    {
        self.position.beat = 0;
        self.position.tick = 0;
    }

    /// Moves one tick forward and returns the new position; never `None`.
    pub fn next(&mut self) -> (r: Option<CursorPosition>)
        requires
            old(self).position.tick < u64::MAX,
            old(self).position.tick + 1 >= old(self).position.resolution ==> old(self).position.beat < u64::MAX,
        ensures
            final(self).position == old(self).position.successor(),
            final(self).resolution == old(self).resolution,
            r == Some(final(self).position),
    {
        self.position.increment();
        Some(self.position)
    }
}

impl Cursor {
    /// Moves `n + 1` ticks forward and returns the new position; never
    /// `None`.
    pub fn nth(&mut self, n: usize) -> (r: Option<CursorPosition>)
        requires
            old(self).position.tick == 0 || old(self).position.tick < old(self).position.resolution,
            old(self).position.beat + n + 1 <= u64::MAX,
        ensures
            final(self).position == old(self).position.advanced((n + 1) as nat),
            final(self).resolution == old(self).resolution,
            r == Some(final(self).position),
    {
        let mut i: usize = 0;
        while i < n
            invariant
                i <= n,
                self.resolution == old(self).resolution,
                self.position == old(self).position.advanced(i as nat),
                self.position.tick == 0 || self.position.tick < self.position.resolution,
                self.position.beat <= old(self).position.beat + i,
                old(self).position.beat + n + 1 <= u64::MAX,
            decreases n - i,
        {
            self.position.increment();
            i += 1;
        }
        self.next()
    }
}

impl Default for Cursor {
    fn default() -> (r: Cursor)
        ensures
            r.position == (CursorPosition { beat: 0, tick: 0, resolution: 1920 }),
            r.resolution == 1920,
    {
        Cursor {
            position: CursorPosition::default(),
            resolution: settings::Clock::default().resolution,
        }
    }
}

/// Beats per minute, kept between 27 and 200.
#[derive(Debug, Clone, Copy)]
pub struct Bpm(Ratio);

/// `x` limited to the range from 27 to 200.
pub open spec fn clamp_tempo(x: real) -> real {
    if x < 27 as real {
        27 as real
    } else if x > 200 as real {
        200 as real
    } else {
        x
    }
}

impl Bpm {
    /// The tempo in beats per minute.
    pub closed spec fn value(self) -> real {
        self.0.value()
    }

    /// Sets the tempo, limited to the range from 27 to 200.
    pub fn set(&mut self, value: Ratio)
        ensures
            final(self).value() == clamp_tempo(value.value()),
    {
        let low = Ratio::from_integer(27);
        let high = Ratio::from_integer(200);
        if value.is_less_than(&low) {
            self.0 = low;
        } else if high.is_less_than(&value) {
            self.0 = high;
        } else {
            self.0 = value;
        }
    }

    /// The tempo in beats per minute.
    pub fn get(&self) -> (r: Ratio)
        ensures
            r.value() == self.value(),
    {
        self.0
    }
}

impl Default for Bpm {
    fn default() -> (r: Self)
        ensures
            r.value() == 117 as real,
    {
        Bpm(Ratio::from_integer(117))
    }
}

/// The tempo clock: a tempo and the cursor that marks the current position.
#[derive(Debug, Clone, Copy)]
pub struct Clock {
    tempo: Bpm,
    cursor: Cursor,
}

impl Clock {
    pub closed spec fn spec_tempo(self) -> Bpm {
        self.tempo
    }

    pub closed spec fn spec_cursor(self) -> Cursor {
        self.cursor
    }

    pub fn new(tempo: Bpm, options: &settings::Clock) -> (r: Self)
        ensures
            r.spec_tempo() == tempo,
            r.spec_cursor().resolution == options.resolution,
            r.spec_cursor().position == (CursorPosition {
                beat: 0,
                tick: 0,
                resolution: options.resolution,
            }),
    {
        Clock { tempo, cursor: Cursor::new(options.resolution) }
    }

    pub fn set_tempo(&mut self, tempo: Bpm)
        ensures
            final(self).spec_tempo() == tempo,
            final(self).spec_cursor() == old(self).spec_cursor(),
    {
        self.tempo = tempo;
    }

    pub fn tempo(&self) -> (r: Bpm)
        ensures
            r == self.spec_tempo(),
    {
        self.tempo
    }

    pub fn cursor(&self) -> (r: &Cursor)
        ensures
            *r == self.spec_cursor(),
    {
        &self.cursor
    }
}

impl Default for Clock {
    fn default() -> (r: Self)
        ensures
            r.spec_tempo().value() == 117 as real,
            r.spec_cursor().resolution == 1920,
            r.spec_cursor().position == (CursorPosition { beat: 0, tick: 0, resolution: 1920 }),
    {
        Clock::new(Bpm::default(), &settings::Clock::default())
    }
}

} // verus!
