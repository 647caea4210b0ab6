//! Non-negative binary64 arithmetic, carried out on integers.
//!
//! Ratios, bar lengths and megabyte figures are computed in IEEE 754 double precision: every
//! operation rounds to 53 significant bits, to nearest, ties to even. This module performs those
//! operations on a significand and an exponent, so that what a report shows is a theorem about
//! integers. Values stay far from the limits of the format, where underflow and overflow begin.
use vstd::arithmetic::power2::{
    lemma_pow2_adds, lemma_pow2_pos, lemma_pow2_strictly_increases, lemma_pow2_unfold, pow2,
};
use vstd::prelude::*;

verus! {

/// 2^52, the least significand of a normalised double.
pub const LEAST: u64 = 0x10_0000_0000_0000;

/// 2^53, the first significand that needs a 54th bit.
pub const LIMIT: u64 = 0x20_0000_0000_0000;

/// The non-negative double `significand * 2^exponent`; zero is `0 * 2^0`.
#[derive(Clone, Copy, Debug, PartialEq, Eq, Structural)]
pub struct Double {
    pub significand: u64,
    pub exponent: i32,
}

impl View for Double {
    type V = (nat, int);

    open spec fn view(&self) -> (nat, int) {
        (self.significand as nat, self.exponent as int)
    }
}

/// Whether a significand and an exponent are in normal form: zero, or 53 significant bits.
pub open spec fn normal(x: (nat, int)) -> bool {
    if x.0 == 0 {
        x.1 == 0
    } else {
        LEAST <= x.0 < LIMIT
    }
}

/// Whether a double is in normal form and well inside the range of the format.
pub open spec fn moderate(x: (nat, int)) -> bool {
    normal(x) && -300 <= x.1 <= 300
}

/// The integer nearest to `n / d`; of two equally near, the even one.
pub open spec fn half_even(n: nat, d: nat) -> nat {
    let q = n / d;
    let r = n % d;
    if 2 * r < d || (2 * r == d && q % 2 == 0) {
        q
    } else {
        q + 1
    }
}

/// How far `n / d` is from having an integer part of exactly 53 bits.
pub open spec fn distance(n: nat, d: nat) -> nat {
    if n < d * LEAST {
        (d * LEAST - n) as nat
    } else if n >= d * LIMIT {
        (n - d * LIMIT + 1) as nat
    } else {
        0
    }
}

/// `n / d * 2^e` with the fraction scaled by powers of two until its integer part has 53 bits:
/// numerator, denominator and exponent.
pub open spec fn scaled(n: nat, d: nat, e: int) -> (nat, nat, int)
    decreases distance(n, d),
{
    if n == 0 || d == 0 {
        (n, d, e)
    } else if n < d * LEAST {
        scaled(2 * n, d, e - 1)
    } else if n >= d * LIMIT {
        scaled(n, 2 * d, e + 1)
    } else {
        (n, d, e)
    }
}

/// The double nearest to `n / d`, ties to even.
pub open spec fn nearest(n: nat, d: nat) -> (nat, int) {
    if n == 0 {
        (0, 0)
    } else {
        let s = scaled(n, d, 0);
        let m = half_even(s.0, s.1);
        if m == LIMIT {
            (LEAST as nat, s.2 + 1)
        } else {
            (m, s.2)
        }
    }
}

/// A double multiplied by a power of two.
pub open spec fn shifted(x: (nat, int), k: int) -> (nat, int) {
    if x.0 == 0 {
        (0, 0)
    } else {
        (x.0, x.1 + k)
    }
}

/// The double nearest to `x / y`.
pub open spec fn quotient(x: (nat, int), y: (nat, int)) -> (nat, int) {
    shifted(nearest(x.0, y.0), x.1 - y.1)
}

/// The double nearest to `x * k`.
pub open spec fn product(x: (nat, int), k: nat) -> (nat, int) {
    shifted(nearest(x.0 * k, 1), x.1)
}

/// Whether `x >= y` as numbers.
pub open spec fn at_least(x: (nat, int), y: (nat, int)) -> bool {
    if x.1 >= y.1 {
        x.0 * pow2((x.1 - y.1) as nat) >= y.0
    } else {
        x.0 >= y.0 * pow2((y.1 - x.1) as nat)
    }
}

/// The integer nearest to `x`; of two equally near, the larger one.
pub open spec fn rounded(x: (nat, int)) -> nat {
    if x.1 >= 0 {
        x.0 * pow2(x.1 as nat)
    } else {
        let p = pow2((-x.1) as nat);
        (2 * x.0 + p) / (2 * p)
    }
}

/// `x` in units of `1 / unit`, to the nearest unit, ties to even.
pub open spec fn in_units(x: (nat, int), unit: nat) -> nat {
    if x.1 >= 0 {
        x.0 * unit * pow2(x.1 as nat)
    } else {
        half_even(x.0 * unit, pow2((-x.1) as nat))
    }
}

/// One more power of two doubles.
pub proof fn lemma_double_of(s: nat, k: nat)
    ensures
        s * pow2((k + 1) as nat) == (2 * s) * pow2(k),
        s * pow2((k + 1) as nat) == 2 * (s * pow2(k)),
{
    lemma_pow2_unfold((k + 1) as nat);
    assert(s * (2 * pow2(k)) == (2 * s) * pow2(k)) by (nonlinear_arith);
    assert(s * (2 * pow2(k)) == 2 * (s * pow2(k))) by (nonlinear_arith);
}

/// The scaled fraction has an integer part of 53 bits, and equals the given one times the power
/// of two that the exponent takes out.
pub proof fn lemma_scaled(n: nat, d: nat, e: int)
    requires
        n > 0,
        d > 0,
    ensures
        ({
            let s = scaled(n, d, e);
            &&& s.1 > 0
            &&& s.1 * LEAST <= s.0 < s.1 * LIMIT
            &&& s.2 <= e ==> s.1 == d && s.0 == n * pow2((e - s.2) as nat)
            &&& s.2 >= e ==> s.0 == n && s.1 == d * pow2((s.2 - e) as nat)
            &&& n < d * LIMIT ==> s.2 <= e
            &&& n >= d * LEAST ==> s.2 >= e
        }),
    decreases distance(n, d),
{
    let s = scaled(n, d, e);
    assert(pow2(0) == 1) by {
        vstd::arithmetic::power2::lemma2_to64();
    }
    assert(n * pow2(0) == n && d * pow2(0) == d) by (nonlinear_arith)
        requires
            pow2(0) == 1,
    ;
    assert(2 * (d * LEAST) == d * LIMIT && (2 * d) * LEAST == d * LIMIT) by (nonlinear_arith)
        requires
            LEAST == 0x10_0000_0000_0000,
            LIMIT == 0x20_0000_0000_0000,
    ;
    if n < d * LEAST {
        lemma_scaled(2 * n, d, e - 1);
        lemma_double_of(n, (e - 1 - s.2) as nat);
    } else if n >= d * LIMIT {
        lemma_scaled(n, 2 * d, e + 1);
        lemma_double_of(d, (s.2 - e - 1) as nat);
    }
}

/// Powers of two are ordered as their exponents are.
pub proof fn lemma_power_order(j: nat, k: nat)
    ensures
        pow2(j) < pow2(k) ==> j < k,
        j <= k ==> pow2(j) <= pow2(k),
{
    if j < k {
        lemma_pow2_strictly_increases(j, k);
    } else if k < j {
        lemma_pow2_strictly_increases(k, j);
    }
}

/// The powers of two that bound the arithmetic below.
pub proof fn lemma_powers()
    ensures
        pow2(0) == 1,
        pow2(1) == 2,
        pow2(12) == 0x1000,
        pow2(54) == 2 * LIMIT,
        pow2(53) == LIMIT,
        pow2(60) == 0x1000_0000_0000_0000,
        pow2(62) == 0x4000_0000_0000_0000,
        pow2(64) == 0x1_0000_0000_0000_0000,
        pow2(67) == 0x8_0000_0000_0000_0000,
        pow2(68) == 0x10_0000_0000_0000_0000,
        pow2(124) == 0x1000_0000_0000_0000_0000_0000_0000_0000,
{
    vstd::arithmetic::power2::lemma2_to64();
    vstd::arithmetic::power2::lemma2_to64_rest();
    lemma_pow2_adds(62, 62);
    lemma_pow2_adds(62, 5);
    lemma_pow2_adds(62, 6);
}

fn power_of_two(k: u32) -> (p: u128)
    requires
        k < 124,
    ensures
        p == pow2(k as nat),
        p > 0,
{
    let mut p: u128 = 1;
    let mut i: u32 = 0;
    proof {
        lemma_powers();
    }
    while i < k
        invariant
            i <= k < 124,
            p == pow2(i as nat),
            p > 0,
            pow2(124) == 0x1000_0000_0000_0000_0000_0000_0000_0000,
        decreases k - i,
    {
        proof {
            lemma_pow2_unfold((i + 1) as nat);
            lemma_pow2_strictly_increases(i as nat, 124);
        }
        p = p * 2;
        i = i + 1;
    }
    p
}

/// The integer nearest to `n / d`, ties to even.
fn round_half_even(n: u128, d: u128) -> (q: u128)
    requires
        0 < d <= 0x1000_0000_0000_0000_0000_0000_0000_0000,
        n < 0x1000_0000_0000_0000_0000_0000_0000_0000,
    ensures
        q == half_even(n as nat, d as nat),
        q <= n / d + 1,
{
    let q = n / d;
    let r = n % d;
    assert(q <= n) by (nonlinear_arith)
        requires
            q == n / d,
            d > 0,
    ;
    if 2 * r < d || (2 * r == d && q % 2 == 0) {
        q
    } else {
        q + 1
    }
}

impl Double {
    /// Zero.
    pub fn zero() -> (r: Double)
        ensures
            r@ == (0nat, 0int),
            moderate(r@),
    {
        Double { significand: 0, exponent: 0 }
    }

    /// The double nearest to the fraction `n / d`.
    pub fn from_fraction(n: u128, d: u128) -> (r: Double)
        requires
            0 < d < 0x40_0000_0000_0000_0000,
            n < 0x80_0000_0000_0000_0000_0000_0000_0000,
        ensures
            r@ == nearest(n as nat, d as nat),
            normal(r@),
            -124 <= r.exponent <= 67,
            n < d * LIMIT ==> r.exponent <= 1,
    {
        if n == 0 {
            return Double::zero();
        }
        let ghost n0 = n as nat;
        let ghost d0 = d as nat;
        let mut n = n;
        let mut d = d;
        let mut e: i32 = 0;
        proof {
            lemma_powers();
        }
        while n < d * (LEAST as u128)
            invariant
                n > 0,
                d == d0,
                0 < d < 0x40_0000_0000_0000_0000,
                n < 0x80_0000_0000_0000_0000_0000_0000_0000 || n < d * LIMIT,
                -124 <= e <= 0,
                e < 0 ==> n < d * LIMIT,
                e == 0 ==> n == n0,
                n >= pow2((-e) as nat),
                pow2(124) == 0x1000_0000_0000_0000_0000_0000_0000_0000,
                scaled(n0, d0, 0) == scaled(n as nat, d as nat, e as int),
                LIMIT == 2 * LEAST,
                LEAST == 0x10_0000_0000_0000,
            decreases distance(n as nat, d as nat),
        {
            proof {
                lemma_pow2_unfold((-e + 1) as nat);
                assert(2 * (d * LEAST) == d * LIMIT) by (nonlinear_arith)
                    requires
                        LIMIT == 2 * LEAST,
                ;
                lemma_power_order((-e) as nat, 124);
            }
            n = n * 2;
            e = e - 1;
        }
        while n >= d * (LIMIT as u128)
            invariant
                n > 0,
                d > 0,
                d * LEAST <= n,
                n < 0x80_0000_0000_0000_0000_0000_0000_0000 || n < d * LIMIT,
                d < 0x40_0000_0000_0000_0000,
                -124 <= e <= 66,
                e < 0 ==> n < d * LIMIT,
                e >= 0 ==> d >= pow2(e as nat),
                e > 0 ==> n0 >= d0 * LIMIT,
                n0 < d0 * LIMIT ==> n < d * LIMIT,
                pow2(67) == 0x8_0000_0000_0000_0000,
                scaled(n0, d0, 0) == scaled(n as nat, d as nat, e as int),
                LIMIT == 2 * LEAST,
                LEAST == 0x10_0000_0000_0000,
            decreases distance(n as nat, d as nat),
        {
            proof {
                lemma_pow2_unfold((e + 1) as nat);
                assert((2 * d) * LEAST == d * LIMIT) by (nonlinear_arith)
                    requires
                        LIMIT == 2 * LEAST,
                ;
                assert((2 * d) * LIMIT == 2 * (d * LIMIT)) by (nonlinear_arith);
                lemma_power_order((e + 1) as nat, 67);
            }
            d = d * 2;
            e = e + 1;
        }
        proof {
            let q = n as int / d as int;
            assert(LEAST <= q < LIMIT) by (nonlinear_arith)
                requires
                    q == n as int / d as int,
                    d > 0,
                    d * LEAST <= n < d * LIMIT,
            ;
        }
        let m = round_half_even(n, d);
        if m == LIMIT as u128 {
            Double { significand: LEAST, exponent: e + 1 }
        } else {
            Double { significand: m as u64, exponent: e }
        }
    }

    /// The double nearest to an integer.
    pub fn from_integer(n: u64) -> (r: Double)
        ensures
            r@ == nearest(n as nat, 1),
            moderate(r@),
            -52 <= r.exponent <= 12,
            n != 0 ==> r.significand != 0,
    {
        proof {
            lemma_powers();
            if n > 0 {
                lemma_exponent_of_integer(n as nat, 64);
            }
        }
        Double::from_fraction(n as u128, 1)
    }

    /// The double nearest to `self / other`.
    pub fn over(self, other: Double) -> (r: Double)
        requires
            moderate(self@),
            moderate(other@),
            other.significand != 0,
        ensures
            r@ == quotient(self@, other@),
            normal(r@),
            self.exponent - other.exponent - 124 <= r.exponent || r.significand == 0,
            r.exponent <= self.exponent - other.exponent + 1 || r.significand == 0,
    {
        if self.significand == 0 {
            return Double::zero();
        }
        proof {
            assert(self.significand < other.significand * LIMIT) by (nonlinear_arith)
                requires
                    self.significand < LIMIT,
                    other.significand >= 1,
            ;
        }
        let r = Double::from_fraction(self.significand as u128, other.significand as u128);
        proof {
            lemma_nearest_positive(self.significand as nat, other.significand as nat);
        }
        Double { significand: r.significand, exponent: r.exponent + self.exponent - other.exponent }
    }

    /// The double nearest to `self * k`.
    pub fn times(self, k: u32) -> (r: Double)
        requires
            normal(self@),
            -1000 <= self.exponent <= 1000,
            k <= 100,
        ensures
            r@ == product(self@, k as nat),
            normal(r@),
            self.exponent - 52 <= r.exponent || r.significand == 0,
            r.exponent <= self.exponent + 8 || r.significand == 0,
    {
        if self.significand == 0 || k == 0 {
            assert(self.significand * k == 0) by (nonlinear_arith)
                requires
                    self.significand == 0 || k == 0,
            ;
            return Double::zero();
        }
        assert(0 < self.significand * k < 0x1000_0000_0000_0000) by (nonlinear_arith)
            requires
                0 < self.significand < LIMIT,
                0 < k <= 100,
        ;
        let r = Double::from_fraction(self.significand as u128 * k as u128, 1);
        proof {
            lemma_powers();
            lemma_exponent_of_integer((self.significand * k) as nat, 60);
        }
        Double { significand: r.significand, exponent: r.exponent + self.exponent }
    }

    /// Whether `self >= other`.
    pub fn reaches(self, other: Double) -> (r: bool)
        requires
            normal(self@),
            normal(other@),
        ensures
            r == at_least(self@, other@),
    {
        proof {
            lemma_at_least(self@, other@);
        }
        if other.significand == 0 {
            true
        } else if self.significand == 0 {
            false
        } else if self.exponent == other.exponent {
            self.significand >= other.significand
        } else {
            self.exponent > other.exponent
        }
    }

    /// The nearest integer, halves away from zero.
    pub fn round(self) -> (r: u128)
        requires
            normal(self@),
            self.exponent <= 70,
        ensures
            r == rounded(self@),
    {
        proof {
            lemma_powers();
        }
        if self.exponent >= 0 {
            let p = power_of_two(self.exponent as u32);
            proof {
                lemma_power_order(self.exponent as nat, 70);
                lemma_pow2_adds(68, 1);
                lemma_pow2_adds(69, 1);
                assert(self.significand * p < 0x1000_0000_0000_0000_0000_0000_0000_0000) by (nonlinear_arith)
                    requires
                        self.significand < LIMIT,
                        0 <= p <= 0x40_0000_0000_0000_0000,
                ;
            }
            self.significand as u128 * p
        } else if self.exponent < -54 {
            proof {
                let p = pow2((-self.exponent) as nat);
                lemma_power_order(54, (-self.exponent) as nat);
                assert((2 * (self.significand as nat) + p) / (2 * p) == 0) by (nonlinear_arith)
                    requires
                        2 * (self.significand as nat) < p,
                ;
            }
            0
        } else {
            let p = power_of_two((-self.exponent) as u32);
            proof {
                lemma_power_order((-self.exponent) as nat, 54);
            }
            (2 * (self.significand as u128) + p) / (2 * p)
        }
    }

    /// The nearest integer, halves away from zero, or `cap` where that is smaller.
    pub fn round_at_most(self, cap: u32) -> (r: u32)
        requires
            normal(self@),
        ensures
            r == (if rounded(self@) <= cap { rounded(self@) } else { cap as nat }),
    {
        if self.exponent > 70 {
            proof {
                let p = pow2(self.exponent as nat);
                lemma_powers();
                lemma_power_order(12, self.exponent as nat);
                assert(self.significand * p >= LEAST) by (nonlinear_arith)
                    requires
                        self.significand >= LEAST,
                        p >= 1,
                ;
            }
            return cap;
        }
        let n = self.round();
        if n <= cap as u128 {
            n as u32
        } else {
            cap
        }
    }

    /// `self` in units of `1 / unit`, to the nearest unit, ties to even.
    pub fn to_units(self, unit: u32) -> (r: u128)
        requires
            normal(self@),
            0 < unit <= 100,
            self.exponent <= 67,
        ensures
            r == in_units(self@, unit as nat),
    {
        proof {
            lemma_powers();
            assert(self.significand * unit < 0x1000_0000_0000_0000) by (nonlinear_arith)
                requires
                    self.significand < LIMIT,
                    unit <= 100,
            ;
        }
        let n = self.significand as u128 * unit as u128;
        if self.exponent >= 0 {
            let p = power_of_two(self.exponent as u32);
            proof {
                lemma_power_order(self.exponent as nat, 67);
                assert(n * p < 0x8000_0000_0000_0000_0000_0000_0000_0000) by (nonlinear_arith)
                    requires
                        n < 0x1000_0000_0000_0000,
                        0 <= p <= 0x8_0000_0000_0000_0000,
                ;
            }
            n * p
        } else if self.exponent < -62 {
            proof {
                let p = pow2((-self.exponent) as nat);
                lemma_power_order(62, (-self.exponent) as nat);
                assert(n as int / p as int == 0 && n as int % p as int == n) by (nonlinear_arith)
                    requires
                        2 * n < p,
                ;
            }
            0
        } else {
            let p = power_of_two((-self.exponent) as u32);
            proof {
                lemma_power_order((-self.exponent) as nat, 124);
            }
            round_half_even(n, p)
        }
    }
}

/// The double nearest to a positive fraction is positive.
pub proof fn lemma_nearest_positive(n: nat, d: nat)
    requires
        n > 0,
        d > 0,
    ensures
        nearest(n, d).0 > 0,
{
    lemma_scaled(n, d, 0);
    let s = scaled(n, d, 0);
    assert(s.0 / s.1 >= LEAST) by (nonlinear_arith)
        requires
            s.1 > 0,
            s.1 * LEAST <= s.0,
    ;
}

/// The nearest double to a fraction has 53 significant bits and errs by at most half a unit in
/// its last place.
pub proof fn law_nearest_errs_by_half_a_unit(n: nat, d: nat)
    requires
        n > 0,
        d > 0,
    ensures
        ({
            let x = nearest(n, d);
            &&& LEAST <= x.0 < LIMIT
            &&& x.1 <= 0 ==> {
                let m = n * pow2((-x.1) as nat);
                -d <= 2 * (m - x.0 * d) <= d
            }
            &&& x.1 > 0 ==> {
                let p = d * pow2(x.1 as nat);
                -p <= 2 * (n - x.0 * p) <= p
            }
        }),
{
    lemma_powers();
    lemma_scaled(n, d, 0);
    let s = scaled(n, d, 0);
    let q = s.0 / s.1;
    let r = s.0 % s.1;
    let m = half_even(s.0, s.1);
    assert(s.0 == q * s.1 + r && LEAST <= q < LIMIT && r < s.1) by (nonlinear_arith)
        requires
            s.1 > 0,
            s.1 * LEAST <= s.0 < s.1 * LIMIT,
            q == s.0 / s.1,
            r == s.0 % s.1,
    ;
    assert((q + 1) * s.1 == q * s.1 + s.1) by (nonlinear_arith);
    assert(-s.1 <= 2 * (s.0 - m * s.1) <= s.1);
    assert(n * pow2(0) == n && d * pow2(0) == d) by (nonlinear_arith)
        requires
            pow2(0) == 1,
    ;
    if m == LIMIT {
        assert(LIMIT * s.1 == 2 * (LEAST * s.1)) by (nonlinear_arith)
            requires
                LIMIT == 2 * LEAST,
        ;
        if s.2 < 0 {
            lemma_double_of(n, (-s.2 - 1) as nat);
        } else {
            lemma_double_of(d, s.2 as nat);
            assert(LEAST * (2 * s.1) == 2 * (LEAST * s.1)) by (nonlinear_arith);
        }
    }
}

/// The exponent of the double nearest to a positive integer below `2^bits`.
pub proof fn lemma_exponent_of_integer(n: nat, bits: nat)
    requires
        0 < n < pow2(bits),
        bits >= 53,
    ensures
        nearest(n, 1).0 > 0,
        -52 <= nearest(n, 1).1 <= bits - 52,
{
    lemma_powers();
    lemma_nearest_positive(n, 1);
    lemma_scaled(n, 1, 0);
    let s = scaled(n, 1, 0);
    if s.2 <= 0 {
        let p = pow2((-s.2) as nat);
        assert(p <= n * p) by (nonlinear_arith)
            requires
                n >= 1,
        ;
        lemma_power_order((-s.2) as nat, 53);
    } else {
        let p = pow2(s.2 as nat);
        assert(1 * p == p);
        lemma_pow2_adds(52, s.2 as nat);
        assert(pow2(52) == LEAST) by {
            vstd::arithmetic::power2::lemma2_to64_rest();
        }
        assert(p * LEAST == LEAST * p) by (nonlinear_arith);
        lemma_power_order((52 + s.2) as nat, bits);
    }
}

/// The nearest integer to a double with a small exponent is bounded.
pub proof fn lemma_rounded_bound(x: (nat, int), limit: nat)
    requires
        normal(x),
        x.1 <= limit <= 65,
    ensures
        rounded(x) < 0x80_0000_0000_0000_0000_0000_0000_0000,
{
    lemma_powers();
    if x.1 >= 0 {
        lemma_power_order(x.1 as nat, 67);
        let p = pow2(x.1 as nat);
        lemma_power_order(x.1 as nat, 65);
        lemma_pow2_adds(64, 1);
        assert(x.0 * p < 0x80_0000_0000_0000_0000_0000_0000_0000) by (nonlinear_arith)
            requires
                0 <= x.0 < LIMIT,
                0 <= p <= 0x2_0000_0000_0000_0000,
        ;
    } else {
        let p = pow2((-x.1) as nat);
        lemma_pow2_pos((-x.1) as nat);
        assert((2 * x.0 + p) / (2 * p) <= x.0 + 1) by (nonlinear_arith)
            requires
                p >= 1,
        ;
    }
}

/// Normal forms compare by exponent first, then by significand.
pub proof fn lemma_at_least(x: (nat, int), y: (nat, int))
    requires
        normal(x),
        normal(y),
    ensures
        at_least(x, y) == (y.0 == 0 || (x.0 != 0 && (x.1 > y.1 || (x.1 == y.1 && x.0 >= y.0)))),
{
    lemma_powers();
    if x.1 >= y.1 {
        let k = (x.1 - y.1) as nat;
        lemma_pow2_pos(k);
        if k > 0 {
            lemma_power_order(1, k);
        }
        let p = pow2(k);
        assert(x.0 > 0 && p >= 2 ==> x.0 * p >= 2 * x.0) by (nonlinear_arith);
        assert(x.0 * 1 == x.0);
        assert(x.0 == 0 ==> x.0 * p == 0) by (nonlinear_arith);
    } else {
        let k = (y.1 - x.1) as nat;
        lemma_power_order(1, k);
        let p = pow2(k);
        assert(y.0 > 0 && p >= 2 ==> y.0 * p >= 2 * y.0) by (nonlinear_arith);
        assert(y.0 == 0 ==> y.0 * p == 0) by (nonlinear_arith);
    }
}

} // verus!
