//! Laws of double precision: scaling by powers of two, order, and where arithmetic is exact.
use crate::double::{
    at_least, distance, half_even, law_nearest_errs_by_half_a_unit, lemma_at_least,
    lemma_double_of, lemma_exponent_of_integer, lemma_nearest_positive, lemma_power_order,
    lemma_powers, lemma_scaled, nearest, normal, product, quotient, rounded, scaled, shifted,
    LEAST, LIMIT,
};
use vstd::arithmetic::power2::{
    lemma_pow2_adds, lemma_pow2_pos, lemma_pow2_strictly_increases, lemma_pow2_unfold, pow2,
};
use vstd::prelude::*;

verus! {

proof fn lemma_scaled_offset(n: nat, d: nat, e: int, k: int)
    ensures
        scaled(n, d, e + k) == (scaled(n, d, e).0, scaled(n, d, e).1, scaled(n, d, e).2 + k),
    decreases distance(n, d),
{
    lemma_limits(d);
    if n == 0 || d == 0 {
    } else if n < d * LEAST {
        lemma_scaled_offset(2 * n, d, e - 1, k);
    } else if n >= d * LIMIT {
        lemma_scaled_offset(n, 2 * d, e + 1, k);
    }
}

proof fn lemma_limits(d: nat)
    ensures
        2 * (d * LEAST) == d * LIMIT,
        (2 * d) * LEAST == d * LIMIT,
        (2 * d) * LIMIT == 2 * (d * LIMIT),
{
    assert(2 * (d * LEAST) == d * LIMIT && (2 * d) * LEAST == d * LIMIT && (2 * d) * LIMIT == 2 * (d
        * LIMIT)) by (nonlinear_arith)
        requires
            LIMIT == 2 * LEAST,
    ;
}

proof fn lemma_scaled_both(n: nat, d: nat, e: int)
    requires
        n > 0,
        d > 0,
    ensures
        scaled(2 * n, 2 * d, e) == (2 * scaled(n, d, e).0, 2 * scaled(n, d, e).1, scaled(n, d, e).2),
    decreases distance(n, d),
{
    lemma_limits(d);
    if n < d * LEAST {
        lemma_scaled_both(2 * n, d, e - 1);
    } else if n >= d * LIMIT {
        lemma_scaled_both(n, 2 * d, e + 1);
    }
}

proof fn lemma_half_even_both(n: nat, d: nat)
    requires
        d > 0,
    ensures
        half_even(2 * n, 2 * d) == half_even(n, d),
{
    let q = n / d;
    let r = n % d;
    assert((2 * n) / (2 * d) == q && (2 * n) % (2 * d) == 2 * r) by {
        assert(n == q * d + r && r < d) by (nonlinear_arith)
            requires
                d > 0,
                q == n / d,
                r == n % d,
        ;
        assert(2 * n == q * (2 * d) + 2 * r) by (nonlinear_arith)
            requires
                n == q * d + r,
        ;
        vstd::arithmetic::div_mod::lemma_fundamental_div_mod_converse(
            (2 * n) as int,
            (2 * d) as int,
            q as int,
            (2 * r) as int,
        );
    }
}

/// Twice the numerator gives twice the double.
pub proof fn law_nearest_doubles(n: nat, d: nat)
    requires
        n > 0,
        d > 0,
    ensures
        nearest(2 * n, d) == shifted(nearest(n, d), 1),
{
    lemma_nearest_positive(n, d);
    lemma_limits(d);
    lemma_scaled(n, d, 0);
    let s = scaled(n, d, 0);
    if n < d * LEAST {
        lemma_scaled_offset(2 * n, d, -1, 1);
    } else {
        lemma_scaled_both(n, d, 1);
        lemma_scaled_offset(n, d, 0, 1);
        lemma_half_even_both(s.0, s.1);
    }
}

/// Twice the denominator gives half the double.
pub proof fn law_nearest_halves(n: nat, d: nat)
    requires
        n > 0,
        d > 0,
    ensures
        nearest(n, 2 * d) == shifted(nearest(n, d), -1),
{
    lemma_nearest_positive(n, d);
    lemma_nearest_positive(n, 2 * d);
    law_nearest_doubles(n, 2 * d);
    lemma_scaled(n, d, 0);
    let s = scaled(n, d, 0);
    lemma_scaled_both(n, d, 0);
    lemma_half_even_both(s.0, s.1);
    assert(nearest(2 * n, 2 * d) == nearest(n, d));
}

/// Powers of two pass through rounding.
pub proof fn law_nearest_scales(n: nat, d: nat, k: nat)
    requires
        n > 0,
        d > 0,
    ensures
        nearest(n * pow2(k), d) == shifted(nearest(n, d), k as int),
        nearest(n, d * pow2(k)) == shifted(nearest(n, d), -(k as int)),
    decreases k,
{
    lemma_powers();
    lemma_nearest_positive(n, d);
    if k == 0 {
        assert(n * 1 == n && d * 1 == d);
    } else {
        let j = (k - 1) as nat;
        law_nearest_scales(n, d, j);
        lemma_double_of(n, j);
        lemma_double_of(d, j);
        lemma_pow2_pos(j);
        let a = n * pow2(j);
        let b = d * pow2(j);
        assert(a > 0 && b > 0) by (nonlinear_arith)
            requires
                n > 0,
                d > 0,
                pow2(j) > 0,
                a == n * pow2(j),
                b == d * pow2(j),
        ;
        law_nearest_doubles(a, d);
        law_nearest_halves(n, b);
    }
}

/// An integer of at most 53 bits is a double: the nearest double is the integer itself, its
/// significand brought to 53 bits.
pub proof fn law_small_integers_are_exact(n: nat)
    requires
        0 < n < LIMIT,
    ensures
        ({
            let x = nearest(n, 1);
            &&& normal(x)
            &&& -52 <= x.1 <= 0
            &&& x.0 == n * pow2((-x.1) as nat)
        }),
{
    lemma_powers();
    lemma_scaled(n, 1, 0);
    let s = scaled(n, 1, 0);
    assert(s.0 / 1 == s.0 && s.0 % 1 == 0);
    lemma_exponent_of_integer(n, 53);
}

/// Dividing two integers of at most 53 bits rounds once: the quotient is the double nearest to
/// their ratio.
pub proof fn law_quotient_of_small_integers(a: nat, b: nat)
    requires
        0 < a < LIMIT,
        0 < b < LIMIT,
    ensures
        quotient(nearest(a, 1), nearest(b, 1)) == nearest(a, b),
{
    law_small_integers_are_exact(a);
    law_small_integers_are_exact(b);
    lemma_nearest_positive(a, b);
    let i = (-nearest(a, 1).1) as nat;
    let j = (-nearest(b, 1).1) as nat;
    law_nearest_scales(a, b, i);
    lemma_pow2_pos(i);
    assert(a * pow2(i) > 0) by (nonlinear_arith)
        requires
            a > 0,
            pow2(i) > 0,
    ;
    law_nearest_scales(a * pow2(i), b, j);
}

proof fn lemma_half_even_order(m: nat, n: nat, d: nat)
    requires
        d > 0,
        m <= n,
    ensures
        half_even(m, d) <= half_even(n, d),
{
    let q = m / d;
    let p = n / d;
    assert(q <= p) by (nonlinear_arith)
        requires
            d > 0,
            m <= n,
            q == m / d,
            p == n / d,
    ;
    if q == p {
        assert(m % d <= n % d) by (nonlinear_arith)
            requires
                d > 0,
                m <= n,
                m / d == n / d,
        ;
    }
}

/// Rounding keeps order: a greater fraction has no smaller double.
pub proof fn law_nearest_keeps_order(m: nat, n: nat, d: nat)
    requires
        0 < m <= n,
        d > 0,
    ensures
        at_least(nearest(n, d), nearest(m, d)),
{
    lemma_scaled(m, d, 0);
    lemma_scaled(n, d, 0);
    law_nearest_errs_by_half_a_unit(m, d);
    law_nearest_errs_by_half_a_unit(n, d);
    let s = scaled(m, d, 0);
    let t = scaled(n, d, 0);
    assert(s.2 <= t.2) by {
        if s.2 > t.2 {
            lemma_exponents_ordered(m, n, d);
        }
    }
    if s.2 == t.2 {
        if s.2 <= 0 {
            let p = pow2((-s.2) as nat);
            assert(m * p <= n * p) by (nonlinear_arith)
                requires
                    m <= n,
            ;
        }
        lemma_half_even_order(s.0, t.0, s.1);
    }
    lemma_at_least(nearest(n, d), nearest(m, d));
}

proof fn lemma_exponents_ordered(m: nat, n: nat, d: nat)
    requires
        0 < m <= n,
        d > 0,
    ensures
        scaled(m, d, 0).2 <= scaled(n, d, 0).2,
{
    lemma_powers();
    lemma_scaled(m, d, 0);
    lemma_scaled(n, d, 0);
    let s = scaled(m, d, 0);
    let t = scaled(n, d, 0);
    lemma_limits(d);
    if s.2 > t.2 {
        if s.2 <= 0 {
            // n * 2^-t >= 2 * m * 2^-s >= 2 * d * LEAST
            let i = (-s.2) as nat;
            let k = (s.2 - t.2) as nat;
            lemma_pow2_adds(i, k);
            lemma_power_order(1, k);
            let a = pow2(i);
            let b = pow2(k);
            assert(n * (a * b) >= 2 * (m * a)) by (nonlinear_arith)
                requires
                    0 < m <= n,
                    b >= 2,
                    a >= 0,
            ;
        } else if t.2 >= 0 {
            // n >= m >= d * 2^s * LEAST >= d * 2^t * LIMIT
            let i = t.2 as nat;
            let k = (s.2 - t.2) as nat;
            lemma_pow2_adds(i, k);
            lemma_power_order(1, k);
            let a = pow2(i);
            let b = pow2(k);
            assert(d * (a * b) * LEAST >= (d * a) * LIMIT) by (nonlinear_arith)
                requires
                    b >= 2,
                    a >= 0,
                    LIMIT == 2 * LEAST,
            ;
        } else {
            let i = s.2 as nat;
            let j = (-t.2) as nat;
            lemma_power_order(1, i);
            lemma_power_order(1, j);
            let a = pow2(i);
            let b = pow2(j);
            assert(d * a * LEAST >= d * LIMIT) by (nonlinear_arith)
                requires
                    a >= 2,
                    LIMIT == 2 * LEAST,
            ;
            assert(n * b >= n) by (nonlinear_arith)
                requires
                    b >= 2,
            ;
        }
    }
}

/// Order is kept by shifting both sides.
proof fn lemma_shift_keeps_order(x: (nat, int), y: (nat, int), k: int)
    requires
        normal(x),
        normal(y),
        at_least(y, x),
    ensures
        normal(shifted(x, k)),
        normal(shifted(y, k)),
        at_least(shifted(y, k), shifted(x, k)),
{
    lemma_at_least(y, x);
    lemma_at_least(shifted(y, k), shifted(x, k));
}

/// For ordered `x` and `y` and a factor or divisor, rounding keeps the order: the common part of
/// division and multiplication.
proof fn lemma_scaled_order(x: (nat, int), y: (nat, int), f: nat, d: nat)
    requires
        normal(x),
        normal(y),
        at_least(y, x),
        f > 0,
        d > 0,
    ensures
        normal(shifted(nearest(x.0 * f, d), x.1)),
        normal(shifted(nearest(y.0 * f, d), y.1)),
        at_least(shifted(nearest(y.0 * f, d), y.1), shifted(nearest(x.0 * f, d), x.1)),
{
    lemma_powers();
    lemma_at_least(y, x);
    let a = x.0 * f;
    let b = y.0 * f;
    assert(x.0 > 0 ==> a > 0) by (nonlinear_arith)
        requires
            f > 0,
            a == x.0 * f,
    ;
    assert(y.0 > 0 ==> b > 0) by (nonlinear_arith)
        requires
            f > 0,
            b == y.0 * f,
    ;
    assert(x.0 == 0 ==> a == 0);
    assert(y.0 == 0 ==> b == 0);
    if x.0 > 0 {
        law_nearest_errs_by_half_a_unit(a, d);
    }
    if y.0 > 0 {
        law_nearest_errs_by_half_a_unit(b, d);
    }
    let u = shifted(nearest(a, d), x.1);
    let v = shifted(nearest(b, d), y.1);
    lemma_at_least(v, u);
    if x.0 > 0 {
        let k = (y.1 - x.1) as nat;
        let c = b * pow2(k);
        lemma_pow2_pos(k);
        if k > 0 {
            lemma_power_order(1, k);
            assert(a <= c) by (nonlinear_arith)
                requires
                    a == x.0 * f,
                    b == y.0 * f,
                    c == b * pow2(k),
                    pow2(k) >= 2,
                    x.0 < LIMIT,
                    y.0 >= LEAST,
                    LIMIT == 2 * LEAST,
            ;
        } else {
            assert(a <= c) by (nonlinear_arith)
                requires
                    a == x.0 * f,
                    b == y.0 * f,
                    c == b * pow2(k),
                    pow2(k) == 1,
                    x.0 <= y.0,
            ;
        }
        law_nearest_scales(b, d, k);
        law_nearest_keeps_order(a, c, d);
        lemma_shift_keeps_order(nearest(a, d), nearest(c, d), x.1);
    }
}

/// A greater dividend has no smaller quotient.
pub proof fn law_quotient_keeps_order(x: (nat, int), y: (nat, int), z: (nat, int))
    requires
        normal(x),
        normal(y),
        normal(z),
        z.0 > 0,
        at_least(y, x),
    ensures
        normal(quotient(x, z)),
        normal(quotient(y, z)),
        at_least(quotient(y, z), quotient(x, z)),
{
    lemma_scaled_order(x, y, 1, z.0);
    assert(x.0 * 1 == x.0 && y.0 * 1 == y.0);
    lemma_shift_keeps_order(
        shifted(nearest(x.0, z.0), x.1),
        shifted(nearest(y.0, z.0), y.1),
        -z.1,
    );
}

/// A greater factor has no smaller product.
pub proof fn law_product_keeps_order(x: (nat, int), y: (nat, int), k: nat)
    requires
        normal(x),
        normal(y),
        at_least(y, x),
    ensures
        normal(product(x, k)),
        normal(product(y, k)),
        at_least(product(y, k), product(x, k)),
{
    if k > 0 {
        lemma_scaled_order(x, y, k, 1);
    } else {
        assert(x.0 * k == 0 && y.0 * k == 0) by (nonlinear_arith)
            requires
                k == 0,
        ;
    }
}

/// Rounding sees the number, not its form.
pub proof fn lemma_rounded_invariant(m: nat, e: int, k: nat)
    ensures
        rounded((m * pow2(k), e - k)) == rounded((m, e)),
    decreases k,
{
    lemma_powers();
    if k == 0 {
        assert(m * 1 == m);
    } else {
        lemma_double_of(m, (k - 1) as nat);
        lemma_rounded_invariant(2 * m, e - 1, (k - 1) as nat);
        // one step: (2m, e - 1) and (m, e)
        if e >= 1 {
            lemma_double_of(m, (e - 1) as nat);
        } else if e == 0 {
            assert((2 * (2 * m) + 2) / 4 == m) by (nonlinear_arith);
            assert(m * 1 == m);
        } else {
            let p = pow2((-e) as nat);
            lemma_pow2_unfold((-e + 1) as nat);
            lemma_pow2_pos((-e) as nat);
            assert((2 * (2 * m) + 2 * p) / (2 * (2 * p)) == (2 * m + p) / (2 * p)) by {
                let num = 2 * m + p;
                let den = 2 * p;
                assert(2 * (2 * m) + 2 * p == 2 * num);
                assert(2 * (2 * p) == 2 * den);
                vstd::arithmetic::div_mod::lemma_truncate_middle(num as int, 2, den as int);
                assert((2 * num) / (2 * den) == num / den) by (nonlinear_arith)
                    requires
                        den > 0,
                ;
            }
        }
    }
}

/// A greater number has no smaller rounding.
pub proof fn law_rounding_keeps_order(x: (nat, int), y: (nat, int))
    requires
        normal(x),
        normal(y),
        at_least(y, x),
    ensures
        rounded(x) <= rounded(y),
{
    lemma_powers();
    lemma_at_least(y, x);
    if x.0 == 0 {
        assert(rounded(x) == 0) by {
            assert(0nat * pow2(0) == 0);
        }
    } else {
        let k = (y.1 - x.1) as nat;
        let b = y.0 * pow2(k);
        lemma_rounded_invariant(y.0, y.1, k);
        lemma_pow2_pos(k);
        if k > 0 {
            lemma_power_order(1, k);
            assert(x.0 <= b) by (nonlinear_arith)
                requires
                    b == y.0 * pow2(k),
                    pow2(k) >= 2,
                    x.0 < LIMIT,
                    y.0 >= LEAST,
                    LIMIT == 2 * LEAST,
            ;
        } else {
            assert(y.0 * 1 == y.0);
        }
        if x.1 >= 0 {
            let p = pow2(x.1 as nat);
            assert(x.0 * p <= b * p) by (nonlinear_arith)
                requires
                    x.0 <= b,
            ;
        } else {
            let p = pow2((-x.1) as nat);
            lemma_pow2_pos((-x.1) as nat);
            assert((2 * x.0 + p) / (2 * p) <= (2 * b + p) / (2 * p)) by (nonlinear_arith)
                requires
                    x.0 <= b,
                    p > 0,
            ;
        }
    }
}

/// A number divided by itself is one.
pub proof fn law_quotient_of_equals(x: (nat, int))
    requires
        normal(x),
        x.0 > 0,
    ensures
        quotient(x, x) == (LEAST as nat, -52int),
{
    lemma_powers();
    let m = x.0;
    lemma_scaled(m, m, 0);
    let s = scaled(m, m, 0);
    assert(m < m * LEAST) by (nonlinear_arith)
        requires
            m > 0,
            LEAST > 1,
    ;
    let p = pow2((-s.2) as nat);
    assert(LEAST <= p < LIMIT) by (nonlinear_arith)
        requires
            m > 0,
            m * LEAST <= m * p < m * LIMIT,
    ;
    assert(pow2(52) == LEAST) by {
        vstd::arithmetic::power2::lemma2_to64_rest();
    }
    lemma_power_order(52, (-s.2) as nat);
    lemma_power_order((-s.2) as nat, 53);
    if -s.2 < 52 {
        lemma_power_order((-s.2 + 1) as nat, 52);
        lemma_pow2_strictly_increases((-s.2) as nat, 52);
    }
    assert(-s.2 == 52);
    assert(s.0 / m == LEAST && s.0 % m == 0) by (nonlinear_arith)
        requires
            m > 0,
            s.0 == m * LEAST,
    ;
}

/// Comparing a ratio of small integers with one or two is exact: rounding never carries it over
/// the threshold. Here `2^j` is the threshold.
pub proof fn law_threshold_is_exact(a: nat, b: nat, j: nat)
    requires
        0 < a < LIMIT,
        0 < b < LIMIT,
        j <= 1,
    ensures
        at_least(nearest(a, b), (LEAST as nat, j - 52)) <==> a >= b * pow2(j),
{
    lemma_powers();
    assert(pow2(52) == LEAST) by {
        vstd::arithmetic::power2::lemma2_to64_rest();
    }
    lemma_scaled(a, b, 0);
    law_nearest_errs_by_half_a_unit(a, b);
    lemma_at_least(nearest(a, b), (LEAST as nat, j - 52));
    let s = scaled(a, b, 0);
    assert(a < b * LIMIT) by (nonlinear_arith)
        requires
            a < LIMIT,
            b >= 1,
    ;
    let k = (-s.2) as nat;
    let p = pow2(k);
    let t = pow2(j);
    let c = pow2((53 - j) as nat);
    lemma_pow2_adds(j, (53 - j) as nat);
    assert(t * c == LIMIT);
    if a >= b * t {
        if k >= 53 - j {
            lemma_power_order((53 - j) as nat, k);
            assert(a * p >= b * LIMIT) by (nonlinear_arith)
                requires
                    a >= b * t,
                    p >= c,
                    t * c == LIMIT,
                    c >= 0,
            ;
        }
    } else {
        if k <= 52 - j {
            lemma_power_order(k, (52 - j) as nat);
            lemma_pow2_unfold((53 - j) as nat);
            let h = pow2((52 - j) as nat);
            assert(t * h == LEAST) by (nonlinear_arith)
                requires
                    t * c == LIMIT,
                    c == 2 * h,
                    LIMIT == 2 * LEAST,
            ;
            assert(a * p < b * LEAST) by (nonlinear_arith)
                requires
                    0 < a < b * t,
                    0 <= p <= h,
                    t * h == LEAST,
                    h > 0,
            ;
        }
        if k == 53 - j {
            let n = a * c;
            let q = n / b;
            let r = n % b;
            assert(n == q * b + r && r < b) by (nonlinear_arith)
                requires
                    b > 0,
                    q == n / b,
                    r == n % b,
            ;
            assert(n + c <= b * LIMIT) by (nonlinear_arith)
                requires
                    a + 1 <= b * t,
                    t * c == LIMIT,
                    n == a * c,
                    c >= 0,
            ;
            lemma_power_order(52, (53 - j) as nat);
            assert(2 * c >= LIMIT);
            if half_even(n, b) == LIMIT {
                assert(q >= LIMIT - 1);
                assert(q * b >= (LIMIT - 1) * b) by (nonlinear_arith)
                    requires
                        q >= LIMIT - 1,
                        b > 0,
                ;
                assert((LIMIT - 1) * b == b * LIMIT - b) by (nonlinear_arith);
                if q == LIMIT {
                    assert(q * b == b * LIMIT) by (nonlinear_arith)
                        requires
                            q == LIMIT,
                    ;
                }
                if q > LIMIT {
                    assert(q * b > b * LIMIT) by (nonlinear_arith)
                        requires
                            q > LIMIT,
                            b > 0,
                    ;
                }
                assert(false);
            }
        }
    }
}

/// The integer nearest to a fraction that is near an integer.
pub proof fn lemma_half_even_near(n: nat, d: nat, h: nat)
    requires
        d > 0,
        -d < 2 * (n - h * d) < d,
    ensures
        half_even(n, d) == h,
{
    if n >= h * d {
        vstd::arithmetic::div_mod::lemma_fundamental_div_mod_converse(
            n as int,
            d as int,
            h as int,
            n - h * d,
        );
    } else {
        assert((h - 1) * d == h * d - d) by (nonlinear_arith);
        assert(h >= 1) by (nonlinear_arith)
            requires
                n < h * d,
                n >= 0,
                d > 0,
        ;
        vstd::arithmetic::div_mod::lemma_fundamental_div_mod_converse(
            n as int,
            d as int,
            h - 1,
            n - (h - 1) * d,
        );
    }
}

} // verus!
