//! Bars scale in proportion: their lengths and colours are those of exact arithmetic.
use crate::chart::{bar_hue, bar_length};
use crate::double::{
    at_least, distance, half_even, law_nearest_errs_by_half_a_unit, lemma_exponent_of_integer,
    lemma_power_order, lemma_powers, lemma_scaled, nearest, product, quotient, rounded, scaled,
    LEAST, LIMIT,
};
use crate::paint::Hue;
use vstd::arithmetic::power2::{lemma_pow2_adds, lemma_pow2_pos, pow2};
use vstd::prelude::*;

verus! {

/// Whether `x` stands for `a / b` up to four units in its last place, and for no more than one.
pub open spec fn stands_for(x: (nat, int), a: nat, b: nat) -> bool {
    &&& LEAST <= x.0 < LIMIT
    &&& x.1 <= -52
    &&& -8 * b <= 2 * (a * pow2((-x.1) as nat) - x.0 * b) <= 8 * b
}

/// Whether `blocks` is a whole number nearest to the share `a / b` of `width` blocks.
pub open spec fn nearest_block(blocks: nat, a: nat, b: nat, width: nat) -> bool {
    -b <= 2 * (blocks * b - width * a) <= b
}

proof fn lemma_scaled_by(n: nat, d: nat, e: int, c: nat)
    requires
        n > 0,
        d > 0,
        c > 0,
    ensures
        scaled(c * n, c * d, e) == (c * scaled(n, d, e).0, c * scaled(n, d, e).1, scaled(n, d, e).2),
    decreases distance(n, d),
{
    assert(c * n > 0 && c * d > 0) by (nonlinear_arith)
        requires
            n > 0,
            d > 0,
            c > 0,
    ;
    assert((c * d) * LEAST == c * (d * LEAST) && (c * d) * LIMIT == c * (d * LIMIT))
        by (nonlinear_arith);
    assert(n < d * LEAST <==> c * n < c * (d * LEAST)) by (nonlinear_arith)
        requires
            c > 0,
    ;
    assert(n >= d * LIMIT <==> c * n >= c * (d * LIMIT)) by (nonlinear_arith)
        requires
            c > 0,
    ;
    assert(2 * (d * LEAST) == d * LIMIT && (2 * d) * LEAST == d * LIMIT && (2 * d) * LIMIT == 2 * (d
        * LIMIT)) by (nonlinear_arith)
        requires
            LIMIT == 2 * LEAST,
    ;
    assert(2 * (c * n) == c * (2 * n) && 2 * (c * d) == c * (2 * d)) by (nonlinear_arith);
    if n < d * LEAST {
        lemma_scaled_by(2 * n, d, e - 1, c);
    } else if n >= d * LIMIT {
        lemma_scaled_by(n, 2 * d, e + 1, c);
    }
}

/// A fraction that is not in lowest terms has the same double.
pub proof fn law_nearest_reduces(n: nat, d: nat, c: nat)
    requires
        n > 0,
        d > 0,
        c > 0,
    ensures
        nearest(c * n, c * d) == nearest(n, d),
{
    lemma_scaled_by(n, d, 0, c);
    lemma_scaled(n, d, 0);
    let s = scaled(n, d, 0);
    let q = s.0 / s.1;
    let r = s.0 % s.1;
    assert(c * n > 0) by (nonlinear_arith)
        requires
            n > 0,
            c > 0,
    ;
    assert(s.0 == q * s.1 + r && r < s.1) by (nonlinear_arith)
        requires
            s.1 > 0,
            q == s.0 / s.1,
            r == s.0 % s.1,
    ;
    assert(c * s.0 == q * (c * s.1) + c * r && c * r < c * s.1 && c * s.1 > 0) by (nonlinear_arith)
        requires
            s.0 == q * s.1 + r,
            r < s.1,
            c > 0,
    ;
    vstd::arithmetic::div_mod::lemma_fundamental_div_mod_converse(
        (c * s.0) as int,
        (c * s.1) as int,
        q as int,
        (c * r) as int,
    );
    assert((2 * (c * r) < c * s.1 <==> 2 * r < s.1) && (2 * (c * r) == c * s.1 <==> 2 * r == s.1))
        by (nonlinear_arith)
        requires
            c > 0,
    ;
    assert(half_even(c * s.0, c * s.1) == half_even(s.0, s.1));
}

/// The double nearest to a fraction of at most one stands for it.
pub proof fn lemma_nearest_stands(a: nat, b: nat)
    requires
        0 < a <= b,
    ensures
        stands_for(nearest(a, b), a, b),
{
    lemma_powers();
    vstd::arithmetic::power2::lemma2_to64_rest();
    law_nearest_errs_by_half_a_unit(a, b);
    let x = nearest(a, b);
    if x.1 > 0 {
        let p = b * pow2(x.1 as nat);
        lemma_pow2_pos(x.1 as nat);
        assert(p >= b) by (nonlinear_arith)
            requires
                p == b * pow2(x.1 as nat),
                pow2(x.1 as nat) > 0,
        ;
        assert(2 * (x.0 * p) >= 4 * p) by (nonlinear_arith)
            requires
                x.0 >= 2,
        ;
        assert(false);
    }
    let k = (-x.1) as nat;
    let w = pow2(k);
    assert(w >= LEAST) by (nonlinear_arith)
        requires
            0 < a <= b,
            -b <= 2 * (a * w - x.0 * b),
            x.0 >= LEAST,
            w >= 0,
    ;
    assert(pow2(52) == LEAST);
    if k < 52 {
        vstd::arithmetic::power2::lemma_pow2_strictly_increases(k, 52);
    }
}

/// A bar for a share is as long as the nearest whole number of blocks.
pub proof fn lemma_bar_is_nearest(x: (nat, int), a: nat, b: nat, width: nat)
    requires
        stands_for(x, a, b),
        0 < a <= b < 0x800_0000_0000,
        width <= 24,
    ensures
        nearest_block(bar_length(x, width), a, b, width),
{
    if width == 0 {
        assert(x.0 * width == 0) by (nonlinear_arith)
            requires
                width == 0,
        ;
        lemma_powers();
        assert(0nat * pow2(0) == 0);
        assert(0nat * b == 0 && 0nat * a == 0);
    } else {
        lemma_long_bar_is_nearest(x, a, b, width);
    }
}

proof fn lemma_long_bar_is_nearest(x: (nat, int), a: nat, b: nat, width: nat)
    requires
        stands_for(x, a, b),
        0 < a <= b < 0x800_0000_0000,
        1 <= width <= 24,
    ensures
        nearest_block(bar_length(x, width), a, b, width),
{
    lemma_powers();
    vstd::arithmetic::power2::lemma2_to64();
    vstd::arithmetic::power2::lemma2_to64_rest();
    let k = (-x.1) as nat;
    let kk = pow2(k);
    let n = x.0 * width;
    let y = nearest(n, 1);
    assert(LEAST <= n < pow2(58)) by (nonlinear_arith)
        requires
            n == x.0 * width,
            LEAST <= x.0 < LIMIT,
            1 <= width <= 24,
            LIMIT == 0x20_0000_0000_0000,
            pow2(58) == 0x400_0000_0000_0000,
    ;
    lemma_exponent_of_integer(n, 58);
    law_nearest_errs_by_half_a_unit(n, 1);
    lemma_scaled(n, 1, 0);
    let j = y.1 as nat;
    assert(y.1 >= 0);
    let jj = pow2(j);
    lemma_power_order(j, 6);
    assert(jj <= 64);
    assert(1 * jj == jj);
    assert(n * 1 == n && y.0 * 1 == y.0);
    assert(-jj <= 2 * (n - y.0 * jj) <= jj);
    let i = (k - j) as nat;
    let p = pow2(i);
    lemma_pow2_adds(i, j);
    lemma_pow2_pos(i);
    assert(p * jj == kk);
    assert(product(x, width) == (y.0, y.1 + x.1));
    let blocks = rounded(product(x, width));
    assert(blocks == (2 * y.0 + p) / (2 * p));
    assert(-p <= 2 * (y.0 - p * blocks) <= p) by (nonlinear_arith)
        requires
            p > 0,
            blocks == (2 * y.0 + p) / (2 * p),
    ;
    assert(-kk <= 2 * (y.0 * jj - kk * blocks) <= kk) by (nonlinear_arith)
        requires
            -p <= 2 * (y.0 - p * blocks) <= p,
            p * jj == kk,
            jj >= 0,
    ;
    assert(-(kk + jj) <= 2 * (n - kk * blocks) <= kk + jj);
    lemma_power_order(52, k);
    assert(kk >= LEAST);
    let far = width * a - blocks * b;
    assert(-(kk * b + jj * b + 8 * width * b) <= 2 * (far * kk) <= kk * b + jj * b + 8 * width * b)
        by {
        let u = n - kk * blocks;
        let v = a * kk - x.0 * b;
        assert(far * kk == width * v + u * b) by (nonlinear_arith)
            requires
                far == width * a - blocks * b,
                u == n - kk * blocks,
                v == a * kk - x.0 * b,
                n == x.0 * width,
        ;
        assert(-(kk * b + jj * b) <= 2 * (u * b) <= kk * b + jj * b) by (nonlinear_arith)
            requires
                -(kk + jj) <= 2 * u <= kk + jj,
                b >= 0,
        ;
        assert(-(8 * width * b) <= 2 * (width * v) <= 8 * width * b) by (nonlinear_arith)
            requires
                -8 * b <= 2 * v <= 8 * b,
                width >= 0,
        ;
    }
    assert(jj * b + 8 * width * b < kk) by (nonlinear_arith)
        requires
            jj <= 64,
            width <= 24,
            0 < b < 0x800_0000_0000,
            kk >= LEAST,
            LEAST == 0x10_0000_0000_0000,
    ;
    assert(-b <= 2 * far <= b) by (nonlinear_arith)
        requires
            -(kk * b + kk) < 2 * (far * kk) < kk * b + kk,
            kk > 0,
    ;
    if blocks > width {
        assert(blocks * b >= width * b + b) by (nonlinear_arith)
            requires
                blocks >= width + 1,
                b >= 0,
        ;
        assert(width * a <= width * b) by (nonlinear_arith)
            requires
                a <= b,
        ;
    }
}

/// Comparing doubles below one is comparing fractions.
proof fn lemma_cross(x: (nat, int), y: (nat, int))
    requires
        x.1 <= 0,
        y.1 <= 0,
    ensures
        at_least(x, y) <==> x.0 * pow2((-y.1) as nat) >= y.0 * pow2((-x.1) as nat),
{
    let i = (-x.1) as nat;
    let j = (-y.1) as nat;
    lemma_pow2_pos(i);
    lemma_pow2_pos(j);
    if x.1 >= y.1 {
        let k = (x.1 - y.1) as nat;
        lemma_pow2_adds(k, i);
        let p = pow2(k);
        let q = pow2(i);
        assert(x.0 * p >= y.0 <==> x.0 * (p * q) >= y.0 * q) by (nonlinear_arith)
            requires
                q > 0,
        ;
    } else {
        let k = (y.1 - x.1) as nat;
        lemma_pow2_adds(k, j);
        let p = pow2(k);
        let q = pow2(j);
        assert(x.0 >= y.0 * p <==> x.0 * q >= y.0 * (p * q)) by (nonlinear_arith)
            requires
                q > 0,
        ;
    }
}

/// A share compares with a threshold of so many hundredths as its fraction does.
proof fn lemma_threshold(x: (nat, int), a: nat, b: nat, t: nat)
    requires
        stands_for(x, a, b),
        0 < a <= b < 0x800_0000_0000,
        t == 66 || t == 33,
    ensures
        100 * a > t * b ==> at_least(x, nearest(t, 100)),
        100 * a < t * b ==> !at_least(x, nearest(t, 100)),
{
    lemma_powers();
    vstd::arithmetic::power2::lemma2_to64_rest();
    lemma_nearest_stands(t, 100);
    law_nearest_errs_by_half_a_unit(t, 100);
    let y = nearest(t, 100);
    lemma_cross(x, y);
    let k = pow2((-x.1) as nat);
    let l = pow2((-y.1) as nat);
    lemma_power_order(52, (-x.1) as nat);
    assert(k >= LEAST);
    assert(l > LEAST) by (nonlinear_arith)
        requires
            -100 <= 2 * (t * l - y.0 * 100),
            y.0 >= LEAST,
            t <= 66,
            LEAST == 0x10_0000_0000_0000,
    ;
    lemma_power_order(52, (-y.1) as nat);
    lemma_power_order(53, (-y.1) as nat);
    assert(pow2(52) == LEAST);
    assert(l >= LIMIT) by {
        if -y.1 < 53 {
            assert(-y.1 == 52);
        }
    }
    let m = x.0;
    let n = y.0;
    // 2 * m * b is 2 * a * k up to 8 * b, and 200 * n is 2 * t * l up to 100.
    let gap = 100 * a - t * b;
    let c = k * l;
    assert(512 * (b * l) <= c && 1024 * (b * k) <= c && c > 0) by (nonlinear_arith)
        requires
            c == k * l,
            512 * b <= k,
            1024 * b <= l,
            k > 0,
            l > 0,
    ;
    let e = 2 * (a * k - m * b);
    let f = 2 * (t * l - n * 100);
    assert(100 * (l * e) == 200 * (a * c) - 200 * (b * (m * l))) by (nonlinear_arith)
        requires
            e == 2 * (a * k - m * b),
            c == k * l,
    ;
    assert((b * k) * f == 2 * (t * b * c) - 200 * (b * (n * k))) by (nonlinear_arith)
        requires
            f == 2 * (t * l - n * 100),
            c == k * l,
    ;
    assert(gap * c == 100 * (a * c) - t * b * c) by (nonlinear_arith)
        requires
            gap == 100 * a - t * b,
    ;
    let d = m * l - n * k;
    assert(b * d == b * (m * l) - b * (n * k)) by (nonlinear_arith)
        requires
            d == m * l - n * k,
    ;
    assert(200 * (b * d) == 2 * (gap * c) - 100 * (l * e) + (b * k) * f);
    assert(-(8 * (b * l)) <= l * e <= 8 * (b * l)) by (nonlinear_arith)
        requires
            -8 * b <= e <= 8 * b,
            l > 0,
    ;
    assert(-(100 * (b * k)) <= (b * k) * f <= 100 * (b * k)) by (nonlinear_arith)
        requires
            -100 <= f <= 100,
            b > 0,
            k > 0,
    ;
    assert(gap > 0 ==> gap * c >= c) by (nonlinear_arith)
        requires
            c > 0,
    ;
    assert(gap < 0 ==> gap * c <= -c) by (nonlinear_arith)
        requires
            c > 0,
    ;
    assert(gap > 0 ==> b * d > 0);
    assert(gap < 0 ==> b * d < 0);
    assert((b * d > 0 ==> d > 0) && (b * d < 0 ==> d < 0)) by (nonlinear_arith)
        requires
            b > 0,
    ;
}

/// The colour of a bar goes by its share: red above 66 hundredths, yellow above 33, green below.
pub proof fn lemma_hue(x: (nat, int), a: nat, b: nat)
    requires
        stands_for(x, a, b),
        0 < a <= b < 0x800_0000_0000,
    ensures
        100 * a > 66 * b ==> bar_hue(x) == Hue::Red,
        33 * b < 100 * a < 66 * b ==> bar_hue(x) == Hue::Yellow,
        100 * a < 33 * b ==> bar_hue(x) == Hue::Green,
{
    lemma_threshold(x, a, b, 66);
    lemma_threshold(x, a, b, 33);
}

/// A share that reaches a threshold exactly has the colour above it.
pub proof fn lemma_hue_at_threshold(a: nat, b: nat)
    requires
        0 < a <= b < 0x800_0000_0000,
    ensures
        100 * a == 66 * b ==> bar_hue(nearest(a, b)) == Hue::Red,
        100 * a == 33 * b ==> bar_hue(nearest(a, b)) == Hue::Yellow,
{
    lemma_nearest_stands(a, b);
    if 100 * a == 66 * b {
        law_nearest_reduces(a, b, 100);
        law_nearest_reduces(66, 100, b);
        assert(b * 66 == 66 * b && b * 100 == 100 * b);
        lemma_reflexive(nearest(a, b));
    } else if 100 * a == 33 * b {
        law_nearest_reduces(a, b, 100);
        law_nearest_reduces(33, 100, b);
        assert(b * 33 == 33 * b && b * 100 == 100 * b);
        lemma_reflexive(nearest(a, b));
        lemma_threshold(nearest(a, b), a, b, 66);
    }
}

proof fn lemma_reflexive(x: (nat, int))
    ensures
        at_least(x, x),
{
    lemma_powers();
    assert(x.0 * 1 == x.0);
}

proof fn lemma_hundredths(h: nat)
    requires
        0 < h < 0x800_0000_0000,
    ensures
        LEAST <= nearest(h, 100).0 < LIMIT,
        nearest(h, 100).1 <= 0,
        ({
            let x = nearest(h, 100);
            -100 <= 2 * (h * pow2((-x.1) as nat) - x.0 * 100) <= 100
        }),
{
    law_nearest_errs_by_half_a_unit(h, 100);
    let x = nearest(h, 100);
    if x.1 > 0 {
        let p = 100 * pow2(x.1 as nat);
        lemma_pow2_pos(x.1 as nat);
        assert(2 * (x.0 * p) >= 2 * (LEAST * p)) by (nonlinear_arith)
            requires
                x.0 >= LEAST,
                p >= 0,
        ;
        assert(p >= 100);
        assert(false);
    }
}

/// The quotient of two numbers of hundredths stands for the ratio of their counts.
pub proof fn lemma_quotient_of_hundredths_stands(g: nat, h: nat)
    requires
        0 < g <= h < 0x800_0000_0000,
    ensures
        stands_for(quotient(nearest(g, 100), nearest(h, 100)), g, h),
{
    lemma_powers();
    vstd::arithmetic::power2::lemma2_to64_rest();
    lemma_hundredths(g);
    lemma_hundredths(h);
    let x = nearest(g, 100);
    let y = nearest(h, 100);
    let z = nearest(x.0, y.0);
    law_nearest_errs_by_half_a_unit(x.0, y.0);
    if z.1 > 0 {
        let p = y.0 * pow2(z.1 as nat);
        lemma_pow2_pos(z.1 as nat);
        assert(p >= y.0) by (nonlinear_arith)
            requires
                p == y.0 * pow2(z.1 as nat),
                pow2(z.1 as nat) > 0,
        ;
        assert(2 * (z.0 * p) >= 8 * p) by (nonlinear_arith)
            requires
                z.0 >= 4,
                p >= 0,
        ;
        assert(false);
    }
    let i = (-z.1) as nat;
    let j = (-x.1) as nat;
    let l = (-y.1) as nat;
    let u = pow2(i);
    let v = pow2(j);
    let w = pow2(l);
    lemma_pow2_pos(i);
    lemma_pow2_pos(j);
    lemma_pow2_pos(l);
    let m = z.0;
    assert(u < 2 * LIMIT) by (nonlinear_arith)
        requires
            2 * (x.0 * u - m * y.0) <= y.0,
            LEAST <= x.0,
            0 < y.0 < LIMIT,
            0 < m < LIMIT,
            LIMIT == 2 * LEAST,
            LEAST == 0x10_0000_0000_0000,
    ;
    if i >= 54 {
        lemma_power_order(54, i);
    }
    lemma_power_order(i, 53);
    let a = u * v;
    let big = h * w;
    let r1 = g * v - x.0 * 100;
    let r2 = x.0 * u - m * y.0;
    let r3 = big - y.0 * 100;
    let diff = g * a - m * big;
    assert(diff == r1 * u + 100 * r2 - m * r3) by (nonlinear_arith)
        requires
            a == u * v,
            r1 == g * v - x.0 * 100,
            r2 == x.0 * u - m * y.0,
            r3 == big - y.0 * 100,
            diff == g * a - m * big,
    ;
    assert(-(100 * u) <= 2 * (r1 * u) <= 100 * u) by (nonlinear_arith)
        requires
            -100 <= 2 * r1 <= 100,
            u > 0,
    ;
    assert(-(100 * m) <= 2 * (m * r3) <= 100 * m) by (nonlinear_arith)
        requires
            -100 <= 2 * r3 <= 100,
            m > 0,
    ;
    assert(-(8 * big) <= 2 * diff <= 8 * big);
    // The exponent is that of a number of at most one.
    assert(a >= (m - 4) * w) by (nonlinear_arith)
        requires
            -(8 * big) <= 2 * diff,
            diff == g * a - m * big,
            big == h * w,
            0 < g <= h,
            a >= 0,
            m >= 4,
            w > 0,
    ;
    let k = i + j - l;
    lemma_pow2_adds(i, j);
    assert(a == pow2(i + j));
    if k < 52 {
        lemma_power_order(i + j, l + 51);
        lemma_pow2_adds(l, 51);
        assert(pow2(51) == 0x8_0000_0000_0000);
        assert((m - 4) * w > w * pow2(51)) by (nonlinear_arith)
            requires
                m >= 0x10_0000_0000_0000,
                w > 0,
                pow2(51) == 0x8_0000_0000_0000,
        ;
        assert(false);
    }
    let q = pow2(k as nat);
    lemma_pow2_adds(l, k as nat);
    assert(a == w * q);
    assert(-8 * h <= 2 * (g * q - m * h) <= 8 * h) by (nonlinear_arith)
        requires
            -(8 * big) <= 2 * diff <= 8 * big,
            diff == g * a - m * big,
            big == h * w,
            a == w * q,
            w > 0,
    ;
    assert(quotient(x, y) == (m, z.1 + x.1 - y.1));
}

} // verus!
