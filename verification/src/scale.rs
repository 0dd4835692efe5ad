//! The size of a thumbnail.
//!
//! A frame that is too large is shrunk in proportion. The proportion is
//! taken in single-precision binary arithmetic (twenty-four significant
//! bits, every operation rounded to nearest with ties to even), here spelled
//! out over whole numbers.

use vstd::arithmetic::div_mod::{
    lemma_div_is_ordered, lemma_div_multiples_vanish, lemma_fundamental_div_mod,
};
use vstd::prelude::*;

verus! {

/// The first whole number that no longer fits in a single's significand.
pub const SIGNIFICAND_END: u128 = 0x100_0000;

/// The least significand of a normal single.
pub const SIGNIFICAND_START: u128 = 0x80_0000;

/// The whole number nearest to `n / d`; of two equally near ones, the even.
pub open spec fn nearest_even(n: int, d: int) -> int {
    let q = n / d;
    let r = n % d;
    if 2 * r < d || (2 * r == d && q % 2 == 0) {
        q
    } else {
        q + 1
    }
}

/// The spacing of singles around the whole number `n`: the least power of two
/// that brings `n` down to twenty-four bits.
pub open spec fn unit(n: int) -> int
    decreases n,
{
    if n < SIGNIFICAND_END {
        1
    } else {
        2 * unit(n / 2)
    }
}

/// The single nearest to the whole number `n`.
pub open spec fn single_of(n: int) -> int {
    nearest_even(n, unit(n)) * unit(n)
}

/// The least power of two by which a small `n / d` has to be multiplied to
/// have all twenty-four significant bits before the point.
pub open spec fn magnify(n: int, d: int) -> int
    decreases (if n < SIGNIFICAND_START * d { SIGNIFICAND_START * d - n } else { 0 }),
{
    if n <= 0 || n >= SIGNIFICAND_START * d {
        1
    } else {
        2 * magnify(2 * n, d)
    }
}

/// The single nearest to `n / d`, rounded to a whole number, halves upwards.
pub open spec fn rounded_ratio(n: int, d: int) -> int {
    let s = magnify(n, d);
    let u = unit(n / d);
    let significand = nearest_even(n * s, d * u);
    (2 * significand * u + s) / (2 * s)
}

/// `side`, shrunk by as much as takes `over` down to `max`.
pub open spec fn shrunk_side(side: u32, over: u32, max: u32) -> u32 {
    let product = single_of(single_of(side as int) * single_of(max as int));
    let r = rounded_ratio(product, single_of(over as int));
    if r > u32::MAX {
        u32::MAX
    } else {
        r as u32
    }
}

/// The size of the thumbnail of a frame of `w` by `h`.
pub open spec fn fitted(w: u32, h: u32, fit_height: bool, max: u32) -> (u32, u32) {
    if fit_height && h > max {
        (shrunk_side(w, h, max), max)
    } else if !fit_height && w > max {
        (max, shrunk_side(h, w, max))
    } else {
        (w, h)
    }
}

proof fn lemma_unit(n: int)
    requires
        0 <= n,
    ensures
        1 <= unit(n),
        unit(n) == 1 || SIGNIFICAND_START * unit(n) <= n,
        n < SIGNIFICAND_END * unit(n),
    decreases n,
{
    if n >= SIGNIFICAND_END {
        lemma_unit(n / 2);
    }
}

proof fn lemma_magnify(n: int, d: int)
    requires
        0 < d,
        0 <= n,
    ensures
        1 <= magnify(n, d),
        magnify(n, d) == 1 || n * magnify(n, d) < SIGNIFICAND_END * d,
        n > 0 ==> n * magnify(n, d) >= SIGNIFICAND_START * d,
    decreases (if n < SIGNIFICAND_START * d { SIGNIFICAND_START * d - n } else { 0 }),
{
    if 0 < n < SIGNIFICAND_START * d {
        lemma_magnify(2 * n, d);
        let m = magnify(2 * n, d);
        assert(n * (2 * m) == (2 * n) * m) by (nonlinear_arith);
    } else {
        assert(n * 1 == n);
    }
}

proof fn lemma_nearest_even(n: int, d: int)
    requires
        0 <= n,
        0 < d,
    ensures
        n / d <= nearest_even(n, d) <= n / d + 1,
        0 <= nearest_even(n, d),
        2 * d * nearest_even(n, d) <= 2 * n + d,
        2 * n <= 2 * d * nearest_even(n, d) + d,
{
    lemma_fundamental_div_mod(n, d);
    let q = n / d;
    let r = n % d;
    assert(0 <= q) by (nonlinear_arith)
        requires
            n == d * q + r,
            0 <= n,
            0 <= r < d,
            0 < d,
    ;
    assert(2 * d * q == 2 * (d * q)) by (nonlinear_arith);
    assert(2 * d * (q + 1) == 2 * (d * q) + 2 * d) by (nonlinear_arith);
}

proof fn lemma_single_of(n: int)
    requires
        0 <= n,
    ensures
        0 <= single_of(n) <= 2 * n,
        n > 0 ==> single_of(n) > 0,
        n < SIGNIFICAND_END ==> single_of(n) == n,
{
    lemma_unit(n);
    let u = unit(n);
    lemma_nearest_even(n, u);
    let m = nearest_even(n, u);
    assert(2 * (m * u) == 2 * u * m) by (nonlinear_arith);
    assert(0 <= m * u) by (nonlinear_arith)
        requires
            0 <= m,
            1 <= u,
    ;
    if u == 1 {
        assert(m * u == m);
        assert(n / 1 == n);
        assert(n % 1 == 0);
    }
}

fn nearest_even_exec(n: u128, d: u128) -> (m: u128)
    requires
        0 < d <= 0x1_0000_0000_0000_0000_0000,
        n <= 0x1_0000_0000_0000_0000_0000,
    ensures
        m == nearest_even(n as int, d as int),
{
    let q: u128 = n / d;
    let r: u128 = n % d;
    assert(q <= n) by (nonlinear_arith)
        requires
            q == n / d,
            d > 0,
    ;
    if 2 * r < d || (2 * r == d && q % 2 == 0) {
        q
    } else {
        q + 1
    }
}

fn unit_exec(n: u128) -> (u: u128)
    ensures
        u == unit(n as int),
{
    let mut k: u128 = n;
    let mut u: u128 = 1;
    while k >= SIGNIFICAND_END
        invariant
            1 <= u,
            u * k <= n,
            unit(n as int) == u * unit(k as int),
        decreases k,
    {
        let ghost k0 = k as int;
        let ghost u0 = u as int;
        assert(2 * u0 <= n) by (nonlinear_arith)
            requires
                u0 * k0 <= n,
                k0 >= 2,
                u0 >= 1,
        ;
        assert((2 * u0) * (k0 / 2) <= u0 * k0) by (nonlinear_arith)
            requires
                u0 >= 1,
                k0 >= 0,
        ;
        assert(u0 * (2 * unit(k0 / 2)) == (2 * u0) * unit(k0 / 2)) by (nonlinear_arith);
        k = k / 2;
        u = u * 2;
    }
    assert(u * 1 == u);
    u
}

fn single_of_exec(n: u128) -> (r: u128)
    requires
        n <= 0x8000_0000_0000_0000_0000,
    ensures
        r == single_of(n as int),
{
    let u: u128 = unit_exec(n);
    proof {
        lemma_unit(n as int);
        lemma_single_of(n as int);
    }
    let m: u128 = nearest_even_exec(n, u);
    m * u
}

fn magnify_exec(n: u128, d: u128) -> (s: u128)
    requires
        0 < d <= 0x2_0000_0000,
        n <= 0x1_0000_0000_0000_0000_0000,
    ensures
        s == magnify(n as int, d as int),
{
    if n == 0 {
        return 1;
    }
    let mut s: u128 = 1;
    let mut k: u128 = n;
    assert(n * 1 == n);
    while k < SIGNIFICAND_START * d
        invariant
            0 < d <= 0x2_0000_0000,
            0 < n,
            1 <= s,
            k == n * s,
            k <= 0x1_0000_0000_0000_0000_0000,
            magnify(n as int, d as int) == s * magnify(k as int, d as int),
        decreases (if k < SIGNIFICAND_START * d { SIGNIFICAND_START * d - k } else { 0 }),
    {
        assert(s <= k) by (nonlinear_arith)
            requires
                k == n * s,
                0 < n,
                1 <= s,
        ;
        let ghost m = magnify(2 * k as int, d as int);
        assert(s * (2 * m) == (2 * s) * m) by (nonlinear_arith);
        assert(n * (2 * s) == 2 * (n * s)) by (nonlinear_arith);
        k = k * 2;
        s = s * 2;
    }
    assert(s * 1 == s);
    s
}

fn rounded_ratio_exec(n: u128, d: u128) -> (r: u128)
    requires
        0 < d <= 0x2_0000_0000,
        n <= 0x10_0000_0000_0000_0000,
    ensures
        r == rounded_ratio(n as int, d as int),
{
    let s: u128 = magnify_exec(n, d);
    let u: u128 = unit_exec(n / d);
    let ghost ni = n as int;
    let ghost di = d as int;
    let ghost si = s as int;
    let ghost ui = u as int;
    proof {
        lemma_magnify(ni, di);
        lemma_unit(ni / di);
        lemma_fundamental_div_mod(ni, di);
        assert(0 <= ni * si <= 0x10_0000_0000_0000_0000) by (nonlinear_arith)
            requires
                si == 1 || ni * si < SIGNIFICAND_END * di,
                di <= 0x2_0000_0000,
                0 <= ni <= 0x10_0000_0000_0000_0000,
                1 <= si,
                SIGNIFICAND_END == 0x100_0000,
        ;
        assert(1 <= di * ui <= 0x10_0000_0000_0000_0000) by (nonlinear_arith)
            requires
                ui == 1 || SIGNIFICAND_START * ui <= ni / di,
                SIGNIFICAND_START == 0x80_0000,
                ni == di * (ni / di) + ni % di,
                0 <= ni % di,
                0 < di <= 0x2_0000_0000,
                0 <= ni <= 0x10_0000_0000_0000_0000,
                1 <= ui,
        ;
        lemma_nearest_even(ni * si, di * ui);
    }
    let m: u128 = nearest_even_exec(n * s, d * u);
    let ghost mi = m as int;
    proof {
        assert(2 * (di * ui) * mi == 2 * (di * (mi * ui))) by (nonlinear_arith);
        assert(0 <= mi * ui <= di * (mi * ui)) by (nonlinear_arith)
            requires
                0 <= mi,
                1 <= ui,
                1 <= di,
        ;
        assert(2 * mi * ui == 2 * (mi * ui)) by (nonlinear_arith);
        if si != 1 {
            assert(si <= ni * si || ni == 0) by (nonlinear_arith)
                requires
                    0 <= ni,
                    1 <= si,
            ;
        }
    }
    (2 * (m * u) + s) / (2 * s)
}

fn shrunk_side_exec(side: u32, over: u32, max: u32) -> (r: u32)
    requires
        over > 0,
    ensures
        r == shrunk_side(side, over, max),
{
    proof {
        lemma_single_of(side as int);
        lemma_single_of(max as int);
        lemma_single_of(over as int);
        let a = single_of(side as int);
        let b = single_of(max as int);
        assert(0 <= a * b <= 0x4_0000_0000_0000_0000) by (nonlinear_arith)
            requires
                0 <= a <= 0x2_0000_0000,
                0 <= b <= 0x2_0000_0000,
        ;
        lemma_single_of(a * b);
    }
    let side_single: u128 = single_of_exec(side as u128);
    let max_single: u128 = single_of_exec(max as u128);
    let over_single: u128 = single_of_exec(over as u128);
    let product: u128 = single_of_exec(side_single * max_single);
    let r: u128 = rounded_ratio_exec(product, over_single);
    if r > u32::MAX as u128 {
        u32::MAX
    } else {
        r as u32
    }
}

/// The dimensions of the thumbnail of a frame of `w` by `h`: at most `max`
/// high where `fit_height` is set, at most `max` wide where it is not, the
/// other side shrunk in proportion. A frame that fits keeps its size.
pub fn scaled_dims(w: u32, h: u32, fit_height: bool, max: u32) -> (dims: (u32, u32))
    ensures
        dims == fitted(w, h, fit_height, max),
{
    if fit_height && h > max {
        (shrunk_side_exec(w, h, max), max)
    } else if !fit_height && w > max {
        (max, shrunk_side_exec(h, w, max))
    } else {
        (w, h)
    }
}

proof fn lemma_unit_ordered(a: int, b: int)
    requires
        0 <= a <= b,
    ensures
        unit(a) == unit(b) || 2 * unit(a) <= unit(b),
    decreases b,
{
    if b >= SIGNIFICAND_END {
        lemma_unit(b / 2);
        if a >= SIGNIFICAND_END {
            lemma_unit_ordered(a / 2, b / 2);
        }
    }
}

proof fn lemma_nearest_even_ordered(a: int, b: int, d: int)
    requires
        0 <= a <= b,
        0 < d,
    ensures
        nearest_even(a, d) <= nearest_even(b, d),
{
    lemma_div_is_ordered(a, b, d);
    lemma_fundamental_div_mod(a, d);
    lemma_fundamental_div_mod(b, d);
}

proof fn lemma_single_ordered(a: int, b: int)
    requires
        0 <= a <= b,
    ensures
        single_of(a) <= single_of(b),
{
    let ua = unit(a);
    let ub = unit(b);
    let ma = nearest_even(a, ua);
    let mb = nearest_even(b, ub);
    lemma_unit(a);
    lemma_unit(b);
    lemma_unit_ordered(a, b);
    lemma_nearest_even(a, ua);
    lemma_nearest_even(b, ub);
    if ua == ub {
        lemma_nearest_even_ordered(a, b, ua);
        assert(ma * ua <= mb * ub) by (nonlinear_arith)
            requires
                ma <= mb,
                ua == ub,
                1 <= ua,
        ;
    } else {
        assert(ma <= SIGNIFICAND_END) by (nonlinear_arith)
            requires
                2 * ua * ma <= 2 * a + ua,
                a < SIGNIFICAND_END * ua,
                1 <= ua,
        ;
        assert(SIGNIFICAND_START <= mb) by (nonlinear_arith)
            requires
                2 * b <= 2 * ub * mb + ub,
                SIGNIFICAND_START * ub <= b,
                1 <= ub,
        ;
        assert(ma * ua <= mb * ub) by (nonlinear_arith)
            requires
                0 <= ma <= SIGNIFICAND_END,
                SIGNIFICAND_START <= mb,
                2 * ua <= ub,
                1 <= ua,
                SIGNIFICAND_END == 0x100_0000,
                SIGNIFICAND_START == 0x80_0000,
        ;
    }
}

/// A single is off by at most one part in two to the twenty-fourth.
proof fn lemma_single_error(n: int)
    requires
        0 <= n,
    ensures
        0x100_0000 * single_of(n) <= n * 0x100_0001,
        n * 0xFF_FFFF <= 0x100_0000 * single_of(n),
{
    lemma_unit(n);
    lemma_single_of(n);
    let u = unit(n);
    lemma_nearest_even(n, u);
    let m = nearest_even(n, u);
    assert(2 * u * m == 2 * (m * u)) by (nonlinear_arith);
}

/// How `rounded_ratio` is bound to the ratio that it rounds.
proof fn lemma_ratio_error(n: int, d: int)
    requires
        0 < n,
        0 < d,
    ensures
        ({
            let s = magnify(n, d);
            let u = unit(n / d);
            let m = nearest_even(n * s, d * u);
            &&& 1 <= s
            &&& 1 <= u
            &&& 0 <= m
            &&& 0x100_0000 * (d * (m * u)) <= (n * s) * 0x100_0001
            &&& (n * s) * 0xFF_FFFF <= 0x100_0000 * (d * (m * u))
        }),
{
    let s = magnify(n, d);
    let u = unit(n / d);
    let m = nearest_even(n * s, d * u);
    lemma_magnify(n, d);
    lemma_fundamental_div_mod(n, d);
    assert(0 <= n / d) by (nonlinear_arith)
        requires
            n == d * (n / d) + n % d,
            0 <= n % d < d,
            0 < n,
            0 < d,
    ;
    lemma_unit(n / d);
    assert(1 <= d * u) by (nonlinear_arith)
        requires
            1 <= d,
            1 <= u,
    ;
    assert(n <= n * s) by (nonlinear_arith)
        requires
            0 < n,
            1 <= s,
    ;
    lemma_nearest_even(n * s, d * u);
    assert(2 * (d * u) * m == 2 * (d * (m * u))) by (nonlinear_arith);
    assert(SIGNIFICAND_START * (d * u) <= n * s) by {
        if u != 1 {
            assert(SIGNIFICAND_START * (d * u) <= n) by (nonlinear_arith)
                requires
                    SIGNIFICAND_START * u <= n / d,
                    n == d * (n / d) + n % d,
                    0 <= n % d,
                    0 < d,
            ;
        } else {
            assert(d * u == d) by (nonlinear_arith)
                requires
                    u == 1,
            ;
        }
    }
}

proof fn lemma_ratio_of_zero(d: int)
    requires
        0 < d,
    ensures
        rounded_ratio(0, d) == 0,
{
    assert(0int / d == 0) by (nonlinear_arith)
        requires
            0 < d,
    ;
    assert(0int % d == 0) by (nonlinear_arith)
        requires
            0 < d,
    ;
    assert(unit(0) == 1);
    assert(magnify(0, d) == 1);
    assert(nearest_even(0, d) == 0);
    assert(d * 1 == d);
    assert(0int * 1int == 0);
    assert(rounded_ratio(0, d) == (2 * 0int * 1int + 1) / 2);
}

/// A ratio that lies halfway between two small whole numbers is itself a single.
proof fn lemma_half_is_exact(n: int, d: int)
    requires
        0 < d,
        0 < n < 0x80_0000,
        (2 * n + d) % (2 * d) == 0,
    ensures
        ({
            let s = magnify(n, d);
            let u = unit(n / d);
            d * (nearest_even(n * s, d * u) * u) == n * s
        }),
{
    let s = magnify(n, d);
    let t = magnify(2 * n, d);
    assert(n < SIGNIFICAND_START * d) by (nonlinear_arith)
        requires
            n < 0x80_0000,
            1 <= d,
            SIGNIFICAND_START == 0x80_0000,
    ;
    assert(s == 2 * t);
    lemma_fundamental_div_mod(n, d);
    assert(0 <= n / d <= n) by (nonlinear_arith)
        requires
            n == d * (n / d) + n % d,
            0 <= n % d < d,
            0 < n,
            1 <= d,
    ;
    assert(unit(n / d) == 1);
    let k = (2 * n + d) / (2 * d);
    lemma_fundamental_div_mod(2 * n + d, 2 * d);
    let x = (2 * k - 1) * t;
    assert(n * s == d * x) by (nonlinear_arith)
        requires
            2 * n + d == (2 * d) * k,
            s == 2 * t,
            x == (2 * k - 1) * t,
    ;
    assert(d * 1 == d);
    lemma_div_multiples_vanish(x, d);
    lemma_fundamental_div_mod(d * x, d);
    assert(nearest_even(d * x, d) == x);
    assert(x * 1 == x);
}

proof fn lemma_ratio_nonnegative(n: int, d: int)
    requires
        0 < n,
        0 < d,
    ensures
        0 <= rounded_ratio(n, d),
{
    lemma_ratio_error(n, d);
    let s = magnify(n, d);
    let u = unit(n / d);
    let m = nearest_even(n * s, d * u);
    assert(0 <= (2 * m * u + s) / (2 * s)) by (nonlinear_arith)
        requires
            0 <= m,
            1 <= u,
            1 <= s,
    ;
}

/// The thumbnail keeps within `max` on the side it is fitted to.
pub proof fn fitted_side_keeps_within_max(w: u32, h: u32, fit_height: bool, max: u32)
    ensures
        fit_height ==> fitted(w, h, fit_height, max).1 <= max,
        !fit_height ==> fitted(w, h, fit_height, max).0 <= max,
{
}

/// A frame that fits is not resized.
pub proof fn fitting_frame_keeps_its_size(w: u32, h: u32, fit_height: bool, max: u32)
    requires
        if fit_height { h <= max } else { w <= max },
    ensures
        fitted(w, h, fit_height, max) == (w, h),
{
}

/// Shrinking one side never enlarges the other, as long as one of the two is
/// short enough for its steps to be told apart in single precision.
pub proof fn shrinking_never_enlarges(side: u32, over: u32, max: u32)
    requires
        max < over,
        side < 0x40_0000 || over <= 0x40_0000,
    ensures
        shrunk_side(side, over, max) <= side,
{
    let si = side as int;
    let a = single_of(si);
    let b = single_of(max as int);
    let d = single_of(over as int);
    lemma_single_of(si);
    lemma_single_of(max as int);
    lemma_single_of(over as int);
    lemma_single_ordered(max as int, over as int);
    lemma_single_error(si);
    assert(0 <= a * b) by (nonlinear_arith)
        requires
            0 <= a,
            0 <= b,
    ;
    let n = single_of(a * b);
    lemma_single_of(a * b);
    lemma_single_error(a * b);
    if n == 0 {
        lemma_ratio_of_zero(d);
    } else {
        lemma_ratio_nonnegative(n, d);
    }
    if n > 0 && rounded_ratio(n, d) > si {
        lemma_ratio_error(n, d);
        let s = magnify(n, d);
        let m = nearest_even(n * s, d * unit(n / d));
        let mu = m * unit(n / d);
        let r = rounded_ratio(n, d);
        assert(2 * m * unit(n / d) == 2 * mu) by (nonlinear_arith)
            requires
                mu == m * unit(n / d),
        ;
        lemma_fundamental_div_mod(2 * mu + s, 2 * s);
        assert(2 * mu >= 2 * s * si + s) by (nonlinear_arith)
            requires
                2 * mu + s == (2 * s) * r + (2 * mu + s) % (2 * s),
                0 <= (2 * mu + s) % (2 * s),
                r >= si + 1,
                1 <= s,
        ;
        let ds = d * s;
        assert(ds > 0) by (nonlinear_arith)
            requires
                ds == d * s,
                0 < d,
                1 <= s,
        ;
        assert(2 * (d * mu) >= 2 * (si * ds) + ds) by (nonlinear_arith)
            requires
                2 * mu >= 2 * s * si + s,
                0 < d,
                ds == d * s,
        ;
        assert(0x100_0000 * (n * s) <= (s * (a * b)) * 0x100_0001) by (nonlinear_arith)
            requires
                0x100_0000 * n <= (a * b) * 0x100_0001,
                1 <= s,
        ;
        if side < 0x40_0000 {
            assert(s * (a * b) <= si * ds) by (nonlinear_arith)
                requires
                    a == si,
                    0 <= si,
                    b <= d,
                    1 <= s,
                    ds == d * s,
            ;
            assert(si * ds <= 0x3F_FFFF * ds) by (nonlinear_arith)
                requires
                    si <= 0x3F_FFFF,
                    ds > 0,
            ;
        } else {
            let t = s * si;
            assert(0 < t) by (nonlinear_arith)
                requires
                    t == s * si,
                    1 <= s,
                    1 <= si,
            ;
            assert(0x100_0000 * (s * (a * b)) <= (b * t) * 0x100_0001) by (nonlinear_arith)
                requires
                    0x100_0000 * a <= si * 0x100_0001,
                    0 <= b,
                    1 <= s,
                    t == s * si,
            ;
            assert(si * ds == d * t) by (nonlinear_arith)
                requires
                    ds == d * s,
                    t == s * si,
            ;
            assert(b * t <= d * t - t) by (nonlinear_arith)
                requires
                    b <= d - 1,
                    0 < t,
            ;
            assert(d * t <= 0x40_0000 * t) by (nonlinear_arith)
                requires
                    d <= 0x40_0000,
                    0 < t,
            ;
        }
        assert(false);
    }
}

/// How far `rounded_ratio` is from the single that it rounds, and that single
/// from the ratio, all over the common denominator.
proof fn lemma_rounding(n: int, d: int) -> (parts: (int, int))
    requires
        0 < n,
        0 < d,
    ensures
        ({
            let (s, x) = parts;
            let ds = d * s;
            let rds = rounded_ratio(n, d) * ds;
            &&& 1 <= s
            &&& 0 < ds
            &&& 0x100_0000 * x <= (n * s) * 0x100_0001
            &&& (n * s) * 0xFF_FFFF <= 0x100_0000 * x
            &&& 2 * x - ds <= 2 * rds <= 2 * x + ds
        }),
{
    lemma_ratio_error(n, d);
    let s = magnify(n, d);
    let m = nearest_even(n * s, d * unit(n / d));
    let mu = m * unit(n / d);
    let r = rounded_ratio(n, d);
    let x = d * mu;
    let ds = d * s;
    assert(2 * m * unit(n / d) == 2 * mu) by (nonlinear_arith)
        requires
            mu == m * unit(n / d),
    ;
    lemma_fundamental_div_mod(2 * mu + s, 2 * s);
    let left = (2 * mu + s) % (2 * s);
    assert(0 < ds) by (nonlinear_arith)
        requires
            ds == d * s,
            0 < d,
            1 <= s,
    ;
    assert(2 * x + ds == 2 * (r * ds) + d * left) by (nonlinear_arith)
        requires
            2 * mu + s == (2 * s) * r + left,
            x == d * mu,
            ds == d * s,
    ;
    assert(0 <= d * left <= 2 * ds) by (nonlinear_arith)
        requires
            0 <= left < 2 * s,
            ds == d * s,
            0 < d,
    ;
    (s, x)
}

/// The side is shrunk in proportion: by the ratio of `max` to `over`, with an
/// error of less than a pixel. This holds as long as the side is short enough
/// for pixels to be told apart in single precision.
pub proof fn shrinking_is_in_proportion(side: u32, over: u32, max: u32)
    requires
        max < over,
        side < 0x20_0000 || (side < 0x40_0000 && over < 0x100_0000),
    ensures
        shrunk_side(side, over, max) * over < side * max + over,
        side * max < shrunk_side(side, over, max) * over + over,
{
    let a = side as int;
    let big = over as int;
    let small = max as int;
    let b = single_of(small);
    let d = single_of(big);
    lemma_single_of(a);
    lemma_single_of(small);
    lemma_single_of(big);
    lemma_single_error(small);
    lemma_single_error(big);
    assert(0 <= a * b && 0 <= a * small <= a * big) by (nonlinear_arith)
        requires
            0 <= a,
            0 <= b,
            0 <= small <= big,
    ;
    let n = single_of(a * b);
    lemma_single_of(a * b);
    lemma_single_error(a * b);
    shrinking_never_enlarges(side, over, max);
    if n == 0 {
        lemma_ratio_of_zero(d);
        assert(a * small == 0) by (nonlinear_arith)
            requires
                a * b == 0,
                small > 0 ==> b > 0,
                0 <= small,
                0 <= b,
        ;
        assert(0 * big == 0);
    } else {
        lemma_ratio_nonnegative(n, d);
        let r = rounded_ratio(n, d);
        assert(r == shrunk_side(side, over, max)) by {
            if r > u32::MAX {
                assert(shrunk_side(side, over, max) == u32::MAX);
            }
        }
        let (s, x) = lemma_rounding(n, d);
        let ds = d * s;
        let rds = r * ds;
        let q = s * (a * small);
        let bs = big * s;
        let rbs = r * bs;
        // Every rounding, scaled by `s`.
        assert(0x100_0000 * (n * s) <= (s * (a * b)) * 0x100_0001 && (s * (a * b)) * 0xFF_FFFF
            <= 0x100_0000 * (n * s)) by (nonlinear_arith)
            requires
                0x100_0000 * n <= (a * b) * 0x100_0001,
                (a * b) * 0xFF_FFFF <= 0x100_0000 * n,
                1 <= s,
        ;
        assert(0x100_0000 * (s * (a * b)) <= q * 0x100_0001 && q * 0xFF_FFFF <= 0x100_0000 * (s * (
        a * b))) by (nonlinear_arith)
            requires
                0x100_0000 * b <= small * 0x100_0001,
                small * 0xFF_FFFF <= 0x100_0000 * b,
                1 <= s,
                0 <= a,
                q == s * (a * small),
        ;
        assert(0x100_0000 * ds <= bs * 0x100_0001 && bs * 0xFF_FFFF <= 0x100_0000 * ds)
            by (nonlinear_arith)
            requires
                0x100_0000 * d <= big * 0x100_0001,
                big * 0xFF_FFFF <= 0x100_0000 * d,
                1 <= s,
                ds == d * s,
                bs == big * s,
        ;
        assert(0x100_0000 * rds <= rbs * 0x100_0001 && rbs * 0xFF_FFFF <= 0x100_0000 * rds)
            by (nonlinear_arith)
            requires
                0x100_0000 * ds <= bs * 0x100_0001,
                bs * 0xFF_FFFF <= 0x100_0000 * ds,
                0 <= r,
                rds == r * ds,
                rbs == r * bs,
        ;
        assert(bs > 0) by (nonlinear_arith)
            requires
                bs == big * s,
                0 < big,
                1 <= s,
        ;
        if side < 0x20_0000 {
            assert(0 <= q <= 0x1F_FFFF * bs) by (nonlinear_arith)
                requires
                    q == s * (a * small),
                    0 <= a * small <= a * big,
                    0 <= a <= 0x1F_FFFF,
                    bs == big * s,
                    0 < big,
                    1 <= s,
            ;
        } else {
            assert(0 <= q <= 0x3F_FFFF * bs) by (nonlinear_arith)
                requires
                    q == s * (a * small),
                    0 <= a * small <= a * big,
                    0 <= a <= 0x3F_FFFF,
                    bs == big * s,
                    0 < big,
                    1 <= s,
            ;
            assert(b == small && d == big);
            assert(ds == bs && s * (a * b) == q && rds == rbs);
        }
        assert(rbs < q + bs && q < rbs + bs);
        assert(r * big < a * small + big && a * small < r * big + big) by (nonlinear_arith)
            requires
                rbs < q + bs,
                q < rbs + bs,
                rbs == r * bs,
                bs == big * s,
                q == s * (a * small),
                1 <= s,
        ;
    }
}

/// Where the product of the side and `max` stays below two to the
/// twenty-third, the proportion is exact: the nearest whole number, halves
/// upwards.
pub proof fn small_proportion_is_exact(side: u32, over: u32, max: u32)
    requires
        max < over,
        side * max < 0x80_0000,
    ensures
        shrunk_side(side, over, max) == (2 * (side * max) + over) / (2 * over),
{
    let n = side * max;
    lemma_single_of(side as int);
    lemma_single_of(max as int);
    lemma_single_of(over as int);
    let a = single_of(side as int);
    let b = single_of(max as int);
    assert(a * b == n && 0 <= n) by (nonlinear_arith)
        requires
            n == side * max,
            n < 0x80_0000,
            side < 0x100_0000 ==> a == side,
            max < 0x100_0000 ==> b == max,
            side == 0 ==> a == 0,
            max == 0 ==> b == 0,
    ;
    lemma_single_of(n);
    if over < 0x100_0000 {
        lemma_small_ratio(n, over as int);
    } else {
        lemma_single_ordered(0x100_0000, over as int);
        assert(single_of(0x100_0000) == 0x100_0000) by {
            assert(unit(0x100_0000) == 2) by {
                assert(unit(0x80_0000) == 1);
            }
        }
        lemma_tiny_ratio(n, single_of(over as int));
        assert((2 * n + over) / (2 * over) == 0) by (nonlinear_arith)
            requires
                0 <= 2 * n < over,
        ;
    }
}

/// Whatever the sides, the side is shrunk by the ratio of `max` to `over` and
/// rounded to the nearest pixel: the error is at most half a pixel, but for
/// the few parts in two to the twenty-fourth that single precision leaves
/// undecided.
pub proof fn shrinking_rounds_the_proportion(side: u32, over: u32, max: u32)
    requires
        max < over,
    ensures
        0x200_0000 * (shrunk_side(side, over, max) * over - side * max) <= 0x100_0003 * over + 16 * (
        side * max),
        0x200_0000 * (side * max - shrunk_side(side, over, max) * over) <= 0x100_0003 * over + 16 * (
        side * max),
{
    let si = side as int;
    let big = over as int;
    let small = max as int;
    let a = single_of(si);
    let b = single_of(small);
    let d = single_of(big);
    lemma_single_of(si);
    lemma_single_of(small);
    lemma_single_of(big);
    lemma_single_error(si);
    lemma_single_error(small);
    lemma_single_error(big);
    assert(0 <= a * b && 0 <= si * small <= si * big) by (nonlinear_arith)
        requires
            0 <= a,
            0 <= b,
            0 <= si,
            0 <= small <= big,
    ;
    let n = single_of(a * b);
    lemma_single_of(a * b);
    lemma_single_error(a * b);
    let shrunk = shrunk_side(side, over, max) as int;
    if n == 0 {
        lemma_ratio_of_zero(d);
        assert(si * small == 0) by (nonlinear_arith)
            requires
                a * b == 0,
                si > 0 ==> a > 0,
                small > 0 ==> b > 0,
                0 <= si,
                0 <= small,
                0 <= a,
                0 <= b,
        ;
        assert(0 * big == 0);
    } else {
        lemma_ratio_nonnegative(n, d);
        let r = rounded_ratio(n, d);
        let (s, x) = lemma_rounding(n, d);
        let ds = d * s;
        let rds = r * ds;
        let half = s * (si * b);
        let q = s * (si * small);
        let bs = big * s;
        let rbs = r * bs;
        // Every rounding, scaled by `s`.
        assert(0x100_0000 * (n * s) <= (s * (a * b)) * 0x100_0001 && (s * (a * b)) * 0xFF_FFFF
            <= 0x100_0000 * (n * s)) by (nonlinear_arith)
            requires
                0x100_0000 * n <= (a * b) * 0x100_0001,
                (a * b) * 0xFF_FFFF <= 0x100_0000 * n,
                1 <= s,
        ;
        let sb = s * b;
        assert(0 <= sb) by (nonlinear_arith)
            requires
                sb == s * b,
                1 <= s,
                0 <= b,
        ;
        assert(s * (a * b) == a * sb && half == si * sb) by (nonlinear_arith)
            requires
                sb == s * b,
                half == s * (si * b),
        ;
        assert(0x100_0000 * (a * sb) <= half * 0x100_0001 && half * 0xFF_FFFF <= 0x100_0000 * (a
            * sb)) by (nonlinear_arith)
            requires
                0x100_0000 * a <= si * 0x100_0001,
                si * 0xFF_FFFF <= 0x100_0000 * a,
                0 <= sb,
                half == si * sb,
        ;
        let ss = s * si;
        assert(0 <= ss) by (nonlinear_arith)
            requires
                ss == s * si,
                1 <= s,
                0 <= si,
        ;
        assert(half == b * ss && q == small * ss) by (nonlinear_arith)
            requires
                ss == s * si,
                half == s * (si * b),
                q == s * (si * small),
        ;
        assert(0x100_0000 * half <= q * 0x100_0001 && q * 0xFF_FFFF <= 0x100_0000 * half)
            by (nonlinear_arith)
            requires
                0x100_0000 * b <= small * 0x100_0001,
                small * 0xFF_FFFF <= 0x100_0000 * b,
                0 <= ss,
                half == b * ss,
                q == small * ss,
        ;
        assert(0x100_0000 * ds <= bs * 0x100_0001 && bs * 0xFF_FFFF <= 0x100_0000 * ds)
            by (nonlinear_arith)
            requires
                0x100_0000 * d <= big * 0x100_0001,
                big * 0xFF_FFFF <= 0x100_0000 * d,
                1 <= s,
                ds == d * s,
                bs == big * s,
        ;
        assert(0x100_0000 * rds <= rbs * 0x100_0001 && rbs * 0xFF_FFFF <= 0x100_0000 * rds)
            by (nonlinear_arith)
            requires
                0x100_0000 * ds <= bs * 0x100_0001,
                bs * 0xFF_FFFF <= 0x100_0000 * ds,
                0 <= r,
                rds == r * ds,
                rbs == r * bs,
        ;
        assert(bs > 0 && q >= 0) by (nonlinear_arith)
            requires
                bs == big * s,
                0 < big,
                1 <= s,
                q == s * (si * small),
                0 <= si * small,
        ;
        assert(0x200_0000 * (rbs - q) <= 0x100_0003 * bs + 16 * q);
        assert(0x200_0000 * (q - rbs) <= 0x100_0003 * bs + 16 * q);
        let p = si * small;
        let rb = r * big;
        assert(rbs == rb * s && q == p * s) by (nonlinear_arith)
            requires
                rbs == r * bs,
                bs == big * s,
                rb == r * big,
                q == s * (si * small),
                p == si * small,
        ;
        assert(0x200_0000 * (rb - p) <= 0x100_0003 * big + 16 * p && 0x200_0000 * (p - rb)
            <= 0x100_0003 * big + 16 * p) by (nonlinear_arith)
            requires
                0x200_0000 * (rb * s - p * s) <= 0x100_0003 * (big * s) + 16 * (p * s),
                0x200_0000 * (p * s - rb * s) <= 0x100_0003 * (big * s) + 16 * (p * s),
                1 <= s,
        ;
        if r > u32::MAX {
            assert(shrunk == u32::MAX);
            assert(shrunk * big <= rb && p <= shrunk * big) by (nonlinear_arith)
                requires
                    rb == r * big,
                    shrunk <= r,
                    si <= shrunk,
                    0 <= small <= big,
                    0 <= si,
                    p == si * small,
            ;
        } else {
            assert(shrunk == r);
        }
    }
}

/// A frame that is too high or too wide is brought down to exactly `max` on
/// that side, and its other side is shrunk in the same proportion: to less
/// than a pixel where it is short enough for pixels to be told apart in
/// single precision, and to the nearest pixel as far as that goes elsewhere.
pub proof fn too_large_frames_are_fitted_in_proportion(w: u32, h: u32, fit_height: bool, max: u32)
    requires
        if fit_height { h > max } else { w > max },
    ensures
        ({
            let (tw, th) = fitted(w, h, fit_height, max);
            let (side, over, small, fit) = if fit_height { (w, h, tw, th) } else { (h, w, th, tw) };
            &&& fit == max
            &&& side < 0x20_0000 ==> side * max - over < small * over < side * max + over
            &&& side < 0x40_0000 || over <= 0x40_0000 ==> small <= side
            &&& 0x200_0000 * (small * over - side * max) <= 0x100_0003 * over + 16 * (side * max)
            &&& 0x200_0000 * (side * max - small * over) <= 0x100_0003 * over + 16 * (side * max)
            &&& side * max < 0x80_0000 ==> 2 * (small * over) <= 2 * (side * max) + over && 2 * (side
                * max) < 2 * (small * over) + over
        }),
{
    let (side, over) = if fit_height { (w, h) } else { (h, w) };
    shrinking_rounds_the_proportion(side, over, max);
    if side < 0x20_0000 {
        shrinking_is_in_proportion(side, over, max);
    }
    if side < 0x40_0000 || over <= 0x40_0000 {
        shrinking_never_enlarges(side, over, max);
    }
    if side * max < 0x80_0000 {
        small_proportion_is_exact(side, over, max);
        let n = 2 * (side * max) + over;
        let d = 2 * over;
        lemma_fundamental_div_mod(n, d);
        assert(d * (n / d) == 2 * (shrunk_side(side, over, max) * over)) by (nonlinear_arith)
            requires
                d == 2 * over,
                n / d == shrunk_side(side, over, max),
        ;
    }
}

proof fn lemma_tiny_ratio(n: int, d: int)
    requires
        0 <= n < 0x80_0000,
        0x100_0000 <= d,
    ensures
        rounded_ratio(n, d) == 0,
{
    if n == 0 {
        lemma_ratio_of_zero(d);
    } else {
        lemma_ratio_error(n, d);
        let s = magnify(n, d);
        let m = nearest_even(n * s, d * unit(n / d));
        let mu = m * unit(n / d);
        assert(2 * m * unit(n / d) == 2 * mu) by (nonlinear_arith)
            requires
                mu == m * unit(n / d),
        ;
        assert(0 <= mu) by (nonlinear_arith)
            requires
                mu == m * unit(n / d),
                0 <= m,
                1 <= unit(n / d),
        ;
        assert(n * s <= 0x7F_FFFF * s) by (nonlinear_arith)
            requires
                n <= 0x7F_FFFF,
                1 <= s,
        ;
        assert(0x100_0000 * mu <= d * mu) by (nonlinear_arith)
            requires
                0x100_0000 <= d,
                0 <= mu,
        ;
        assert((2 * mu + s) / (2 * s) == 0) by (nonlinear_arith)
            requires
                0 <= 2 * mu < s,
        ;
    }
}

proof fn lemma_small_ratio(n: int, d: int)
    requires
        0 <= n < 0x80_0000,
        0 < d,
    ensures
        rounded_ratio(n, d) == (2 * n + d) / (2 * d),
        0 <= rounded_ratio(n, d) <= 0x80_0000,
{
    let exact = (2 * n + d) / (2 * d);
    lemma_fundamental_div_mod(2 * n + d, 2 * d);
    let rest = (2 * n + d) % (2 * d);
    if n == 0 {
        lemma_ratio_of_zero(d);
        assert(exact == 0) by (nonlinear_arith)
            requires
                exact == d / (2 * d),
                0 < d,
        ;
    } else {
        lemma_ratio_error(n, d);
        let s = magnify(n, d);
        let u = unit(n / d);
        let m = nearest_even(n * s, d * u);
        let mu = m * u;
        let r = rounded_ratio(n, d);
        let ds = d * s;
        assert(2 * m * u == 2 * mu) by (nonlinear_arith)
            requires
                mu == m * u,
        ;
        lemma_fundamental_div_mod(2 * mu + s, 2 * s);
        let left = (2 * mu + s) % (2 * s);
        assert(2 * (d * mu) + ds == 2 * (r * ds) + d * left) by (nonlinear_arith)
            requires
                2 * mu + s == (2 * s) * r + left,
                ds == d * s,
        ;
        assert(2 * (n * s) + ds == 2 * (exact * ds) + s * rest) by (nonlinear_arith)
            requires
                2 * n + d == (2 * d) * exact + rest,
                ds == d * s,
        ;
        assert(0 <= d * left < 2 * ds) by (nonlinear_arith)
            requires
                0 <= left < 2 * s,
                ds == d * s,
                0 < d,
        ;
        // The rounding error of the ratio is less than one part in `d`.
        assert(n * s <= 0x7F_FFFF * s) by (nonlinear_arith)
            requires
                n <= 0x7F_FFFF,
                1 <= s,
        ;
        assert(s * rest <= 2 * ds - s) by (nonlinear_arith)
            requires
                rest <= 2 * d - 1,
                ds == d * s,
                1 <= s,
        ;
        assert(0 <= s * rest) by (nonlinear_arith)
            requires
                0 <= rest,
                1 <= s,
        ;
        assert(ds > 0) by (nonlinear_arith)
            requires
                ds == d * s,
                0 < d,
                1 <= s,
        ;
        if rest == 0 {
            lemma_half_is_exact(n, d);
        }
        if rest > 0 {
            assert(s * rest >= s) by (nonlinear_arith)
                requires
                    rest >= 1,
                    1 <= s,
            ;
        } else {
            assert(s * rest == 0) by (nonlinear_arith)
                requires
                    rest == 0,
            ;
        }
        if r > exact {
            assert(r * ds >= exact * ds + ds) by (nonlinear_arith)
                requires
                    r >= exact + 1,
                    ds > 0,
            ;
            assert(false);
        }
        if r < exact {
            assert(r * ds + ds <= exact * ds) by (nonlinear_arith)
                requires
                    r + 1 <= exact,
                    ds > 0,
            ;
            assert(false);
        }
        assert(0 <= exact <= n + 1) by (nonlinear_arith)
            requires
                2 * n + d == (2 * d) * exact + rest,
                0 <= rest < 2 * d,
                1 <= d,
                0 <= n,
        ;
    }
}

} // verus!
