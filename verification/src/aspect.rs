//! The height at which an image is displayed, in keeping with its aspect ratio.
//!
//! The height is the display width times the natural height over the natural
//! width, worked out in binary64 arithmetic (53 significant bits, each operation
//! rounded to nearest with ties to even) and rounded to a whole number.

use vstd::arithmetic::power2::pow2;
use vstd::prelude::*;

verus! {

/// The integer nearest to `n / d`; of two that are equally near, the even one.
pub open spec fn nearest_even(n: nat, d: nat) -> nat
    recommends
        d > 0,
{
    let q = n / d;
    let r = n % d;
    if 2 * r < d || (2 * r == d && q % 2 == 0) {
        q
    } else {
        q + 1
    }
}

/// The smallest of `unit` and its doublings at which `p` has at most 53 bits:
/// the distance between the binary64 numbers at `p`, where that is at least `unit`.
pub open spec fn spacing(p: nat, unit: nat) -> nat
    decreases p - unit,
{
    if unit == 0 || p < unit * 0x20_0000_0000_0000 {
        unit
    } else {
        spacing(p, 2 * unit)
    }
}

/// The binary64 number nearest to the integer `p`.
pub open spec fn binary64_integer(p: nat) -> nat {
    let unit = spacing(p, 1);
    nearest_even(p, unit) * unit
}

/// The smallest of `factor` and its doublings at which `n * factor / d` reaches
/// `2^52`, and so has 53 bits in front of its point.
pub open spec fn scaling(n: nat, d: nat, factor: nat) -> nat
    decreases 2 * (d * 0x10_0000_0000_0000) - n * factor,
{
    if n == 0 || factor == 0 || n * factor >= d * 0x10_0000_0000_0000 {
        factor
    } else {
        proof {
            assert(n * factor > 0 && n * (2 * factor) == 2 * (n * factor)) by (nonlinear_arith)
                requires
                    n > 0,
                    factor > 0,
            ;
        }
        scaling(n, d, 2 * factor)
    }
}

/// The binary64 number nearest to `n / d`, rounded to the nearest integer,
/// halves up. (For a quotient below `2^32`.)
pub open spec fn rounded_quotient(n: nat, d: nat) -> nat {
    let factor = scaling(n, d, 1);
    let mantissa = nearest_even(n * factor, d);
    (2 * mantissa + factor) / (2 * factor)
}

/// The display height of an image of the given natural size at the given
/// display width: at least 1, and at most what 32 bits hold.
pub open spec fn height_for(display_width: u32, natural_width: u32, natural_height: u32) -> u32 {
    let product = binary64_integer((display_width * natural_height) as nat);
    if product == 0 {
        1
    } else if product >= natural_width * 0x1_0000_0000 {
        u32::MAX
    } else {
        let height = rounded_quotient(product, natural_width as nat);
        if height == 0 {
            1
        } else if height > u32::MAX {
            u32::MAX
        } else {
            height as u32
        }
    }
}

/// The nearest integer is no more than one half away.
proof fn lemma_nearest_even(n: nat, d: nat)
    requires
        d > 0,
    ensures
        2 * n <= 2 * d * nearest_even(n, d) + d,
        2 * d * nearest_even(n, d) <= 2 * n + d,
{
    let q = n / d;
    let r = n % d;
    assert(n == d * q + r && r < d) by {
        vstd::arithmetic::div_mod::lemma_fundamental_div_mod(n as int, d as int);
        vstd::arithmetic::div_mod::lemma_mod_bound(n as int, d as int);
    }
    assert(2 * d * q == 2 * (d * q)) by (nonlinear_arith);
    assert(2 * d * (q + 1) == 2 * (d * q) + 2 * d) by (nonlinear_arith);
}

/// At the spacing found, `p` has at most 53 bits, and no fewer unless the spacing is as before.
proof fn lemma_spacing(p: nat, unit: nat)
    requires
        unit > 0,
    ensures
        spacing(p, unit) >= unit,
        p < spacing(p, unit) * 0x20_0000_0000_0000,
        spacing(p, unit) == unit || spacing(p, unit) * 0x10_0000_0000_0000 <= p,
    decreases p - unit,
{
    if p >= unit * 0x20_0000_0000_0000 {
        lemma_spacing(p, 2 * unit);
    }
}

/// At the factor found, the quotient has 53 bits in front of its point.
proof fn lemma_scaling(n: nat, d: nat, factor: nat)
    requires
        n > 0,
        factor > 0,
        n * factor < d * 0x20_0000_0000_0000,
    ensures
        d * 0x10_0000_0000_0000 <= n * scaling(n, d, factor) < d * 0x20_0000_0000_0000,
        scaling(n, d, factor) >= factor,
        scaling(n, d, factor) == factor || scaling(n, d, factor) % 2 == 0,
    decreases 2 * (d * 0x10_0000_0000_0000) - n * factor,
{
    if n * factor < d * 0x10_0000_0000_0000 {
        assert(n * factor > 0 && n * (2 * factor) == 2 * (n * factor)) by (nonlinear_arith)
            requires
                n > 0,
                factor > 0,
        ;
        lemma_scaling(n, d, 2 * factor);
    }
}

/// For a quotient below `2^32` the factor is even and above `2^20`.
proof fn lemma_factor(n: nat, d: nat)
    requires
        0 < n < d * 0x1_0000_0000,
    ensures
        d * 0x10_0000_0000_0000 <= n * scaling(n, d, 1) < d * 0x20_0000_0000_0000,
        scaling(n, d, 1) > 0x10_0000,
        scaling(n, d, 1) % 2 == 0,
{
    lemma_scaling(n, d, 1);
    let f = scaling(n, d, 1);
    assert(f > 0x10_0000) by (nonlinear_arith)
        requires
            0 < n < d * 0x1_0000_0000,
            d * 0x10_0000_0000_0000 <= n * f,
    ;
}

/// A factor can be taken out of both sides of a comparison.
proof fn lemma_cancel(d: int, a: int, b: int)
    by (nonlinear_arith)
    requires
        d > 0,
        d * a < d * b,
    ensures
        a < b,
{
}

/// A comparison stays when both sides are multiplied.
proof fn lemma_multiply(c: int, a: int, b: int)
    by (nonlinear_arith)
    requires
        c >= 0,
        a <= b,
    ensures
        c * a <= c * b,
{
}

/// The scaled quotient is at least what the whole number `h` needs to be reached.
proof fn lemma_rounds_up_to(n: int, d: int, f: int, q: int, h: int)
    requires
        d > 0,
        f > 0,
        f % 2 == 0,
        n * f < d * q + d,
        d * (2 * h) <= 2 * n + d,
    ensures
        (2 * f) * h <= 2 * q + f,
{
    let g = f / 2;
    let low = g * (2 * h - 1);
    assert(f == 2 * g);
    assert(d * (2 * h - 1) == d * (2 * h) - d) by (nonlinear_arith);
    lemma_multiply(g, d * (2 * h - 1), 2 * n);
    assert(g * (2 * n) == n * f) by (nonlinear_arith)
        requires
            f == 2 * g,
    ;
    assert(g * (d * (2 * h - 1)) == d * low) by (nonlinear_arith)
        requires
            low == g * (2 * h - 1),
    ;
    assert(d * (q + 1) == d * q + d) by (nonlinear_arith);
    lemma_cancel(d, low, q + 1);
    assert(2 * low + f == (2 * f) * h) by (nonlinear_arith)
        requires
            f == 2 * g,
            low == g * (2 * h - 1),
    ;
}

/// The rounded mantissa stays below what would round to more than `h`.
proof fn lemma_rounds_down_to(scaled: int, d: int, f: int, m: int, h: int)
    requires
        d > 0,
        2 * d * m <= 2 * scaled + d,
        2 * scaled + d < f * (d * (2 * h + 1)),
    ensures
        2 * m + f < (2 * f) * (h + 1),
{
    assert(f * (d * (2 * h + 1)) == d * (f * (2 * h + 1))) by (nonlinear_arith);
    assert(2 * d * m == d * (2 * m)) by (nonlinear_arith);
    lemma_cancel(d, 2 * m, f * (2 * h + 1));
    assert(f * (2 * h + 1) + f == (2 * f) * (h + 1)) by (nonlinear_arith);
}

/// Where the quotient lies less than one half, but for a small margin, from the
/// whole number `h`, it is rounded to `h`.
proof fn lemma_rounds_to(n: nat, d: nat, h: nat)
    requires
        0 < n < d * 0x1_0000_0000,
        d * (2 * h) <= 2 * n + d,
        2 * (n * scaling(n, d, 1)) + d < scaling(n, d, 1) * (d * (2 * h + 1)),
    ensures
        rounded_quotient(n, d) == h,
{
    let f = scaling(n, d, 1);
    let scaled = n * f;
    let m = nearest_even(scaled, d);
    let q = scaled / d;
    lemma_factor(n, d);
    lemma_nearest_even(scaled, d);
    vstd::arithmetic::div_mod::lemma_fundamental_div_mod(scaled as int, d as int);
    vstd::arithmetic::div_mod::lemma_mod_bound(scaled as int, d as int);
    lemma_rounds_up_to(n as int, d as int, f as int, q as int, h as int);
    lemma_rounds_down_to(scaled as int, d as int, f as int, m as int, h as int);
    let t = 2 * m + f;
    let r = t - (2 * f) * h;
    assert((2 * f) * (h + 1) == (2 * f) * h + 2 * f) by (nonlinear_arith);
    assert((2 * f) * h == h * (2 * f)) by (nonlinear_arith);
    vstd::arithmetic::div_mod::lemma_fundamental_div_mod_converse(
        t as int,
        (2 * f) as int,
        h as int,
        r,
    );
}

/// A product of fewer than 53 bits is divided and rounded without error: the
/// display height is then the exact quotient, rounded to the nearest whole
/// number with halves up, at least 1.
pub proof fn law_height_is_exact(display_width: u32, natural_width: u32, natural_height: u32)
    requires
        natural_width > 0,
        display_width * natural_height < 0x10_0000_0000_0000,
    ensures
        ({
            let exact = (2 * (display_width * natural_height) + natural_width) / (2
                * natural_width);
            height_for(display_width, natural_width, natural_height) == if exact < 1 {
                1
            } else if exact > u32::MAX {
                u32::MAX as int
            } else {
                exact
            }
        }),
{
    let p = (display_width * natural_height) as nat;
    assert(display_width * natural_height >= 0) by (nonlinear_arith);
    let d = natural_width as nat;
    let t = 2 * p + d;
    let h = t / (2 * d);
    vstd::arithmetic::div_mod::lemma_fundamental_div_mod(t as int, (2 * d) as int);
    vstd::arithmetic::div_mod::lemma_mod_bound(t as int, (2 * d) as int);
    assert(nearest_even(p, 1) == p) by {
        lemma_nearest_even(p, 1);
    }
    assert(spacing(p, 1) == 1);
    assert(binary64_integer(p) == p);
    if p == 0 {
        assert(h == 0) by (nonlinear_arith)
            requires
                h == d / (2 * d),
                d > 0,
        ;
    } else if p >= d * 0x1_0000_0000 {
        assert(h > u32::MAX) by (nonlinear_arith)
            requires
                2 * p + d < (2 * d) * h + 2 * d,
                p >= d * 0x1_0000_0000,
                d > 0,
        ;
    } else {
        let f = scaling(p, d, 1);
        lemma_factor(p, d);
        assert(f > d) by {
            if f <= d {
                lemma_multiply(p as int, f as int, d as int);
                assert(p * d < d * 0x10_0000_0000_0000) by (nonlinear_arith)
                    requires
                        p < 0x10_0000_0000_0000,
                        d > 0,
                ;
            }
        }
        assert((2 * d) * h == d * (2 * h)) by (nonlinear_arith);
        assert(d * (2 * h + 1) == d * (2 * h) + d) by (nonlinear_arith);
        lemma_multiply(f as int, (2 * p + 1) as int, (d * (2 * h + 1)) as int);
        assert(f * (2 * p + 1) == 2 * (p * f) + f) by (nonlinear_arith);
        lemma_rounds_to(p, d, h);
    }
}

/// The height is the whole number nearest to the display width times the natural
/// height over the natural width, halves up, unless that is less than 1 or more
/// than 32 bits hold.
pub proof fn law_ratio_is_kept(display_width: u32, natural_width: u32, natural_height: u32)
    requires
        natural_width > 0,
        display_width * natural_height < 0x10_0000_0000_0000,
    ensures
        ({
            let height = height_for(display_width, natural_width, natural_height);
            &&& height >= 1
            &&& height > 1 ==> 2 * (height * natural_width - display_width * natural_height)
                <= natural_width
            &&& height < u32::MAX ==> 2 * (display_width * natural_height - height * natural_width)
                < natural_width
        }),
{
    law_height_is_exact(display_width, natural_width, natural_height);
    let height = height_for(display_width, natural_width, natural_height) as int;
    let p = display_width * natural_height;
    let d = natural_width as int;
    let t = 2 * p + d;
    let exact = t / (2 * d);
    vstd::arithmetic::div_mod::lemma_fundamental_div_mod(t, 2 * d);
    vstd::arithmetic::div_mod::lemma_mod_bound(t, 2 * d);
    assert((2 * d) * exact == 2 * (exact * d)) by (nonlinear_arith);
    if exact < 1 {
        assert(exact * d <= 0) by (nonlinear_arith)
            requires
                exact < 1,
                d > 0,
        ;
    } else if exact > u32::MAX {
        lemma_multiply(d, u32::MAX as int, exact);
        assert(d * u32::MAX as int == u32::MAX as int * d && d * exact == exact * d)
            by (nonlinear_arith);
    }
}

/// Of an image without width nothing can be kept: its height is 1 where the
/// product is zero, and else the largest.
pub proof fn law_height_of_an_image_without_width(display_width: u32, natural_height: u32)
    ensures
        height_for(display_width, 0, natural_height) == if display_width == 0 || natural_height
            == 0 {
            1
        } else {
            u32::MAX
        },
{
    let p = (display_width * natural_height) as nat;
    assert(display_width * natural_height >= 0 && (display_width * natural_height == 0 <==> (
    display_width == 0 || natural_height == 0))) by (nonlinear_arith);
    let unit = spacing(p, 1);
    lemma_spacing(p, 1);
    lemma_nearest_even(p, unit);
    let count = nearest_even(p, unit);
    if p == 0 {
        assert(unit == 1);
        assert(count == 0);
        assert(count * unit == 0) by (nonlinear_arith)
            requires
                count == 0,
        ;
    } else {
        assert(count * unit > 0) by {
            if unit == 1 {
                assert(count == p);
                assert(count * unit == count) by (nonlinear_arith)
                    requires
                        unit == 1,
                ;
            } else {
                assert(2 * unit * count == 2 * (count * unit)) by (nonlinear_arith);
            }
        }
    }
}

/// An image at its natural width has its natural height (at least 1).
pub proof fn law_natural_width_gives_natural_height(natural_width: u32, natural_height: u32)
    requires
        natural_width > 0,
    ensures
        height_for(natural_width, natural_width, natural_height) == if natural_height == 0 {
            1
        } else {
            natural_height
        },
{
    let d = natural_width as nat;
    let h = natural_height as nat;
    let p = (natural_width * natural_height) as nat;
    assert(p == d * h && d * h >= 0) by (nonlinear_arith)
        requires
            p == (natural_width as nat) * (natural_height as nat),
            d == natural_width,
            h == natural_height,
    ;
    let unit = spacing(p, 1);
    lemma_spacing(p, 1);
    lemma_nearest_even(p, unit);
    let n = binary64_integer(p);
    let count = nearest_even(p, unit);
    assert(2 * unit * count == 2 * n) by (nonlinear_arith)
        requires
            n == count * unit,
    ;
    if h == 0 {
        assert(p == 0) by (nonlinear_arith)
            requires
                p == d * h,
                h == 0,
        ;
        assert(n == 0) by {
            assert(unit == 1);
        }
    } else {
        // The product is off by at most half its spacing, which is small against the width.
        if unit == 1 {
            assert(n == p) by {
                assert(nearest_even(p, 1) == p);
            }
        } else {
            assert(unit * 0x10_0000 <= d) by (nonlinear_arith)
                requires
                    unit * 0x10_0000_0000_0000 <= p,
                    p == d * h,
                    h < 0x1_0000_0000,
            ;
        }
        assert(p >= d) by (nonlinear_arith)
            requires
                p == d * h,
                h >= 1,
        ;
        assert(p <= d * 0xffff_ffff) by (nonlinear_arith)
            requires
                p == d * h,
                h <= 0xffff_ffff,
        ;
        assert(d * (2 * h) == 2 * p) by (nonlinear_arith)
            requires
                p == d * h,
        ;
        lemma_factor(n, d);
        let f = scaling(n, d, 1);
        let slack = if unit == 1 { 0 } else { unit };
        assert(2 * n <= 2 * p + slack);
        assert(slack * 0x10_0000 <= d);
        lemma_multiply(f as int, (2 * n) as int, (2 * p + slack) as int);
        lemma_multiply(f as int, (slack * 0x10_0000) as int, d as int);
        lemma_multiply(d as int, 0x10_0001, f as int);
        assert(f * (2 * n) == 2 * (n * f)) by (nonlinear_arith);
        assert(f * (2 * p + slack) == f * (2 * p) + f * slack) by (nonlinear_arith);
        assert(f * (slack * 0x10_0000) == 0x10_0000 * (f * slack)) by (nonlinear_arith);
        assert(f * (d * (2 * h + 1)) == f * (2 * p) + d * f) by (nonlinear_arith)
            requires
                p == d * h,
        ;
        assert(f * d == d * f) by (nonlinear_arith);
        lemma_rounds_to(n, d, h);
    }
}

/// A whole number no more than one half away from `n / d`, and even where it is as
/// far away as that, is the nearest one.
proof fn lemma_nearest_even_is(n: nat, d: nat, m: nat)
    requires
        d > 0,
        -d <= 2 * (m * d - n) <= d,
        2 * (m * d - n) == d || 2 * (m * d - n) == -d ==> m % 2 == 0,
    ensures
        nearest_even(n, d) == m,
{
    let q = n / d;
    let r = n % d;
    vstd::arithmetic::div_mod::lemma_fundamental_div_mod(n as int, d as int);
    vstd::arithmetic::div_mod::lemma_mod_bound(n as int, d as int);
    assert(m * d - n == (m - q) * d - r) by (nonlinear_arith)
        requires
            n == d * q + r,
    ;
    if m < q {
        assert((m - q) * d <= -d) by (nonlinear_arith)
            requires
                m < q,
                d > 0,
        ;
    } else if m > q + 1 {
        assert((m - q) * d >= 2 * d) by (nonlinear_arith)
            requires
                m > q + 1,
                d > 0,
        ;
    } else if m == q {
        assert((m - q) * d == 0) by (nonlinear_arith)
            requires
                m == q,
        ;
    } else {
        assert((m - q) * d == d) by (nonlinear_arith)
            requires
                m == q + 1,
        ;
    }
}

/// The spacing of the binary64 numbers at `p`.
proof fn lemma_spacing_is(p: nat, i: nat, k: nat)
    requires
        i <= k,
        p < pow2(k) * 0x20_0000_0000_0000,
        k == 0 || pow2(k) * 0x10_0000_0000_0000 <= p,
    ensures
        spacing(p, pow2(i)) == pow2(k),
    decreases k - i,
{
    vstd::arithmetic::power2::lemma_pow2_pos(i);
    if i < k {
        vstd::arithmetic::power2::lemma_pow2_unfold(i + 1);
        if i + 1 < k {
            vstd::arithmetic::power2::lemma_pow2_strictly_increases(i + 1, k);
        }
        assert(2 * pow2(i) == pow2(i + 1));
        lemma_spacing_is(p, i + 1, k);
    }
}

/// The power of two at which the quotient has 53 bits in front of its point.
proof fn lemma_scaling_is(n: nat, d: nat, i: nat, j: nat)
    requires
        n > 0,
        i <= j,
        d * 0x10_0000_0000_0000 <= n * pow2(j) < d * 0x20_0000_0000_0000,
    ensures
        scaling(n, d, pow2(i)) == pow2(j),
    decreases j - i,
{
    vstd::arithmetic::power2::lemma_pow2_pos(i);
    if i < j {
        vstd::arithmetic::power2::lemma_pow2_unfold(i + 1);
        if i + 1 < j {
            vstd::arithmetic::power2::lemma_pow2_strictly_increases(i + 1, j);
        }
        assert(2 * pow2(i) == pow2(i + 1));
        lemma_multiply(n as int, pow2(i + 1) as int, pow2(j) as int);
        let u = pow2(i);
        assert(n * pow2(i + 1) == 2 * (n * u)) by (nonlinear_arith)
            requires
                pow2(i + 1) == 2 * u,
        ;
        lemma_scaling_is(n, d, i + 1, j);
    }
}

/// `c` units of `2^k` are the binary64 number nearest to the integer `p`: 53 bits
/// hold `c`, it is off by no more than half a unit, and even where by just that.
pub open spec fn is_binary64(p: int, c: nat, k: nat) -> bool {
    &&& p < pow2(k) * 0x20_0000_0000_0000
    &&& k == 0 || pow2(k) * 0x10_0000_0000_0000 <= p
    &&& -pow2(k) <= 2 * (c * pow2(k) - p) <= pow2(k)
    &&& 2 * (c * pow2(k) - p) == pow2(k) || 2 * (c * pow2(k) - p) == -pow2(k) ==> c % 2 == 0
}

/// `m` over `2^j` is the binary64 number nearest to `n / d`: `m` has 53 bits, and
/// is off by no more than one half, and even where by just that.
pub open spec fn is_binary64_quotient(n: int, d: int, m: nat, j: nat) -> bool {
    &&& d * 0x10_0000_0000_0000 <= n * pow2(j) < d * 0x20_0000_0000_0000
    &&& -d <= 2 * (m * d - n * pow2(j)) <= d
    &&& 2 * (m * d - n * pow2(j)) == d || 2 * (m * d - n * pow2(j)) == -d ==> m % 2 == 0
}

/// The height comes of binary64 arithmetic whatever the sizes are: the product of
/// the display width and the natural height is rounded to such a number, its
/// quotient by the natural width to another one, and that, with halves up, to a
/// whole number, which is cut to the range from 1 to the largest 32-bit number.
pub proof fn law_height_in_binary64(
    display_width: u32,
    natural_width: u32,
    natural_height: u32,
    c: nat,
    k: nat,
    m: nat,
    j: nat,
)
    requires
        natural_width > 0,
        display_width > 0,
        natural_height > 0,
        is_binary64(display_width * natural_height, c, k),
    ensures
        c * pow2(k) >= natural_width * 0x1_0000_0000 ==> height_for(
            display_width,
            natural_width,
            natural_height,
        ) == u32::MAX,
        c * pow2(k) < natural_width * 0x1_0000_0000 && is_binary64_quotient(
            (c * pow2(k)) as int,
            natural_width as int,
            m,
            j,
        ) ==> {
            let height = (2 * m + pow2(j)) / (2 * pow2(j));
            height_for(display_width, natural_width, natural_height) == if height < 1 {
                1
            } else if height > u32::MAX {
                u32::MAX as nat
            } else {
                height
            }
        },
{
    assert(display_width * natural_height > 0) by (nonlinear_arith)
        requires
            display_width > 0,
            natural_height > 0,
    ;
    let p = (display_width * natural_height) as nat;
    let d = natural_width as nat;
    vstd::arithmetic::power2::lemma_pow2_pos(k);
    assert(pow2(0) == 1) by {
        vstd::arithmetic::power2::lemma2_to64();
    }
    lemma_spacing_is(p, 0, k);
    lemma_nearest_even_is(p, pow2(k), c);
    let product = c * pow2(k);
    assert(binary64_integer(p) == product);
    assert(product > 0) by {
        if k == 0 {
            assert(pow2(k) == 1);
            assert(c * pow2(k) == c) by (nonlinear_arith)
                requires
                    pow2(k) == 1,
            ;
        }
    }
    if product < d * 0x1_0000_0000 && is_binary64_quotient(product as int, d as int, m, j) {
        vstd::arithmetic::power2::lemma_pow2_pos(j);
        assert((product * pow2(j)) as int == product as int * pow2(j)) by (nonlinear_arith);
        lemma_scaling_is(product, d, 0, j);
        lemma_nearest_even_is(product * pow2(j), d, m);
    }
}

fn nearest_even_of(n: u128, d: u128) -> (r: u128)
    requires
        0 < d < 0x1_0000_0000_0000_0000,
        n < u128::MAX,
    ensures
        r == nearest_even(n as nat, d as nat),
{
    let q: u128 = n / d;
    let r: u128 = n % d;
    assert(q <= n) by (nonlinear_arith)
        requires
            q == n as int / d as int,
            d > 0,
    ;
    if 2 * r < d || (2 * r == d && q % 2 == 0) {
        q
    } else {
        q + 1
    }
}

/// The height at which an image of the size `natural_width` by `natural_height`
/// is displayed when its width is `display_width`.
pub fn display_height(display_width: u32, natural_width: u32, natural_height: u32) -> (r: u32)
    ensures
        r == height_for(display_width, natural_width, natural_height),
        r >= 1,
{
    assert(display_width * natural_height <= 0xffff_ffff * 0xffff_ffff) by (nonlinear_arith)
        requires
            display_width <= 0xffff_ffff,
            natural_height <= 0xffff_ffff,
    ;
    let exact: u128 = (display_width as u128) * (natural_height as u128);
    let mut unit: u128 = 1;
    while exact >= unit * 0x20_0000_0000_0000
        invariant
            0 < unit <= 0x1000,
            exact < 0x1_0000_0000_0000_0000,
            spacing(exact as nat, 1) == spacing(exact as nat, unit as nat),
        decreases exact - unit,
    {
        unit = unit * 2;
    }
    let ghost p = exact as nat;
    proof {
        lemma_nearest_even(p, unit as nat);
    }
    let count: u128 = nearest_even_of(exact, unit);
    assert(count * unit == binary64_integer(p));
    assert(2 * (count * unit) <= 2 * exact + unit) by (nonlinear_arith)
        requires
            2 * unit * count <= 2 * exact + unit,
    ;
    let product: u128 = count * unit;
    if product == 0 {
        return 1;
    }
    if product >= (natural_width as u128) * 0x1_0000_0000 {
        return u32::MAX;
    }
    let d: u128 = natural_width as u128;
    let mut factor: u128 = 1;
    let mut scaled: u128 = product;
    while scaled < d * 0x10_0000_0000_0000
        invariant
            0 < product <= scaled < d * 0x20_0000_0000_0000,
            0 < d <= 0xffff_ffff,
            0 < factor <= scaled,
            scaled == product * factor,
            scaling(product as nat, d as nat, 1) == scaling(
                product as nat,
                d as nat,
                factor as nat,
            ),
        decreases d * 0x20_0000_0000_0000 - scaled,
    {
        assert(product * (2 * factor) == 2 * (product * factor)) by (nonlinear_arith);
        factor = factor * 2;
        scaled = scaled * 2;
    }
    proof {
        lemma_nearest_even(scaled as nat, d as nat);
    }
    let mantissa: u128 = nearest_even_of(scaled, d);
    assert(mantissa <= scaled + 1) by (nonlinear_arith)
        requires
            2 * d * mantissa <= 2 * scaled + d,
            d > 0,
    ;
    let height: u128 = (2 * mantissa + factor) / (2 * factor);
    assert(height == rounded_quotient(product as nat, d as nat));
    if height == 0 {
        1
    } else if height > u32::MAX as u128 {
        u32::MAX
    } else {
        height as u32
    }
}

} // verus!
