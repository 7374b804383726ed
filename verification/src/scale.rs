//! The Accessibility pointer size: each level above 1 adds half the bitmap's
//! height to the pointer, so coordinates measured on the unscaled bitmap are
//! stretched by `(h + Δ) / h` with `Δ = (size - 1) · ⌊h / 2⌋`.
use vstd::prelude::*;

verus! {

/// The number of pixels the Accessibility size `sz_acc` adds to a bitmap of height `h`.
pub open spec fn acc_delta(sz_acc: int, h: int) -> int {
    (sz_acc - 1) * (h / 2)
}

/// `v · (h + d) / h` for `v ≥ 0`, rounded to the nearest integer, halves up.
pub open spec fn stretch_nat(v: int, h: int, d: int) -> int {
    (2 * v * (h + d) + h) / (2 * h)
}

/// `v · (h + d) / h` rounded to the nearest integer, halves away from zero.
pub open spec fn stretch(v: int, h: int, d: int) -> int {
    if v >= 0 {
        stretch_nat(v, h, d)
    } else {
        -stretch_nat(-v, h, d)
    }
}

/// `v` limited to the range of `usize`.
pub open spec fn sat_usize(v: int) -> int {
    if v > usize::MAX { usize::MAX as int } else if v < 0 { 0 } else { v }
}

/// `v` limited to the range of `i32`.
pub open spec fn sat_i32(v: int) -> int {
    if v > i32::MAX { i32::MAX as int } else if v < i32::MIN { i32::MIN as int } else { v }
}

/// Stretches a bitmap coordinate (a column or row index) for the
/// Accessibility size; a result past `usize::MAX` saturates.
pub fn stretch_index(v: usize, h: usize, d: usize) -> (r: usize)
    requires
        h > 0,
        v <= u32::MAX,
        h <= u32::MAX,
    ensures
        r == sat_usize(stretch_nat(v as int, h as int, d as int)),
{
    let vv = v as u128;
    let hh = h as u128;
    let dd = d as u128;
    assert(vv * (hh + dd) <= 0xffff_ffffu128 * 0x2_0000_0000_0000_0000u128) by (nonlinear_arith)
        requires
            vv <= 0xffff_ffffu128,
            hh + dd <= 0x2_0000_0000_0000_0000u128,
    ;
    let p = vv * (hh + dd);
    let num = 2 * p + hh;
    assert(num == 2 * v * (h + d) + h) by (nonlinear_arith)
        requires p == vv * (hh + dd), num == 2 * p + hh, vv == v, hh == h, dd == d;
    let q = num / (2 * hh);
    if q > usize::MAX as u128 {
        usize::MAX
    } else {
        q as usize
    }
}

/// Stretches a hot-spot coordinate for the Accessibility size; a result
/// outside `i32` saturates.
pub fn stretch_coord(v: i32, h: usize, d: usize) -> (r: i32)
    requires
        h > 0,
        h <= u32::MAX,
    ensures
        r == sat_i32(stretch(v as int, h as int, d as int)),
{
    let neg = v < 0;
    let mag: u128 = if neg { (0i64 - v as i64) as u128 } else { v as u128 };
    let hh = h as u128;
    let dd = d as u128;
    assert(mag * (hh + dd) <= 0x8000_0000u128 * 0x2_0000_0000_0000_0000u128) by (nonlinear_arith)
        requires
            mag <= 0x8000_0000u128,
            hh + dd <= 0x2_0000_0000_0000_0000u128,
    ;
    let p = mag * (hh + dd);
    let num = 2 * p + hh;
    let ghost a: int = if v < 0 { -v } else { v as int };
    assert(num == 2 * a * (h + d) + h) by (nonlinear_arith)
        requires p == mag * (hh + dd), num == 2 * p + hh, mag == a, hh == h, dd == d;
    let q = num / (2 * hh);
    if neg {
        if q > 0x8000_0000u128 {
            i32::MIN
        } else {
            (0i64 - q as i64) as i32
        }
    } else {
        if q > i32::MAX as u128 {
            i32::MAX
        } else {
            q as i32
        }
    }
}

/// `stretch_nat` rounds to the nearest integer, halves up: `r` is the
/// stretch of `v` exactly when `r - 1/2 ≤ v · (h + d) / h < r + 1/2`.
pub proof fn lemma_stretch_nat_nearest(v: int, h: int, d: int, r: int)
    requires
        h > 0,
    ensures
        (r == stretch_nat(v, h, d)) <==> (2 * h * r <= 2 * v * (h + d) + h < 2 * h * (r + 1)),
{
    let n = 2 * v * (h + d) + h;
    let q = stretch_nat(v, h, d);
    vstd::arithmetic::div_mod::lemma_fundamental_div_mod(n, 2 * h);
    assert(0 <= n % (2 * h) < 2 * h) by {
        vstd::arithmetic::div_mod::lemma_mod_bound(n, 2 * h);
    }
    if 2 * h * r <= n < 2 * h * (r + 1) {
        assert(n == r * (2 * h) + (n - 2 * h * r) && n - 2 * h * r < 2 * h) by (nonlinear_arith)
            requires 2 * h * r <= n < 2 * h * (r + 1);
        vstd::arithmetic::div_mod::lemma_fundamental_div_mod_converse(n, 2 * h, r, n - 2 * h * r);
    }
    assert(2 * h * q + n % (2 * h) == n) by (nonlinear_arith)
        requires n == (2 * h) * (n / (2 * h)) + n % (2 * h), q == n / (2 * h);
    assert(2 * h * (q + 1) == 2 * h * q + 2 * h) by (nonlinear_arith);
}

/// Stretching never shrinks a coordinate and keeps the order of coordinates.
pub proof fn lemma_stretch_monotone(u: int, v: int, h: int, d: int)
    requires
        0 <= u <= v,
        h > 0,
        d >= 0,
    ensures
        u <= stretch_nat(u, h, d) <= stretch_nat(v, h, d),
{
    assert(2 * u * (h + d) + h <= 2 * v * (h + d) + h) by (nonlinear_arith)
        requires 0 <= u <= v, h > 0, d >= 0;
    assert(2 * h * u <= 2 * u * (h + d) + h) by (nonlinear_arith)
        requires 0 <= u, h > 0, d >= 0;
    vstd::arithmetic::div_mod::lemma_div_is_ordered(2 * u * (h + d) + h, 2 * v * (h + d) + h, 2 * h);
    vstd::arithmetic::div_mod::lemma_div_is_ordered(2 * h * u, 2 * u * (h + d) + h, 2 * h);
    vstd::arithmetic::div_mod::lemma_div_multiples_vanish(u, 2 * h);
}

/// With no Accessibility enlargement (`d = 0`) stretching leaves a coordinate as is.
pub proof fn lemma_stretch_identity(v: int, h: int)
    requires
        h > 0,
    ensures
        stretch(v, h, 0) == v,
{
    let a = if v >= 0 { v } else { -v };
    assert(2 * a * h + h == (2 * a + 1) * h) by (nonlinear_arith);
    assert((2 * a * (h + 0) + h) / (2 * h) == a) by (nonlinear_arith)
        requires a >= 0, h > 0, 2 * a * h + h == (2 * a + 1) * h;
}

/// On an even height the Accessibility size `s` stretches by exactly `(s + 1) / 2`,
/// so the bitmap's full height `h` becomes `h · (s + 1) / 2`.
pub proof fn lemma_stretch_even_height(s: int, h: int)
    requires
        s >= 1,
        h > 0,
        h % 2 == 0,
    ensures
        stretch_nat(h, h, acc_delta(s, h)) == h * (s + 1) / 2,
{
    let k = h / 2;
    assert(h == 2 * k);
    assert(acc_delta(s, h) == (s - 1) * k);
    assert(2 * h * (h + (s - 1) * k) + h == 2 * h * ((s + 1) * k) + h) by (nonlinear_arith)
        requires h == 2 * k;
    assert((2 * h * ((s + 1) * k) + h) / (2 * h) == (s + 1) * k) by (nonlinear_arith)
        requires h > 0, k >= 0, s >= 1;
    assert(h * (s + 1) / 2 == (s + 1) * k) by (nonlinear_arith)
        requires h == 2 * k, s >= 1, k >= 0;
}

} // verus!
