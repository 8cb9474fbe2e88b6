use vstd::prelude::*;

verus! {

/// The fixed-point value of full intensity in a linear channel.
/// An 8-bit value `v` is `v * 256` in linear units, so `255` maps to this.
pub const LIN_ONE: u32 = 65280;

/// An 8-bit, straight (not premultiplied) RGBA colour.
#[derive(Clone, Copy, Debug, PartialEq, Eq, Structural)]
pub struct Rgba8 {
    pub r: u8,
    pub g: u8,
    pub b: u8,
    pub a: u8,
}

/// A linear, premultiplied RGBA pixel in fixed point, where `LIN_ONE` is 1.0.
#[derive(Clone, Copy, Debug, PartialEq, Eq, Structural)]
pub struct LinPixel {
    pub r: u32,
    pub g: u32,
    pub b: u32,
    pub a: u32,
}

/// `n / d` rounded to the nearest integer, halves rounded up.
pub open spec fn round_div(n: int, d: int) -> int {
    (2 * n + d) / (2 * d)
}

/// A premultiplied pixel is valid when no colour channel exceeds its alpha
/// and alpha does not exceed full intensity.
pub open spec fn valid_pixel(p: LinPixel) -> bool {
    &&& p.a <= LIN_ONE
    &&& p.r <= p.a
    &&& p.g <= p.a
    &&& p.b <= p.a
}

/// The linear value of an 8-bit channel.
pub open spec fn lin_of(v: u8) -> int {
    v as int * 256
}

/// One channel of `c` premultiplied by the alpha `a` (both 8-bit).
pub open spec fn premul_spec(v: u8, a: u8) -> int {
    round_div(lin_of(v) * lin_of(a), LIN_ONE as int)
}

/// The premultiplied linear pixel that stands for an 8-bit colour.
pub open spec fn linear_spec(c: Rgba8) -> LinPixel {
    LinPixel {
        r: premul_spec(c.r, c.a) as u32,
        g: premul_spec(c.g, c.a) as u32,
        b: premul_spec(c.b, c.a) as u32,
        a: lin_of(c.a) as u32,
    }
}

/// One channel of "over": `f + b * (1 - fa)`.
pub open spec fn over_channel(f: int, b: int, fa: int) -> int {
    f + round_div(b * (LIN_ONE - fa), LIN_ONE as int)
}

/// The "over" operator on premultiplied pixels: `fg` placed over `bg`.
pub open spec fn over_spec(fg: LinPixel, bg: LinPixel) -> LinPixel {
    LinPixel {
        r: over_channel(fg.r as int, bg.r as int, fg.a as int) as u32,
        g: over_channel(fg.g as int, bg.g as int, fg.a as int) as u32,
        b: over_channel(fg.b as int, bg.b as int, fg.a as int) as u32,
        a: over_channel(fg.a as int, bg.a as int, fg.a as int) as u32,
    }
}

/// One colour channel of a premultiplied pixel, straightened and brought
/// back to 8 bits: `round(c / a * 255)`.
pub open spec fn straight_channel(c: int, a: int) -> int {
    if a == 0 {
        0
    } else {
        round_div(c * 255, a)
    }
}

/// The 8-bit straight colour of a valid premultiplied pixel.
pub open spec fn encode_spec(p: LinPixel) -> Rgba8 {
    Rgba8 {
        r: straight_channel(p.r as int, p.a as int) as u8,
        g: straight_channel(p.g as int, p.a as int) as u8,
        b: straight_channel(p.b as int, p.a as int) as u8,
        a: round_div(p.a as int, 256) as u8,
    }
}

proof fn lemma_round_div_bounds(n: int, m: int, d: int)
    requires
        0 <= n <= m,
        d > 0,
    ensures
        0 <= round_div(n, d) <= round_div(m, d),
{
    assert(0 <= 2 * n + d <= 2 * m + d);
    assert(2 * d > 0);
    vstd::arithmetic::div_mod::lemma_div_is_ordered(2 * n + d, 2 * m + d, 2 * d);
    vstd::arithmetic::div_mod::lemma_div_pos_is_pos(2 * n + d, 2 * d);
}

proof fn lemma_round_div_exact(k: int, d: int)
    requires
        d > 0,
        k >= 0,
    ensures
        round_div(k * d, d) == k,
{
    assert(2 * (k * d) + d == k * (2 * d) + d) by (nonlinear_arith);
    vstd::arithmetic::div_mod::lemma_fundamental_div_mod_converse(
        2 * (k * d) + d,
        2 * d,
        k,
        d,
    );
}

/// `round_div(x * y, d)` stays within `y` when `x <= d`.
proof fn lemma_round_div_scaled(x: int, y: int, d: int)
    requires
        0 <= x <= d,
        y >= 0,
        d > 0,
    ensures
        0 <= round_div(x * y, d) <= y,
{
    assert(0 <= x * y <= d * y) by (nonlinear_arith)
        requires
            0 <= x <= d,
            y >= 0,
    ;
    lemma_round_div_bounds(x * y, y * d, d);
    lemma_round_div_exact(y, d);
}

/// Converts an 8-bit straight colour into a premultiplied linear pixel.
pub fn linear(c: Rgba8) -> (r: LinPixel)
    ensures
        r == linear_spec(c),
        valid_pixel(r),
{
    let a: u64 = c.a as u64 * 256;
    let one: u64 = LIN_ONE as u64;
    proof {
        lemma_round_div_scaled(c.r as int * 256, a as int, LIN_ONE as int);
        lemma_round_div_scaled(c.g as int * 256, a as int, LIN_ONE as int);
        lemma_round_div_scaled(c.b as int * 256, a as int, LIN_ONE as int);
        assert(lin_of(c.r) * lin_of(c.a) == (c.r as int * 256) * a);
        assert(lin_of(c.g) * lin_of(c.a) == (c.g as int * 256) * a);
        assert(lin_of(c.b) * lin_of(c.a) == (c.b as int * 256) * a);
        assert(c.r as u64 * 256 * a <= 65280 * 65280) by (nonlinear_arith)
            requires c.r <= 255, a <= 65280;
        assert(c.g as u64 * 256 * a <= 65280 * 65280) by (nonlinear_arith)
            requires c.g <= 255, a <= 65280;
        assert(c.b as u64 * 256 * a <= 65280 * 65280) by (nonlinear_arith)
            requires c.b <= 255, a <= 65280;
    }
    let r: u64 = (2 * (c.r as u64 * 256 * a) + one) / (2 * one);
    let g: u64 = (2 * (c.g as u64 * 256 * a) + one) / (2 * one);
    let b: u64 = (2 * (c.b as u64 * 256 * a) + one) / (2 * one);
    LinPixel { r: r as u32, g: g as u32, b: b as u32, a: a as u32 }
}

fn over_channel_exec(f: u32, b: u32, fa: u32) -> (r: u32)
    requires
        fa <= LIN_ONE,
        f <= fa,
        b <= LIN_ONE,
    ensures
        r == over_channel(f as int, b as int, fa as int),
        r <= f + (LIN_ONE - fa),
{
    let one: u64 = LIN_ONE as u64;
    let k: u64 = one - fa as u64;
    proof {
        lemma_round_div_scaled(b as int, k as int, LIN_ONE as int);
        assert((b as int) * (k as int) == (k as int) * (b as int)) by (nonlinear_arith);
        assert(b as u64 * k <= one * one) by (nonlinear_arith)
            requires
                b <= one,
                k <= one,
        ;
    }
    let t: u64 = (2 * (b as u64 * k) + one) / (2 * one);
    (f as u64 + t) as u32
}

/// Places `fg` over `bg`; both are premultiplied linear pixels.
pub fn over(fg: LinPixel, bg: LinPixel) -> (r: LinPixel)
    requires
        valid_pixel(fg),
        valid_pixel(bg),
    ensures
        r == over_spec(fg, bg),
        valid_pixel(r),
{
    let r = over_channel_exec(fg.r, bg.r, fg.a);
    let g = over_channel_exec(fg.g, bg.g, fg.a);
    let b = over_channel_exec(fg.b, bg.b, fg.a);
    let a = over_channel_exec(fg.a, bg.a, fg.a);
    proof {
        let k = LIN_ONE - fg.a;
        assert(bg.r as int * k <= bg.a as int * k) by (nonlinear_arith)
            requires bg.r <= bg.a, k >= 0;
        assert(bg.g as int * k <= bg.a as int * k) by (nonlinear_arith)
            requires bg.g <= bg.a, k >= 0;
        assert(bg.b as int * k <= bg.a as int * k) by (nonlinear_arith)
            requires bg.b <= bg.a, k >= 0;
        assert(0 <= bg.r as int * k) by (nonlinear_arith) requires k >= 0;
        assert(0 <= bg.g as int * k) by (nonlinear_arith) requires k >= 0;
        assert(0 <= bg.b as int * k) by (nonlinear_arith) requires k >= 0;
        lemma_round_div_bounds(bg.r as int * k, bg.a as int * k, LIN_ONE as int);
        lemma_round_div_bounds(bg.g as int * k, bg.a as int * k, LIN_ONE as int);
        lemma_round_div_bounds(bg.b as int * k, bg.a as int * k, LIN_ONE as int);
    }
    LinPixel { r, g, b, a }
}

/// Converts a premultiplied linear pixel back to 8-bit straight RGBA.
pub fn encode_pixel(p: LinPixel) -> (r: Rgba8)
    requires
        valid_pixel(p),
    ensures
        r == encode_spec(p),
{
    let alpha: u64 = (2 * p.a as u64 + 256) / 512;
    proof {
        lemma_round_div_bounds(p.a as int, LIN_ONE as int, 256);
        lemma_round_div_exact(255, 256);
    }
    if p.a == 0 {
        Rgba8 { r: 0, g: 0, b: 0, a: alpha as u8 }
    } else {
        Rgba8 {
            r: straight_exec(p.r, p.a),
            g: straight_exec(p.g, p.a),
            b: straight_exec(p.b, p.a),
            a: alpha as u8,
        }
    }
}

fn straight_exec(c: u32, a: u32) -> (r: u8)
    requires
        0 < a <= LIN_ONE,
        c <= a,
    ensures
        r == straight_channel(c as int, a as int),
{
    proof {
        lemma_round_div_scaled(c as int, 255, a as int);
        assert(c as int * 255 == 255 * c as int);
    }
    ((2 * (c as u64 * 255) + a as u64) / (2 * a as u64)) as u8
}

proof fn lemma_half_round(c: int)
    requires
        0 <= c <= LIN_ONE,
    ensures
        0 <= 2 * round_div(c * 32640, LIN_ONE as int) - c <= 1,
{
    let x = c + 1;
    assert(2 * (c * 32640) + 65280 == x * 65280);
    vstd::arithmetic::div_mod::lemma_div_denominator(x * 65280, 65280, 2);
    vstd::arithmetic::div_mod::lemma_div_by_multiple(x, 65280);
    assert(x * 65280 / (65280 * 2int) == x / 2);
}

/// A fully opaque foreground hides the background: the result is the
/// foreground exactly.
pub proof fn lemma_over_opaque(fg: LinPixel, bg: LinPixel)
    requires
        valid_pixel(fg),
        valid_pixel(bg),
        fg.a == LIN_ONE,
    ensures
        over_spec(fg, bg) == fg,
{
    vstd::arithmetic::div_mod::lemma_basic_div(65280, 130560);
    assert(round_div(0, LIN_ONE as int) == 0);
    assert(bg.r as int * 0 == 0 && bg.g as int * 0 == 0 && bg.b as int * 0 == 0 && bg.a as int * 0 == 0);
}

/// A half-transparent foreground gives the even mix of the two colours: each
/// channel of the result, doubled, is the straight foreground channel plus
/// the background channel, to within one fixed-point unit.
pub proof fn lemma_over_half(fg: LinPixel, bg: LinPixel)
    requires
        valid_pixel(fg),
        valid_pixel(bg),
        2 * fg.a == LIN_ONE,
    ensures
        0 <= 2 * over_spec(fg, bg).r - (2 * fg.r + bg.r) <= 1,
        0 <= 2 * over_spec(fg, bg).g - (2 * fg.g + bg.g) <= 1,
        0 <= 2 * over_spec(fg, bg).b - (2 * fg.b + bg.b) <= 1,
        0 <= 2 * over_spec(fg, bg).a - (2 * fg.a + bg.a) <= 1,
{
    let k = LIN_ONE - fg.a;
    assert(k == 32640);
    lemma_half_round(bg.r as int);
    lemma_half_round(bg.g as int);
    lemma_half_round(bg.b as int);
    lemma_half_round(bg.a as int);
    let one = LIN_ONE as int;
    assert(over_spec(fg, bg).r == fg.r + round_div(bg.r * k, one));
}

} // verus!
