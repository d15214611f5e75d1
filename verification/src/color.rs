//! Packed ARGB pixels and the per-channel arithmetic of shading and blending.
//!
//! A pixel is a `u32` with alpha in the top byte, then red, green and blue.
//! All shading is exact integer arithmetic on 8-bit channels: a factor such as
//! `1 - 0.6 * s / 255` is kept as the fraction `(5 * 255 - 3 * s) / (5 * 255)`
//! and the product is rounded down.

use vstd::prelude::*;

verus! {

/// The four 8-bit channels of one pixel.
#[derive(Clone, Copy, Debug, PartialEq, Eq, Structural)]
pub struct Rgba {
    pub r: u8,
    pub g: u8,
    pub b: u8,
    pub a: u8,
}

/// The packed value of a pixel with the given channels.
pub open spec fn argb(a: int, r: int, g: int, b: int) -> int {
    a * 0x100_0000 + r * 0x1_0000 + g * 0x100 + b
}

/// Alpha channel of a packed pixel.
pub open spec fn alpha_of(p: u32) -> int {
    p as int / 0x100_0000
}

/// Red channel of a packed pixel.
pub open spec fn red_of(p: u32) -> int {
    (p as int / 0x1_0000) % 0x100
}

/// Green channel of a packed pixel.
pub open spec fn green_of(p: u32) -> int {
    (p as int / 0x100) % 0x100
}

/// Blue channel of a packed pixel.
pub open spec fn blue_of(p: u32) -> int {
    p as int % 0x100
}

/// A channel scaled by the brightness `1 - (num / den) * (shadow / 255)`,
/// rounded down.
pub open spec fn dimmed(c: int, shadow: int, num: int, den: int) -> int {
    c * (den * 255 - num * shadow) / (den * 255)
}

/// Source over destination with `alpha / 255` as the blend factor, rounded
/// down and clamped to the channel range.
pub open spec fn blended(src: int, dst: int, alpha: int) -> int {
    let v = (src * alpha + dst * (255 - alpha)) / 255;
    if v > 255 {
        255
    } else {
        v
    }
}

/// Packs four channels into one pixel.
pub fn pack_argb(a: u8, r: u8, g: u8, b: u8) -> (p: u32)
    ensures
        p == argb(a as int, r as int, g as int, b as int),
        alpha_of(p) == a,
        red_of(p) == r,
        green_of(p) == g,
        blue_of(p) == b,
{
    let p: u32 = ((a as u32) << 24) | ((r as u32) << 16) | ((g as u32) << 8) | (b as u32);
    assert(p == (a as u32) * 0x100_0000 + (r as u32) * 0x1_0000 + (g as u32) * 0x100 + (b as u32))
        by (bit_vector)
        requires
            p == ((a as u32) << 24) | ((r as u32) << 16) | ((g as u32) << 8) | (b as u32),
    ;
    p
}

/// Red channel of a packed pixel.
pub fn red(p: u32) -> (c: u8)
    ensures
        c == red_of(p),
{
    let c: u32 = (p >> 16) & 0xFF;
    assert(c == (p / 0x1_0000) % 0x100) by (bit_vector)
        requires
            c == (p >> 16) & 0xFF,
    ;
    c as u8
}

/// Green channel of a packed pixel.
pub fn green(p: u32) -> (c: u8)
    ensures
        c == green_of(p),
{
    let c: u32 = (p >> 8) & 0xFF;
    assert(c == (p / 0x100) % 0x100) by (bit_vector)
        requires
            c == (p >> 8) & 0xFF,
    ;
    c as u8
}

/// Blue channel of a packed pixel.
pub fn blue(p: u32) -> (c: u8)
    ensures
        c == blue_of(p),
{
    let c: u32 = p & 0xFF;
    assert(c == p % 0x100) by (bit_vector)
        requires
            c == p & 0xFF,
    ;
    c as u8
}

/// Alpha channel of a packed pixel.
pub fn alpha(p: u32) -> (c: u8)
    ensures
        c == alpha_of(p),
{
    let c: u32 = p >> 24;
    assert(c == p / 0x100_0000 && c < 0x100) by (bit_vector)
        requires
            c == p >> 24,
    ;
    c as u8
}

/// Numerator of the darkening that a full shadow lays on a unit: 3/5.
pub const UNIT_SHADE_NUM: u32 = 3;

/// Numerator of the darkening that a full shadow lays on the world: 2/5.
pub const WORLD_SHADE_NUM: u32 = 2;

/// Common denominator of the two darkening strengths.
pub const SHADE_DEN: u32 = 5;

/// A unit's shadow keeps `1 / DYNAMIC_SHADE_DIV` of each channel.
pub const DYNAMIC_SHADE_DIV: u8 = 2;

/// An opaque-copy pixel: the source channels, alpha included, as they are.
pub open spec fn copied_pixel(src: Rgba) -> u32 {
    argb(src.a as int, src.r as int, src.g as int, src.b as int) as u32
}

/// A world pixel under a static shadow of the given strength: every colour
/// channel dimmed by up to 2/5, alpha forced to full.
pub open spec fn world_shaded_pixel(p: u32, shadow: u8) -> u32 {
    argb(
        255,
        dimmed(red_of(p), shadow as int, WORLD_SHADE_NUM as int, SHADE_DEN as int),
        dimmed(green_of(p), shadow as int, WORLD_SHADE_NUM as int, SHADE_DEN as int),
        dimmed(blue_of(p), shadow as int, WORLD_SHADE_NUM as int, SHADE_DEN as int),
    ) as u32
}

/// An output pixel under a unit's shadow: every colour channel halved, alpha
/// forced to full.
pub open spec fn unit_shadowed_pixel(p: u32) -> u32 {
    argb(
        255,
        red_of(p) / (DYNAMIC_SHADE_DIV as int),
        green_of(p) / (DYNAMIC_SHADE_DIV as int),
        blue_of(p) / (DYNAMIC_SHADE_DIV as int),
    ) as u32
}

/// A unit's pixel laid over `dst`: the source colour is first dimmed by up
/// to 3/5 according to `shadow`, then blended over the destination colour
/// with the source alpha as the factor; the result is fully opaque.
pub open spec fn unit_blended_pixel(src: Rgba, dst: u32, shadow: u8) -> u32 {
    argb(
        255,
        blended(
            dimmed(src.r as int, shadow as int, UNIT_SHADE_NUM as int, SHADE_DEN as int),
            red_of(dst),
            src.a as int,
        ),
        blended(
            dimmed(src.g as int, shadow as int, UNIT_SHADE_NUM as int, SHADE_DEN as int),
            green_of(dst),
            src.a as int,
        ),
        blended(
            dimmed(src.b as int, shadow as int, UNIT_SHADE_NUM as int, SHADE_DEN as int),
            blue_of(dst),
            src.a as int,
        ),
    ) as u32
}

/// Dimming never brightens a channel.
pub proof fn lemma_dimmed_bounds(c: int, shadow: int, num: int, den: int)
    requires
        0 <= c <= 255,
        0 <= shadow <= 255,
        0 <= num <= den,
        0 < den,
    ensures
        0 <= dimmed(c, shadow, num, den) <= c,
        shadow == 0 ==> dimmed(c, shadow, num, den) == c,
{
    let full = den * 255;
    let part = den * 255 - num * shadow;
    assert(0 <= part <= full) by (nonlinear_arith)
        requires
            0 <= shadow <= 255,
            0 <= num <= den,
            part == den * 255 - num * shadow,
            full == den * 255,
    ;
    assert(0 <= c * part <= c * full) by (nonlinear_arith)
        requires
            0 <= c,
            0 <= part <= full,
    ;
    assert(0 <= (c * part) / full <= c) by (nonlinear_arith)
        requires
            0 <= c * part <= c * full,
            0 < full,
    ;
    if shadow == 0 {
        assert(num * shadow == 0) by (nonlinear_arith)
            requires
                shadow == 0,
        ;
        assert((c * full) / full == c) by (nonlinear_arith)
            requires
                0 < full,
        ;
    }
}

/// A blend of two channels is a channel; full alpha gives the source and
/// zero alpha the destination.
pub proof fn lemma_blended_bounds(src: int, dst: int, alpha: int)
    requires
        0 <= src <= 255,
        0 <= dst <= 255,
        0 <= alpha <= 255,
    ensures
        0 <= blended(src, dst, alpha) <= 255,
        alpha == 255 ==> blended(src, dst, alpha) == src,
        alpha == 0 ==> blended(src, dst, alpha) == dst,
        src <= dst ==> src <= blended(src, dst, alpha) <= dst,
        dst <= src ==> dst <= blended(src, dst, alpha) <= src,
{
    let n = src * alpha + dst * (255 - alpha);
    assert(src <= dst ==> src * 255 <= n <= dst * 255) by (nonlinear_arith)
        requires
            0 <= src <= 255,
            0 <= dst <= 255,
            0 <= alpha <= 255,
            n == src * alpha + dst * (255 - alpha),
    ;
    assert(dst <= src ==> dst * 255 <= n <= src * 255) by (nonlinear_arith)
        requires
            0 <= src <= 255,
            0 <= dst <= 255,
            0 <= alpha <= 255,
            n == src * alpha + dst * (255 - alpha),
    ;
    if alpha == 255 {
        assert(n == src * 255) by (nonlinear_arith)
            requires
                alpha == 255,
                n == src * alpha + dst * (255 - alpha),
        ;
    }
    if alpha == 0 {
        assert(n == dst * 255) by (nonlinear_arith)
            requires
                alpha == 0,
                n == src * alpha + dst * (255 - alpha),
        ;
    }
}

/// Dims one channel by up to `num / SHADE_DEN`, in proportion to `shadow`.
fn dim_channel(c: u8, shadow: u8, num: u32) -> (d: u8)
    requires
        num <= SHADE_DEN,
    ensures
        d == dimmed(c as int, shadow as int, num as int, SHADE_DEN as int),
        d <= c,
{
    proof {
        lemma_dimmed_bounds(c as int, shadow as int, num as int, SHADE_DEN as int);
    }
    let full: u32 = SHADE_DEN * 255;
    assert(num * (shadow as u32) <= 1275) by (nonlinear_arith)
        requires
            num <= 5,
            shadow <= 255,
    ;
    let part: u32 = full - num * (shadow as u32);
    assert((c as u32) * part <= 255 * 1275) by (nonlinear_arith)
        requires
            c <= 255,
            part <= 1275,
    ;
    (((c as u32) * part) / full) as u8
}

/// Blends one source channel over one destination channel.
fn blend_channel(src: u8, dst: u8, alpha: u8) -> (v: u8)
    ensures
        v == blended(src as int, dst as int, alpha as int),
{
    proof {
        lemma_blended_bounds(src as int, dst as int, alpha as int);
    }
    let a: u32 = alpha as u32;
    assert((src as u32) * a <= 255 * 255 && (dst as u32) * (255 - a) <= 255 * 255)
        by (nonlinear_arith)
        requires
            src <= 255,
            dst <= 255,
            a <= 255,
    ;
    let v: u32 = ((src as u32) * a + (dst as u32) * (255 - a)) / 255;
    if v > 255 {
        255
    } else {
        v as u8
    }
}

/// The pixel that an opaque copy writes for `src`.
pub fn copy_pixel(src: Rgba) -> (p: u32)
    ensures
        p == copied_pixel(src),
        alpha_of(p) == src.a,
{
    pack_argb(src.a, src.r, src.g, src.b)
}

/// Darkens a world pixel under a static shadow of strength `shadow`.
pub fn shade_world_pixel(p: u32, shadow: u8) -> (q: u32)
    ensures
        q == world_shaded_pixel(p, shadow),
        alpha_of(q) == 255,
{
    let r = dim_channel(red(p), shadow, WORLD_SHADE_NUM);
    let g = dim_channel(green(p), shadow, WORLD_SHADE_NUM);
    let b = dim_channel(blue(p), shadow, WORLD_SHADE_NUM);
    pack_argb(255, r, g, b)
}

/// Darkens an output pixel under a unit's shadow.
pub fn shade_unit_shadow_pixel(p: u32) -> (q: u32)
    ensures
        q == unit_shadowed_pixel(p),
        alpha_of(q) == 255,
{
    let r = red(p) / DYNAMIC_SHADE_DIV;
    let g = green(p) / DYNAMIC_SHADE_DIV;
    let b = blue(p) / DYNAMIC_SHADE_DIV;
    pack_argb(255, r, g, b)
}

/// Lays a unit's pixel over `dst`, dimmed by the static shadow under it.
pub fn blend_unit_pixel(src: Rgba, dst: u32, shadow: u8) -> (q: u32)
    ensures
        q == unit_blended_pixel(src, dst, shadow),
        alpha_of(q) == 255,
{
    let r = blend_channel(dim_channel(src.r, shadow, UNIT_SHADE_NUM), red(dst), src.a);
    let g = blend_channel(dim_channel(src.g, shadow, UNIT_SHADE_NUM), green(dst), src.a);
    let b = blend_channel(dim_channel(src.b, shadow, UNIT_SHADE_NUM), blue(dst), src.a);
    pack_argb(255, r, g, b)
}

} // verus!
