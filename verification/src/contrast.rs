//! The contrast selector: decides whether a scene palette's first two colors
//! are legible enough for the dialog box, else falls back to a fixed
//! dark-neutral pair.
//!
//! All arithmetic is exact, in fixed point: luminance values are scaled by
//! one million and shifted up by a small constant so that every intermediate
//! value stays non-negative. The gamma curve's fractional power is the same
//! quadratic approximation the renderer's constrained numeric environment
//! uses (`1.28 x^2 - 0.28 x`), which dips slightly below zero for dark
//! channels; the shift absorbs that dip, and cancels in the contrast ratio.

use vstd::prelude::*;

verus! {

/// A red/green/blue triple as stored in a palette.
#[derive(Clone, Copy, Debug, PartialEq, Eq, Structural)]
pub struct Rgb {
    pub r: u8,
    pub g: u8,
    pub b: u8,
}

/// The fixed-point scale: a contrast ratio of 1.0.
pub const CONTRAST_ONE: u64 = 1_000_000;

/// Minimum contrast ratio for a palette pair to be used as the dialog box
/// colors. Deliberately conservative for small pixel fonts.
pub const CONTRAST_THRESHOLD: u64 = 10_000_000;

/// The shift added to every scaled channel linearization, large enough to
/// absorb the quadratic gamma approximation's dip below zero.
pub const LUMA_SHIFT: u64 = 16_000;

/// Gamma linearization of one channel, scaled by one million and shifted by
/// [`LUMA_SHIFT`]: `v/12.92` below the linear cutoff, else the quadratic
/// approximation of `((v + 0.055) / 1.055)^2.4`.
pub open spec fn spec_srgb_linear16(v: u8) -> int {
    if v <= 10 {
        (v as int) * 10_000_000 / 32946 + 16_000
    } else {
        let x = ((v as int) * 40 + 561) * 1_000_000 / 10761;
        32 * x * x / 25_000_000 + 16_000 - 7 * x / 25
    }
}

/// Relative luminance of a color, scaled by one million and shifted by
/// [`LUMA_SHIFT`]: the standard `0.2126 R + 0.7152 G + 0.0722 B` weights.
pub open spec fn spec_luminance16(c: Rgb) -> int {
    (2126 * spec_srgb_linear16(c.r) + 7152 * spec_srgb_linear16(c.g) + 722 * spec_srgb_linear16(
        c.b,
    )) / 10000
}

/// The contrast ratio of two colors, scaled by one million:
/// `(L_max + 0.05) / (L_min + 0.05)`. The shift of the two luminances
/// cancels; `34_000` stands for `0.05` minus the shift.
pub open spec fn spec_contrast(c1: Rgb, c2: Rgb) -> int {
    let l1 = spec_luminance16(c1);
    let l2 = spec_luminance16(c2);
    let hi = if l1 >= l2 {
        l1
    } else {
        l2
    };
    let lo = if l1 >= l2 {
        l2
    } else {
        l1
    };
    (hi + 34_000) * 1_000_000 / (lo + 34_000)
}

/// Whether two colors reach the required contrast ratio, stated without a
/// division: `hi + 0.05 >= 10 * (lo + 0.05)`.
pub open spec fn spec_is_contrast(c1: Rgb, c2: Rgb) -> bool {
    let l1 = spec_luminance16(c1);
    let l2 = spec_luminance16(c2);
    let hi = if l1 >= l2 {
        l1
    } else {
        l2
    };
    let lo = if l1 >= l2 {
        l2
    } else {
        l1
    };
    hi + 34_000 >= 10 * (lo + 34_000)
}

/// In the quadratic branch the subtracted term never wins: the polynomial
/// `32 x^2 - 7_000_000 x` is a shifted perfect square.
proof fn lemma_quad_bounds(x: int)
    requires
        0 <= x <= 1_000_000,
    ensures
        32 * x * x / 25_000_000 + 16_000 - 7 * x / 25 >= 0,
        32 * x * x / 25_000_000 + 16_000 - 7 * x / 25 <= 1_296_000,
{
    let a = 32 * x * x / 25_000_000;
    let b = 7 * x / 25;
    vstd::arithmetic::div_mod::lemma_fundamental_div_mod(32 * x * x, 25_000_000);
    vstd::arithmetic::div_mod::lemma_mod_bound(32 * x * x, 25_000_000);
    vstd::arithmetic::div_mod::lemma_fundamental_div_mod(7 * x, 25);
    vstd::arithmetic::div_mod::lemma_mod_bound(7 * x, 25);
    assert(32 * x * x - 7_000_000 * x + 400_000_000_000 - 25_000_000 >= 0) by (nonlinear_arith)
        requires
            0 <= x,
    ;
    assert(25_000_000 * a + 16_000 * 25_000_000 >= 25_000_000 * b) by (nonlinear_arith)
        requires
            32 * x * x == 25_000_000 * a + (32 * x * x) % 25_000_000,
            0 <= (32 * x * x) % 25_000_000 < 25_000_000,
            7 * x == 25 * b + (7 * x) % 25,
            0 <= (7 * x) % 25 < 25,
            32 * x * x - 7_000_000 * x + 400_000_000_000 - 25_000_000 >= 0,
    ;
    assert(a + 16_000 - b >= 0) by (nonlinear_arith)
        requires
            25_000_000 * a + 16_000 * 25_000_000 >= 25_000_000 * b,
    ;
    assert(32 * x * x <= 32_000_000_000_000) by (nonlinear_arith)
        requires
            0 <= x <= 1_000_000,
    ;
    assert(a <= 1_280_000) by (nonlinear_arith)
        requires
            32 * x * x == 25_000_000 * a + (32 * x * x) % 25_000_000,
            0 <= (32 * x * x) % 25_000_000,
            32 * x * x <= 32_000_000_000_000,
    ;
    assert(b >= 0) by (nonlinear_arith)
        requires
            7 * x == 25 * b + (7 * x) % 25,
            0 <= (7 * x) % 25 < 25,
            0 <= x,
    ;
}

/// The shifted channel linearization stays within `[0, 1_296_000]`.
proof fn lemma_srgb_linear16_bounds(v: u8)
    ensures
        0 <= spec_srgb_linear16(v) <= 1_296_000,
{
    if v <= 10 {
        assert(0 <= (v as int) * 10_000_000 / 32946 <= 100_000_000int / 32946);
    } else {
        let x = ((v as int) * 40 + 561) * 1_000_000 / 10761;
        assert(0 <= x <= 1_000_000) by {
            assert(((v as int) * 40 + 561) * 1_000_000 <= 10_761_000_000);
            assert(10_761_000_000int / 10761 == 1_000_000);
            vstd::arithmetic::div_mod::lemma_div_is_ordered(
                ((v as int) * 40 + 561) * 1_000_000,
                10_761_000_000,
                10761,
            );
        };
        lemma_quad_bounds(x);
    }
}

/// The shifted luminance stays within `[0, 1_296_000]`.
proof fn lemma_luminance16_bounds(c: Rgb)
    ensures
        0 <= spec_luminance16(c) <= 1_296_000,
{
    lemma_srgb_linear16_bounds(c.r);
    lemma_srgb_linear16_bounds(c.g);
    lemma_srgb_linear16_bounds(c.b);
    assert(0 <= spec_luminance16(c) <= 12_960_000_000int / 10000);
}

/// Exec mirror of [`spec_srgb_linear16`].
fn srgb_linear16(v: u8) -> (r: u64)
    ensures
        r as int == spec_srgb_linear16(v),
        r <= 1_296_000,
{
    proof {
        lemma_srgb_linear16_bounds(v);
    }
    if v <= 10 {
        (v as u64) * 10_000_000 / 32946 + 16_000
    } else {
        let x: u64 = ((v as u64) * 40 + 561) * 1_000_000 / 10761;
        proof {
            assert(x as int == ((v as int) * 40 + 561) * 1_000_000 / 10761);
            assert(((v as int) * 40 + 561) * 1_000_000 <= 10_761_000_000);
            assert(10_761_000_000int / 10761 == 1_000_000);
            vstd::arithmetic::div_mod::lemma_div_is_ordered(
                ((v as int) * 40 + 561) * 1_000_000,
                10_761_000_000,
                10761,
            );
            vstd::arithmetic::div_mod::lemma_div_pos_is_pos(((v as int) * 40 + 561) * 1_000_000, 10761);
            lemma_quad_bounds(x as int);
        }
        32 * x * x / 25_000_000 + 16_000 - 7 * x / 25
    }
}

/// Exec mirror of [`spec_luminance16`].
fn luminance16(c: Rgb) -> (l: u64)
    ensures
        l as int == spec_luminance16(c),
        l <= 1_296_000,
{
    proof {
        lemma_luminance16_bounds(c);
    }
    let lr = srgb_linear16(c.r);
    let lg = srgb_linear16(c.g);
    let lb = srgb_linear16(c.b);
    (2126 * lr + 7152 * lg + 722 * lb) / 10000
}

/// Relative luminance of a color, scaled by one million: zero is black,
/// one million is white; dark channels may dip slightly below zero under
/// the quadratic gamma approximation.
pub fn luminance(c: Rgb) -> (l: i64)
    ensures
        l as int == spec_luminance16(c) - 16_000,
{
    proof {
        lemma_luminance16_bounds(c);
    }
    let l16 = luminance16(c);
    l16 as i64 - 16_000
}

/// The contrast ratio of two colors in fixed point: [`CONTRAST_ONE`] for
/// equal colors, about twenty-one times that for black against white.
pub fn contrast(c1: Rgb, c2: Rgb) -> (r: u64)
    ensures
        r as int == spec_contrast(c1, c2),
{
    proof {
        lemma_luminance16_bounds(c1);
        lemma_luminance16_bounds(c2);
    }
    let l1 = luminance16(c1);
    let l2 = luminance16(c2);
    let hi = if l1 >= l2 {
        l1
    } else {
        l2
    };
    let lo = if l1 >= l2 {
        l2
    } else {
        l1
    };
    (hi + 34_000) * 1_000_000 / (lo + 34_000)
}

/// Whether two colors reach [`CONTRAST_THRESHOLD`].
pub fn is_contrast(c1: Rgb, c2: Rgb) -> (r: bool)
    ensures
        r == spec_is_contrast(c1, c2),
        r == (spec_contrast(c1, c2) >= CONTRAST_THRESHOLD),
{
    proof {
        lemma_luminance16_bounds(c1);
        lemma_luminance16_bounds(c2);
        lemma_is_contrast_threshold(c1, c2);
    }
    let l1 = luminance16(c1);
    let l2 = luminance16(c2);
    let hi = if l1 >= l2 {
        l1
    } else {
        l2
    };
    let lo = if l1 >= l2 {
        l2
    } else {
        l1
    };
    hi + 34_000 >= 10 * (lo + 34_000)
}

/// The division-free threshold test agrees with comparing the ratio.
proof fn lemma_is_contrast_threshold(c1: Rgb, c2: Rgb)
    ensures
        spec_is_contrast(c1, c2) == (spec_contrast(c1, c2) >= CONTRAST_THRESHOLD),
{
    lemma_luminance16_bounds(c1);
    lemma_luminance16_bounds(c2);
    let l1 = spec_luminance16(c1);
    let l2 = spec_luminance16(c2);
    let hi = if l1 >= l2 {
        l1
    } else {
        l2
    };
    let lo = if l1 >= l2 {
        l2
    } else {
        l1
    };
    let num = (hi + 34_000) * 1_000_000;
    let den = lo + 34_000;
    vstd::arithmetic::div_mod::lemma_fundamental_div_mod(num, den);
    vstd::arithmetic::div_mod::lemma_mod_bound(num, den);
    assert((num / den >= 10_000_000) == (hi + 34_000 >= 10 * den)) by (nonlinear_arith)
        requires
            den > 0,
            num == (hi + 34_000) * 1_000_000,
            num == den * (num / den) + num % den,
            0 <= num % den < den,
    ;
}

/// Contrast symmetry: the ratio does not depend on the argument order.
pub proof fn lemma_contrast_symmetric(c1: Rgb, c2: Rgb)
    ensures
        spec_contrast(c1, c2) == spec_contrast(c2, c1),
        spec_is_contrast(c1, c2) == spec_is_contrast(c2, c1),
{
}

/// A color against itself has a contrast ratio of exactly one.
pub proof fn lemma_contrast_self(c: Rgb)
    ensures
        spec_contrast(c, c) == CONTRAST_ONE,
{
    lemma_luminance16_bounds(c);
    let l = spec_luminance16(c);
    let den = l + 34_000;
    assert((den * 1_000_000) / den == 1_000_000) by (nonlinear_arith)
        requires
            den > 0,
    ;
}

/// The fixed dark-neutral box color used when the palette lacks contrast.
pub open spec fn spec_fallback_box() -> Rgb {
    Rgb { r: 0x21, g: 0x1e, b: 0x20 }
}

/// The fixed near-white text color used when the palette lacks contrast.
pub open spec fn spec_fallback_text() -> Rgb {
    Rgb { r: 0xe9, g: 0xef, b: 0xec }
}

/// Choose the dialog box and text colors for a scene palette: reuse the
/// palette's first two colors when they have enough contrast, else fall
/// back to the fixed dark-neutral pair.
pub fn pick_dialog_colors(palette: &Vec<Rgb>) -> (r: (Rgb, Rgb))
    ensures
        ({
            if palette@.len() >= 2 && spec_is_contrast(palette@[0], palette@[1]) {
                r.0 == palette@[0] && r.1 == palette@[1]
            } else {
                r.0 == spec_fallback_box() && r.1 == spec_fallback_text()
            }
        }),
{
    if palette.len() >= 2 {
        let bg = palette[0];
        let fg = palette[1];
        if is_contrast(bg, fg) {
            return (bg, fg);
        }
    }
    (Rgb { r: 0x21, g: 0x1e, b: 0x20 }, Rgb { r: 0xe9, g: 0xef, b: 0xec })
}

} // verus!
