//! Background presets of the styling pass: each preset is a vertical
//! two-stop gradient, top color to bottom color.

use vstd::prelude::*;
use crate::text::str_eq;

verus! {

/// A frame after the styling pass: `width` by `height` pixels of BGRA8.
pub struct StyledFrame {
    pub width: u32,
    pub height: u32,
    pub bgra: Vec<u8>,
}

/// An 8-bit color, red, green, blue.
pub type Rgb = (u8, u8, u8);

/// Top and bottom colors of a background preset; an unknown preset falls
/// back to `gradient-01`.
pub open spec fn preset_colors(preset: Seq<char>) -> (Rgb, Rgb) {
    if preset == "gradient-02"@ {
        ((10, 60, 55), (30, 140, 110))
    } else if preset == "gradient-03"@ {
        ((230, 90, 40), (210, 40, 120))
    } else if preset == "gradient-04"@ {
        ((30, 30, 35), (10, 10, 12))
    } else if preset == "gradient-05"@ {
        ((235, 110, 40), (100, 30, 120))
    } else if preset == "gradient-06"@ {
        ((40, 110, 200), (30, 200, 220))
    } else {
        ((60, 20, 90), (20, 60, 140))
    }
}

/// The two color stops of `preset`.
pub fn preset_stops(preset: &str) -> (stops: (Rgb, Rgb))
    ensures
        stops == preset_colors(preset@),
{
    if str_eq(preset, "gradient-02") {
        ((10, 60, 55), (30, 140, 110))
    } else if str_eq(preset, "gradient-03") {
        ((230, 90, 40), (210, 40, 120))
    } else if str_eq(preset, "gradient-04") {
        ((30, 30, 35), (10, 10, 12))
    } else if str_eq(preset, "gradient-05") {
        ((235, 110, 40), (100, 30, 120))
    } else if str_eq(preset, "gradient-06") {
        ((40, 110, 200), (30, 200, 220))
    } else {
        ((60, 20, 90), (20, 60, 140))
    }
}

/// Linear interpolation from `a` (row 0) to `b` (row `height - 1`) at row
/// `y`, rounded to the nearest integer with halves away from zero and
/// saturated to `0..=255`. A canvas of at most one row uses `a`.
pub open spec fn gradient_channel(a: int, b: int, y: int, height: int) -> int {
    if height <= 1 {
        a
    } else {
        let d = height - 1;
        let n = a * d + (b - a) * y;
        if n < 0 {
            0
        } else if (2 * n + d) / (2 * d) > 255 {
            255
        } else {
            (2 * n + d) / (2 * d)
        }
    }
}

/// Background color (BGRA) of row `y` in a canvas of `height` rows.
pub open spec fn background_at(preset: Seq<char>, y: int, height: int) -> Seq<u8> {
    let (top, bottom) = preset_colors(preset);
    seq![
        gradient_channel(top.2 as int, bottom.2 as int, y, height) as u8,
        gradient_channel(top.1 as int, bottom.1 as int, y, height) as u8,
        gradient_channel(top.0 as int, bottom.0 as int, y, height) as u8,
        255u8,
    ]
}

fn gradient_channel_at(a: u8, b: u8, y: u32, height: u32) -> (c: u8)
    ensures
        c as int == gradient_channel(a as int, b as int, y as int, height as int),
{
    if height <= 1 {
        return a;
    }
    let d: i128 = height as i128 - 1;
    let diff: i128 = b as i128 - a as i128;
    let yy: i128 = y as i128;
    assert(0 <= a * d <= 255 * 0xffff_ffff) by (nonlinear_arith)
        requires
            0 <= a <= 255,
            1 <= d <= 0xffff_ffff,
    ;
    assert(-255 * 0xffff_ffff <= diff * yy <= 255 * 0xffff_ffff) by (nonlinear_arith)
        requires
            -255 <= diff <= 255,
            0 <= yy <= 0xffff_ffff,
    ;
    let n: i128 = a as i128 * d + diff * yy;
    if n < 0 {
        return 0;
    }
    let q: i128 = (2 * n + d) / (2 * d);
    if q > 255 {
        255
    } else {
        q as u8
    }
}

/// Background color (BGRA, opaque) of row `y` of a canvas of `height` rows
/// for `preset`: a vertical gradient between the preset's two stops.
pub fn background_bgra_at(preset: &str, y: u32, height: u32) -> (px: [u8; 4])
    ensures
        px@ == background_at(preset@, y as int, height as int),
{
    let (top, bottom) = preset_stops(preset);
    let px = [
        gradient_channel_at(top.2, bottom.2, y, height),
        gradient_channel_at(top.1, bottom.1, y, height),
        gradient_channel_at(top.0, bottom.0, y, height),
        255,
    ];
    assert(px@ =~= background_at(preset@, y as int, height as int));
    px
}

/// A preset name other than the six known ones gets the colors of
/// `gradient-01`.
pub proof fn law_unknown_preset_falls_back_to_gradient_01(preset: Seq<char>)
    requires
        preset != "gradient-02"@,
        preset != "gradient-03"@,
        preset != "gradient-04"@,
        preset != "gradient-05"@,
        preset != "gradient-06"@,
    ensures
        preset_colors(preset) == preset_colors("gradient-01"@),
{
    reveal_strlit("gradient-01");
    reveal_strlit("gradient-02");
    reveal_strlit("gradient-03");
    reveal_strlit("gradient-04");
    reveal_strlit("gradient-05");
    reveal_strlit("gradient-06");
    assert("gradient-01"@[10] != "gradient-02"@[10]);
    assert("gradient-01"@[10] != "gradient-03"@[10]);
    assert("gradient-01"@[10] != "gradient-04"@[10]);
    assert("gradient-01"@[10] != "gradient-05"@[10]);
    assert("gradient-01"@[10] != "gradient-06"@[10]);
}

proof fn lemma_round_exact(a: int, d: int)
    requires
        0 <= a,
        d >= 1,
    ensures
        (2 * (a * d) + d) / (2 * d) == a,
{
    assert(2 * (a * d) + d == a * (2 * d) + d) by (nonlinear_arith);
    assert((a * (2 * d) + d) / (2 * d) == a) by (nonlinear_arith)
        requires
            0 <= a,
            d >= 1,
    ;
}

/// The gradient starts exactly on the top color at the first row and ends
/// exactly on the bottom color at the last row.
pub proof fn law_gradient_hits_both_stops(a: u8, b: u8, height: int)
    requires
        height >= 2,
    ensures
        gradient_channel(a as int, b as int, 0, height) == a,
        gradient_channel(a as int, b as int, height - 1, height) == b,
{
    let d = height - 1;
    assert(a * d >= 0) by (nonlinear_arith)
        requires
            a >= 0,
            d >= 1,
    ;
    lemma_round_exact(a as int, d);
    assert(a * d + (b - a) * d == b * d) by (nonlinear_arith);
    assert(b * d >= 0) by (nonlinear_arith)
        requires
            b >= 0,
            d >= 1,
    ;
    lemma_round_exact(b as int, d);
}

/// The first row of the background has the top color of its own preset
/// and the last row its bottom color (in BGRA, opaque); a canvas of one row
/// shows the top color.
pub proof fn law_background_starts_and_ends_on_its_preset(preset: Seq<char>, height: int)
    requires
        1 <= height <= u32::MAX,
    ensures
        background_at(preset, 0, height) == seq![
            preset_colors(preset).0.2,
            preset_colors(preset).0.1,
            preset_colors(preset).0.0,
            255u8,
        ],
        height >= 2 ==> background_at(preset, height - 1, height) == seq![
            preset_colors(preset).1.2,
            preset_colors(preset).1.1,
            preset_colors(preset).1.0,
            255u8,
        ],
{
    let (top, bottom) = preset_colors(preset);
    if height >= 2 {
        law_gradient_hits_both_stops(top.2, bottom.2, height);
        law_gradient_hits_both_stops(top.1, bottom.1, height);
        law_gradient_hits_both_stops(top.0, bottom.0, height);
    }
    assert(background_at(preset, 0, height) =~= seq![top.2, top.1, top.0, 255u8]);
    if height >= 2 {
        assert(background_at(preset, height - 1, height) =~= seq![bottom.2, bottom.1, bottom.0, 255u8]);
    }
}

} // verus!
