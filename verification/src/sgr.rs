//! Colors and text attributes: the xterm palettes, and the `CSI ... m` codes
//! that select from them.
use vstd::prelude::*;

use crate::dashboard::CellAttrs;
use crate::terminal::{default_pen, Pen, DEFAULT_BG, DEFAULT_FG};

verus! {

/// A color from its red, green and blue parts, opaque.
pub open spec fn rgb(r: u32, g: u32, b: u32) -> u32 {
    (r << 24u32) | (g << 16u32) | (b << 8u32) | 0xFFu32
}

/// The sixteen standard colors of xterm.
pub open spec fn standard_colors() -> Seq<u32> {
    seq![
        0x0000_00FF, 0xCD00_00FF, 0x00CD_00FF, 0xCDCD_00FF,
        0x0000_EEFF, 0xCD00_CDFF, 0x00CD_CDFF, 0xE5E5_E5FF,
        0x8080_80FF, 0xFF00_00FF, 0x00FF_00FF, 0xFFFF_00FF,
        0x5C5C_FFFF, 0xFF00_FFFF, 0x00FF_FFFF, 0xFFFF_FFFF,
    ]
}

/// How bright a step of the color cube is: 0, 95, 135, 175, 215, 255.
pub open spec fn cube_level(step: int) -> int {
    if step == 0 {
        0
    } else {
        55 + 40 * step
    }
}

/// A color of the 256-color palette: the standard colors, a cube of six steps
/// of red, green and blue, and 24 grays.
pub open spec fn palette_256_spec(idx: u8) -> u32 {
    if idx < 16 {
        standard_colors()[idx as int]
    } else if idx < 232 {
        let i = idx - 16;
        rgb(
            cube_level(i / 36) as u32,
            cube_level(i / 6 % 6) as u32,
            cube_level(i % 6) as u32,
        )
    } else {
        let level = (8 + 10 * (idx - 232)) as u32;
        rgb(level, level, level)
    }
}

/// Standard xterm 16-color palette. Only the low four bits of `idx` count.
pub fn palette_color(idx: u8) -> (color: u32)
    ensures
        color == standard_colors()[idx as int % 16],
{
    let palette: [u32; 16] = [
        0x0000_00FF, 0xCD00_00FF, 0x00CD_00FF, 0xCDCD_00FF,
        0x0000_EEFF, 0xCD00_CDFF, 0x00CD_CDFF, 0xE5E5_E5FF,
        0x8080_80FF, 0xFF00_00FF, 0x00FF_00FF, 0xFFFF_00FF,
        0x5C5C_FFFF, 0xFF00_FFFF, 0x00FF_FFFF, 0xFFFF_FFFF,
    ];
    assert(palette@ =~= standard_colors());
    palette[(idx % 16) as usize]
}

/// The brightness of a step of the color cube.
fn cube_step(step: u32) -> (level: u32)
    requires
        step < 6,
    ensures
        level == cube_level(step as int),
{
    if step == 0 {
        0
    } else {
        55 + 40 * step
    }
}

/// xterm 256-color palette. 0 to 15 are the standard colors, 16 to 231 a
/// 6x6x6 cube, 232 to 255 grays.
pub fn palette_256(idx: u8) -> (color: u32)
    ensures
        color == palette_256_spec(idx),
{
    if idx < 16 {
        return palette_color(idx);
    }
    if idx >= 232 {
        let level: u32 = 8 + 10 * (idx as u32 - 232);
        return (level << 24u32) | (level << 16u32) | (level << 8u32) | 0xFFu32;
    }
    let i: u32 = idx as u32 - 16;
    let r: u32 = cube_step(i / 36);
    let g: u32 = cube_step((i / 6) % 6);
    let b: u32 = cube_step(i % 6);
    (r << 24u32) | (g << 16u32) | (b << 8u32) | 0xFFu32
}

/// The pen after one code that stands for itself. Codes that mean nothing
/// leave it as it is.
pub open spec fn simple_code(pen: Pen, code: u16) -> Pen {
    if code == 0 {
        default_pen()
    } else if code == 1 || code == 22 {
        Pen { attrs: CellAttrs { bold: code == 1, ..pen.attrs }, ..pen }
    } else if code == 4 || code == 24 {
        Pen { attrs: CellAttrs { underline: code == 4, ..pen.attrs }, ..pen }
    } else if code == 7 || code == 27 {
        Pen { attrs: CellAttrs { reverse: code == 7, ..pen.attrs }, ..pen }
    } else if 30 <= code <= 37 {
        Pen { fg: standard_colors()[code - 30], ..pen }
    } else if 90 <= code <= 97 {
        Pen { fg: standard_colors()[code - 90 + 8], ..pen }
    } else if 40 <= code <= 47 {
        Pen { bg: standard_colors()[code - 40], ..pen }
    } else if 100 <= code <= 107 {
        Pen { bg: standard_colors()[code - 100 + 8], ..pen }
    } else if code == 39 {
        Pen { fg: DEFAULT_FG, ..pen }
    } else if code == 49 {
        Pen { bg: DEFAULT_BG, ..pen }
    } else {
        pen
    }
}

/// The pen with another foreground (code 38) or background (code 48).
pub open spec fn with_color(pen: Pen, code: u16, color: u32) -> Pen {
    if code == 38 {
        Pen { fg: color, ..pen }
    } else {
        Pen { bg: color, ..pen }
    }
}

/// The pen after a list of codes, read from the front. Code 38 (foreground)
/// and 48 (background) are followed by `5` and a palette index, or by `2` and
/// a red, a green and a blue part; a list that ends too early ends there.
pub open spec fn codes_applied(pen: Pen, codes: Seq<u16>) -> Pen
    decreases codes.len(),
{
    if codes.len() == 0 {
        pen
    } else if codes[0] != 38 && codes[0] != 48 {
        codes_applied(simple_code(pen, codes[0]), codes.skip(1))
    } else if codes.len() == 1 {
        pen
    } else if codes[1] == 5 {
        if codes.len() < 3 {
            pen
        } else {
            let color = palette_256_spec((codes[2] % 256) as u8);
            codes_applied(with_color(pen, codes[0], color), codes.skip(3))
        }
    } else if codes[1] == 2 {
        if codes.len() < 5 {
            pen
        } else {
            let color = rgb(codes[2] as u32, codes[3] as u32, codes[4] as u32);
            codes_applied(with_color(pen, codes[0], color), codes.skip(5))
        }
    } else {
        codes_applied(pen, codes.skip(1))
    }
}

/// The pen after `CSI ... m` with these codes. No code at all is a reset.
pub open spec fn sgr(pen: Pen, codes: Seq<u16>) -> Pen {
    if codes.len() == 0 {
        default_pen()
    } else {
        codes_applied(pen, codes)
    }
}

/// The pen a terminal starts with.
pub fn initial_pen() -> (pen: Pen)
    ensures
        pen == default_pen(),
{
    Pen { fg: DEFAULT_FG, bg: DEFAULT_BG, attrs: CellAttrs::plain() }
}

/// The pen after one code that stands for itself.
fn apply_simple_code(pen: Pen, code: u16) -> (new_pen: Pen)
    ensures
        new_pen == simple_code(pen, code),
{
    let mut pen = pen;
    if code == 0 {
        pen = initial_pen();
    } else if code == 1 {
        pen.attrs.bold = true;
    } else if code == 4 {
        pen.attrs.underline = true;
    } else if code == 7 {
        pen.attrs.reverse = true;
    } else if code == 22 {
        pen.attrs.bold = false;
    } else if code == 24 {
        pen.attrs.underline = false;
    } else if code == 27 {
        pen.attrs.reverse = false;
    } else if code >= 30 && code <= 37 {
        pen.fg = palette_color((code - 30) as u8);
    } else if code >= 90 && code <= 97 {
        pen.fg = palette_color((code - 90 + 8) as u8);
    } else if code >= 40 && code <= 47 {
        pen.bg = palette_color((code - 40) as u8);
    } else if code >= 100 && code <= 107 {
        pen.bg = palette_color((code - 100 + 8) as u8);
    } else if code == 39 {
        pen.fg = DEFAULT_FG;
    } else if code == 49 {
        pen.bg = DEFAULT_BG;
    }
    pen
}

/// The pen after `CSI ... m` with these codes.
pub fn apply_sgr(pen: Pen, codes: &Vec<u16>) -> (new_pen: Pen)
    ensures
        new_pen == sgr(pen, codes@),
{
    if codes.len() == 0 {
        return initial_pen();
    }
    let mut ink: Pen = pen;
    let mut i: usize = 0;
    assert(codes@.skip(0) =~= codes@);
    while i < codes.len()
        invariant
            i <= codes.len(),
            codes.len() > 0,
            codes_applied(ink, codes@.skip(i as int)) == codes_applied(pen, codes@),
        decreases codes.len() - i,
    {
        let ghost rest = codes@.skip(i as int);
        let code: u16 = codes[i];
        assert(rest[0] == code && rest.skip(1) =~= codes@.skip(i + 1));
        if code == 38 || code == 48 {
            if codes.len() - i < 2 {
                return ink;
            }
            let kind: u16 = codes[i + 1];
            assert(rest[1] == kind);
            if kind == 5 {
                if codes.len() - i < 3 {
                    return ink;
                }
                assert(rest[2] == codes@[i + 2] && rest.skip(3) =~= codes@.skip(i + 3));
                let color: u32 = palette_256((codes[i + 2] % 256) as u8);
                if code == 38 {
                    ink.fg = color;
                } else {
                    ink.bg = color;
                }
                i += 3;
            } else if kind == 2 {
                if codes.len() - i < 5 {
                    return ink;
                }
                assert(rest[2] == codes@[i + 2] && rest[3] == codes@[i + 3] && rest[4] == codes@[i
                    + 4] && rest.skip(5) =~= codes@.skip(i + 5));
                let r: u32 = codes[i + 2] as u32;
                let g: u32 = codes[i + 3] as u32;
                let b: u32 = codes[i + 4] as u32;
                let color: u32 = (r << 24u32) | (g << 16u32) | (b << 8u32) | 0xFFu32;
                if code == 38 {
                    ink.fg = color;
                } else {
                    ink.bg = color;
                }
                i += 5;
            } else {
                i += 1;
            }
        } else {
            ink = apply_simple_code(ink, code);
            i += 1;
        }
    }
    assert(codes@.skip(i as int).len() == 0);
    ink
}

} // verus!
