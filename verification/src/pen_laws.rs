//! Which colors and attributes a program selects with `CSI ... m`.
use vstd::prelude::*;

use crate::dashboard::CellAttrs;
use crate::sgr::{codes_applied, palette_256_spec, rgb, sgr, standard_colors};
use crate::terminal::Pen;

verus! {

/// A color of a red, a green and a blue part, as a number: one byte for each,
/// and an opaque alpha behind them.
pub open spec fn packed(r: int, g: int, b: int) -> int {
    r * 0x100_0000 + g * 0x1_0000 + b * 0x100 + 0xFF
}

/// Whether a pen has the colors of another one.
pub open spec fn same_colors(pen: Pen, after: Pen) -> bool {
    after.fg == pen.fg && after.bg == pen.bg
}

/// Whether only the foreground changed, to `color`.
pub open spec fn foreground_is(pen: Pen, after: Pen, color: u32) -> bool {
    after.fg == color && after.bg == pen.bg && after.attrs == pen.attrs
}

/// Whether only the background changed, to `color`.
pub open spec fn background_is(pen: Pen, after: Pen, color: u32) -> bool {
    after.bg == color && after.fg == pen.fg && after.attrs == pen.attrs
}

proof fn lemma_rgb(r: u32, g: u32, b: u32)
    requires
        r <= 0xFF,
        g <= 0xFF,
        b <= 0xFF,
    ensures
        rgb(r, g, b) == packed(r as int, g as int, b as int),
{
    assert((r << 24u32) | (g << 16u32) | (b << 8u32) | 0xFFu32 == r * 0x100_0000 + g * 0x1_0000 + b
        * 0x100 + 0xFF) by (bit_vector)
        requires
            r <= 0xFF,
            g <= 0xFF,
            b <= 0xFF,
    ;
}

/// The standard colors count red as one, green as two and blue as four. The
/// second eight are brighter. Plain blue, the grays and bright blue are not
/// quite on the scale of the others.
pub proof fn law_standard_colors(k: int)
    requires
        0 <= k < 16,
    ensures
        ({
            let full: int = if k < 8 {
                0xCD
            } else {
                0xFF
            };
            let r = if k % 2 == 1 {
                full
            } else {
                0
            };
            let g = if k / 2 % 2 == 1 {
                full
            } else {
                0
            };
            let b = if k / 4 % 2 == 1 {
                full
            } else {
                0
            };
            let color = standard_colors()[k];
            &&& standard_colors().len() == 16
            &&& k != 4 && k != 7 && k != 8 && k != 12 ==> color == packed(r, g, b)
            &&& k == 4 ==> color == packed(0, 0, 0xEE)
            &&& k == 7 ==> color == packed(0xE5, 0xE5, 0xE5)
            &&& k == 8 ==> color == packed(0x80, 0x80, 0x80)
            &&& k == 12 ==> color == packed(0x5C, 0x5C, 0xFF)
        }),
{
}

/// The palette of 256 colors holds the standard ones first, then every mix of
/// six steps of red, green and blue, and grays from dark to light at the end.
pub proof fn law_palette_is_a_cube_and_grays(k: u8, r: u8, g: u8, b: u8)
    requires
        r < 6,
        g < 6,
        b < 6,
    ensures
        k < 16 ==> palette_256_spec(k) == standard_colors()[k as int],
        palette_256_spec((16 + 36 * r + 6 * g + b) as u8) == packed(
            if r == 0 {
                0
            } else {
                55 + 40 * r
            },
            if g == 0 {
                0
            } else {
                55 + 40 * g
            },
            if b == 0 {
                0
            } else {
                55 + 40 * b
            },
        ),
        k >= 232 ==> palette_256_spec(k) == packed(
            8 + 10 * (k - 232),
            8 + 10 * (k - 232),
            8 + 10 * (k - 232),
        ),
{
    let i = 36 * r + 6 * g + b;
    assert(i / 36 == r && i / 6 % 6 == g && i % 6 == b);
    lemma_rgb(
        (if r == 0 {
            0
        } else {
            55 + 40 * r
        }) as u32,
        (if g == 0 {
            0
        } else {
            55 + 40 * g
        }) as u32,
        (if b == 0 {
            0
        } else {
            55 + 40 * b
        }) as u32,
    );
    if k >= 232 {
        let level = (8 + 10 * (k - 232)) as u32;
        lemma_rgb(level, level, level);
    }
}

proof fn lemma_one_code(pen: Pen, code: u16)
    requires
        code != 38,
        code != 48,
    ensures
        sgr(pen, seq![code]) == codes_applied(crate::sgr::simple_code(pen, code), Seq::empty()),
{
    let one = seq![code];
    assert(one.skip(1) =~= Seq::<u16>::empty());
}

/// Codes 30 to 37 and 90 to 97 select the foreground, 40 to 47 and 100 to 107
/// the background, from the standard colors; 39 and 49 bring back the ones a
/// terminal starts with. None of them touches anything else.
pub proof fn law_codes_select_colors(pen: Pen, k: int)
    requires
        0 <= k < 8,
    ensures
        foreground_is(pen, sgr(pen, seq![(30 + k) as u16]), standard_colors()[k]),
        foreground_is(pen, sgr(pen, seq![(90 + k) as u16]), standard_colors()[8 + k]),
        background_is(pen, sgr(pen, seq![(40 + k) as u16]), standard_colors()[k]),
        background_is(pen, sgr(pen, seq![(100 + k) as u16]), standard_colors()[8 + k]),
        foreground_is(pen, sgr(pen, seq![39]), 0xE0E0_E0FF),
        background_is(pen, sgr(pen, seq![49]), 0x1018_20FF),
{
    lemma_one_code(pen, (30 + k) as u16);
    lemma_one_code(pen, (40 + k) as u16);
    lemma_one_code(pen, (90 + k) as u16);
    lemma_one_code(pen, (100 + k) as u16);
    lemma_one_code(pen, 39);
    lemma_one_code(pen, 49);
}

/// Codes 1, 4 and 7 switch bold, underline and reverse on, and 22, 24 and 27
/// switch them off, each without touching anything else.
pub proof fn law_codes_switch_attributes(pen: Pen)
    ensures
        ({
            let attrs = pen.attrs;
            let bold = sgr(pen, seq![1]);
            let not_bold = sgr(pen, seq![22]);
            let underline = sgr(pen, seq![4]);
            let not_underline = sgr(pen, seq![24]);
            let reverse = sgr(pen, seq![7]);
            let not_reverse = sgr(pen, seq![27]);
            &&& bold.attrs == (CellAttrs { bold: true, ..attrs })
            &&& not_bold.attrs == (CellAttrs { bold: false, ..attrs })
            &&& underline.attrs == (CellAttrs { underline: true, ..attrs })
            &&& not_underline.attrs == (CellAttrs { underline: false, ..attrs })
            &&& reverse.attrs == (CellAttrs { reverse: true, ..attrs })
            &&& not_reverse.attrs == (CellAttrs { reverse: false, ..attrs })
            &&& same_colors(pen, bold) && same_colors(pen, not_bold)
            &&& same_colors(pen, underline) && same_colors(pen, not_underline)
            &&& same_colors(pen, reverse) && same_colors(pen, not_reverse)
        }),
{
    lemma_one_code(pen, 1);
    lemma_one_code(pen, 4);
    lemma_one_code(pen, 7);
    lemma_one_code(pen, 22);
    lemma_one_code(pen, 24);
    lemma_one_code(pen, 27);
}

/// No code and code zero bring back the colors a terminal starts with, without
/// attributes. Codes that are not known change nothing.
pub proof fn law_reset_and_unknown_codes(pen: Pen, code: u16)
    ensures
        ({
            let start = Pen {
                fg: 0xE0E0_E0FF,
                bg: 0x1018_20FF,
                attrs: CellAttrs { bold: false, underline: false, reverse: false },
            };
            &&& sgr(pen, Seq::empty()) == start
            &&& sgr(pen, seq![0]) == start
        }),
        code != 0 && code != 1 && code != 4 && code != 7 && code != 22 && code != 24 && code != 27
            && !(30 <= code <= 49) && !(90 <= code <= 107) ==> sgr(pen, seq![code]) == pen,
        98 <= code <= 99 ==> sgr(pen, seq![code]) == pen,
{
    lemma_one_code(pen, 0);
    if code != 38 && code != 48 {
        lemma_one_code(pen, code);
    }
}

/// `38 ; 5 ; i` selects color `i` of the palette as foreground and `48 ; 5 ; i`
/// as background; `38 ; 2 ; r ; g ; b` and `48 ; 2 ; r ; g ; b` select the color
/// of those parts. Only the low byte of `i` counts.
pub proof fn law_extended_codes_select_colors(pen: Pen, i: u16, r: u16, g: u16, b: u16)
    ensures
        foreground_is(pen, sgr(pen, seq![38, 5, i]), palette_256_spec((i % 256) as u8)),
        background_is(pen, sgr(pen, seq![48, 5, i]), palette_256_spec((i % 256) as u8)),
        r < 256 && g < 256 && b < 256 ==> {
            let fore = sgr(pen, seq![38, 2, r, g, b]);
            let back = sgr(pen, seq![48, 2, r, g, b]);
            &&& foreground_is(pen, fore, fore.fg)
            &&& fore.fg == packed(r as int, g as int, b as int)
            &&& background_is(pen, back, back.bg)
            &&& back.bg == packed(r as int, g as int, b as int)
        },
{
    reveal_with_fuel(codes_applied, 2);
    assert(seq![38, 5, i].skip(3) =~= Seq::<u16>::empty());
    assert(seq![48, 5, i].skip(3) =~= Seq::<u16>::empty());
    assert(seq![38, 2, r, g, b].skip(5) =~= Seq::<u16>::empty());
    assert(seq![48, 2, r, g, b].skip(5) =~= Seq::<u16>::empty());
    if r < 256 && g < 256 && b < 256 {
        lemma_rgb(r as u32, g as u32, b as u32);
    }
}

/// Codes take effect one after the other, from the first to the last.
pub proof fn law_codes_take_effect_in_order(
    pen: Pen,
    code: u16,
    i: u16,
    r: u16,
    g: u16,
    b: u16,
    rest: Seq<u16>,
)
    requires
        rest.len() > 0,
    ensures
        code != 38 && code != 48 ==> sgr(pen, seq![code] + rest) == sgr(
            sgr(pen, seq![code]),
            rest,
        ),
        code == 38 || code == 48 ==> {
            &&& sgr(pen, seq![code, 5, i] + rest) == sgr(sgr(pen, seq![code, 5, i]), rest)
            &&& sgr(pen, seq![code, 2, r, g, b] + rest) == sgr(
                sgr(pen, seq![code, 2, r, g, b]),
                rest,
            )
        },
{
    if code != 38 && code != 48 {
        let all = seq![code] + rest;
        assert(all[0] == code);
        assert(all.skip(1) =~= rest);
        lemma_one_code(pen, code);
    } else {
        reveal_with_fuel(codes_applied, 2);
        let short = seq![code, 5, i] + rest;
        assert(short[0] == code && short[1] == 5 && short[2] == i);
        assert(short.skip(3) =~= rest);
        assert(seq![code, 5, i].skip(3) =~= Seq::<u16>::empty());
        let long = seq![code, 2, r, g, b] + rest;
        assert(long[0] == code && long[1] == 2 && long[2] == r && long[3] == g && long[4] == b);
        assert(long.skip(5) =~= rest);
        assert(seq![code, 2, r, g, b].skip(5) =~= Seq::<u16>::empty());
    }
}

/// A selection that ends too early selects nothing, and one of an unknown kind
/// is passed over.
pub proof fn law_broken_selections_select_nothing(
    pen: Pen,
    code: u16,
    kind: u16,
    part: Seq<u16>,
)
    requires
        code == 38 || code == 48,
    ensures
        sgr(pen, seq![code]) == pen,
        sgr(pen, seq![code, 5]) == pen,
        part.len() < 3 ==> sgr(pen, seq![code, 2] + part) == pen,
        kind != 2 && kind != 5 ==> sgr(pen, seq![code, kind] + part) == sgr(
            pen,
            seq![kind] + part,
        ),
{
    let cut = seq![code, 2] + part;
    assert(cut[0] == code && cut[1] == 2);
    let odd = seq![code, kind] + part;
    assert(odd[0] == code && odd[1] == kind);
    assert(odd.skip(1) =~= seq![kind] + part);
}

/// A part of a color that does not fit in a byte spills over into the part
/// before it; what does not fit in front is dropped. The color stays opaque.
pub proof fn law_large_parts_spill_over(pen: Pen, r: u16, g: u16, b: u16)
    ensures
        ({
            let color = sgr(pen, seq![38, 2, r, g, b]).fg;
            let back = sgr(pen, seq![48, 2, r, g, b]).bg;
            let red = r as u32;
            let green = g as u32;
            let blue = b as u32;
            &&& color & 0xFF == 0xFF
            &&& (color >> 8) & 0xFF == blue & 0xFF
            &&& (color >> 16) & 0xFF == (green | (blue >> 8)) & 0xFF
            &&& (color >> 24) & 0xFF == (red | (green >> 8)) & 0xFF
            &&& back == color
        }),
{
    reveal_with_fuel(codes_applied, 2);
    assert(seq![38, 2, r, g, b].skip(5) =~= Seq::<u16>::empty());
    assert(seq![48, 2, r, g, b].skip(5) =~= Seq::<u16>::empty());
    let red = r as u32;
    let green = g as u32;
    let blue = b as u32;
    let color = (red << 24u32) | (green << 16u32) | (blue << 8u32) | 0xFFu32;
    assert(color & 0xFF == 0xFF && (color >> 8) & 0xFF == blue & 0xFF && (color >> 16) & 0xFF == (
    green | (blue >> 8)) & 0xFF && (color >> 24) & 0xFF == (red | (green >> 8)) & 0xFF)
        by (bit_vector)
        requires
            color == (red << 24u32) | (green << 16u32) | (blue << 8u32) | 0xFFu32,
            red <= 0xFFFF,
            green <= 0xFFFF,
            blue <= 0xFFFF,
    ;
}

} // verus!
