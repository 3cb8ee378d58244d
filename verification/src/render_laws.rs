//! What a rendered frame shows of its pixels, stated directly in terms of
//! the pixel bytes: the luminance weights and where each pixel's ramp
//! character stands, the braille dot numbering and cell colors, the pixel
//! rows behind each half-block line, and the 4×4 block behind each kanji
//! and where it stands.
use vstd::prelude::*;
use crate::renderer::{
    BAYER4, GAMMA, Mode, braille_cell, color_params, color_rows, kanji_cell, kanji_lines, luminance,
    rendered, rgb_at,
};

verus! {

/// Luminance weighs green most and blue least (77, 150 and 29 parts in
/// 256): it is the whole part of `(77 r + 150 g + 29 b) / 256`, a grey
/// keeps its level, and a full primary gives green 149, red 76, blue 28.
pub proof fn lemma_luminance_weights(r: u8, g: u8, b: u8, v: u8)
    ensures
        256 * luminance(r, g, b) <= 77 * r + 150 * g + 29 * b < 256 * luminance(r, g, b) + 256,
        luminance(v, v, v) == v,
        luminance(0, v, 0) >= luminance(v, 0, 0) >= luminance(0, 0, v),
        luminance(0, 255, 0) == 149,
        luminance(255, 0, 0) == 76,
        luminance(0, 0, 255) == 28,
{
    let s = r * 77 + g * 150 + b * 29;
    vstd::arithmetic::div_mod::lemma_fundamental_div_mod(s as int, 256);
    vstd::arithmetic::div_mod::lemma_div_is_ordered(v * 29, v * 77, 256);
    vstd::arithmetic::div_mod::lemma_div_is_ordered(v * 77, v * 150, 256);
    assert((v * 256) / 256 == v as int) by {
        vstd::arithmetic::div_mod::lemma_div_multiples_vanish(v as int, 256);
    }
}

/// A one-pixel `Ascii` frame is the ramp character for the pixel's
/// luminance `(77 r + 150 g + 29 b) / 256`, entry `lum · (len − 1) / 255`,
/// followed by the end-of-frame clear.
pub proof fn lemma_ascii_single_pixel(ramp: Seq<char>, rgb: Seq<u8>, cols: int)
    requires
        ramp.len() >= 1,
        rgb.len() >= 3,
        cols >= 1,
    ensures
        ({
            let lum = (77 * rgb[0] + 150 * rgb[1] + 29 * rgb[2]) / 256;
            rendered(Mode::Ascii, ramp, rgb, 1, 1, cols) == seq![
                ramp[lum * (ramp.len() - 1) / 255],
            ] + "\x1b[0K\x1b[J"@
        }),
{
    let f = rendered(Mode::Ascii, ramp, rgb, 1, 1, cols);
    let lum = (77 * rgb[0] + 150 * rgb[1] + 29 * rgb[2]) / 256;
    assert(luminance(rgb[0], rgb[1], rgb[2]) == lum);
    crate::renderer::lemma_ramp_darkest_to_brightest(ramp.len() as int, lum, lum);
    reveal_with_fuel(crate::renderer::ascii_rows, 2);
    let line = crate::renderer::ascii_line(ramp, rgb, 1, 1, 0);
    assert(line =~= seq![ramp[lum * (ramp.len() - 1) / 255]]);
    assert(crate::renderer::ascii_rows(ramp, rgb, 1, 1, cols, 1) =~= line);
    assert(f =~= seq![ramp[lum * (ramp.len() - 1) / 255]] + "\x1b[0K\x1b[J"@);
}

/// Pixel (px, py) raises its braille dot: its gamma-corrected luminance
/// exceeds the ordered-dithering threshold `BAYER4[4 (py mod 4) + px mod 4]`.
pub open spec fn braille_pixel_on(rgb: Seq<u8>, tw: int, px: int, py: int) -> bool {
    let c = rgb_at(rgb, py * (tw * 3) + px * 3);
    GAMMA@[luminance(c.0, c.1, c.2)] > BAYER4@[4 * (py % 4) + px % 4]
}

/// `bit` when `on`, else nothing.
pub open spec fn bit_if(on: bool, bit: int) -> int {
    if on {
        bit
    } else {
        0
    }
}

/// The braille pattern of cell (cx, cy), in the Unicode dot numbering: the
/// left column, top to bottom, holds dots 1, 2, 3, 7 (bits 0x01, 0x02,
/// 0x04, 0x40), the right column dots 4, 5, 6, 8 (bits 0x08, 0x10, 0x20,
/// 0x80).
pub open spec fn braille_pattern(rgb: Seq<u8>, tw: int, cx: int, cy: int) -> int {
    let x = 2 * cx;
    let y = 4 * cy;
    bit_if(braille_pixel_on(rgb, tw, x, y), 0x01) + bit_if(braille_pixel_on(rgb, tw, x, y + 1), 0x02)
        + bit_if(braille_pixel_on(rgb, tw, x, y + 2), 0x04) + bit_if(
        braille_pixel_on(rgb, tw, x, y + 3),
        0x40,
    ) + bit_if(braille_pixel_on(rgb, tw, x + 1, y), 0x08) + bit_if(
        braille_pixel_on(rgb, tw, x + 1, y + 1),
        0x10,
    ) + bit_if(braille_pixel_on(rgb, tw, x + 1, y + 2), 0x20) + bit_if(
        braille_pixel_on(rgb, tw, x + 1, y + 3),
        0x80,
    )
}

/// Each pixel of a braille cell sets the braille bit of its own position:
/// the cell's character is U+2800 plus its pattern, whatever color was in
/// effect before it.
pub proof fn lemma_braille_dot_numbering(
    rgb: Seq<u8>,
    tw: int,
    cx: int,
    cy: int,
    cur: Option<(u8, u8, u8)>,
)
    ensures
        braille_cell(rgb, tw, cx, cy, cur).0.last() == (0x2800 + braille_pattern(rgb, tw, cx, cy)) as char,
{
    lemma_pattern_is_raised_bits(rgb, tw, cx, cy);
}

#[verifier::spinoff_prover]
proof fn lemma_pattern_is_raised_bits(rgb: Seq<u8>, tw: int, cx: int, cy: int)
    ensures
        crate::renderer::braille_acc(rgb, tw, cx, cy, 8).0 == braille_pattern(rgb, tw, cx, cy),
{
    reveal_with_fuel(crate::renderer::braille_acc, 9);
    let x = 2 * cx;
    let y = 4 * cy;
    let p = |i: int| crate::renderer::braille_acc(rgb, tw, cx, cy, i).0;
    assert(p(1) == bit_if(braille_pixel_on(rgb, tw, x, y), 0x01));
    assert(p(2) == p(1) + bit_if(braille_pixel_on(rgb, tw, x, y + 1), 0x02));
    assert(p(3) == p(2) + bit_if(braille_pixel_on(rgb, tw, x, y + 2), 0x04));
    assert(p(4) == p(3) + bit_if(braille_pixel_on(rgb, tw, x, y + 3), 0x40));
    assert(p(5) == p(4) + bit_if(braille_pixel_on(rgb, tw, x + 1, y), 0x08));
    assert(p(6) == p(5) + bit_if(braille_pixel_on(rgb, tw, x + 1, y + 1), 0x10));
    assert(p(7) == p(6) + bit_if(braille_pixel_on(rgb, tw, x + 1, y + 2), 0x20));
    assert(p(8) == p(7) + bit_if(braille_pixel_on(rgb, tw, x + 1, y + 3), 0x80));
}

/// A 2×4 `Braille` frame is one braille cell: whatever color it sets
/// first, its character is U+2800 plus the cell's pattern, followed by the
/// attribute reset and the end-of-frame clear.
#[verifier::spinoff_prover]
pub proof fn lemma_braille_single_cell(ramp: Seq<char>, rgb: Seq<u8>, cols: int)
    requires
        cols >= 1,
    ensures
        exists|prefix: Seq<char>|
            rendered(Mode::Braille, ramp, rgb, 2, 4, cols) == #[trigger] prefix.push(
                (0x2800 + braille_pattern(rgb, 2, 0, 0)) as char,
            ) + "\x1b[0m"@ + "\x1b[0K\x1b[J"@,
{
    let cell = braille_cell(rgb, 2, 0, 0, None);
    lemma_braille_dot_numbering(rgb, 2, 0, 0, None);
    let glyph = (0x2800 + braille_pattern(rgb, 2, 0, 0)) as char;
    let prefix = cell.0.drop_last();
    assert(cell.0.len() >= 1);
    assert(cell.0 =~= prefix.push(glyph));
    reveal_with_fuel(crate::renderer::braille_rows, 2);
    reveal_with_fuel(crate::renderer::braille_line, 2);
    assert(crate::renderer::braille_line(rgb, 2, 0, 1).0 =~= cell.0);
    assert(crate::renderer::braille_rows(rgb, 2, cols, 1, 1) =~= cell.0 + "\x1b[0m"@);
    assert(rendered(Mode::Braille, ramp, rgb, 2, 4, cols) =~= prefix.push(glyph) + "\x1b[0m"@
        + "\x1b[0K\x1b[J"@);
}

/// The text of a half-block cell that starts a line: foreground the upper
/// pixel, background the lower one, the upper half block, then the reset.
pub open spec fn half_block_line(top: (u8, u8, u8), bottom: (u8, u8, u8)) -> Seq<char> {
    "\x1b[38;2;"@ + color_params(top) + ";48;2;"@ + color_params(bottom) + seq!['m', '\u{2580}']
        + "\x1b[0m"@
}

/// The first `k` of `n` lines of a one-pixel-wide `Color` frame: line `j`
/// shows pixel row `2 j` (bytes `6 j ..`) above pixel row `2 j + 1` (bytes
/// `6 j + 3 ..`); every line but the last ends with a line break.
pub open spec fn column_lines(rgb: Seq<u8>, n: int, k: int) -> Seq<char>
    decreases k,
{
    if k <= 0 {
        Seq::empty()
    } else {
        column_lines(rgb, n, k - 1) + half_block_line(rgb_at(rgb, 6 * (k - 1)), rgb_at(rgb, 6 * (k - 1) + 3))
            + (if k < n {
            "\x1b[0K\r\n"@
        } else {
            Seq::empty()
        })
    }
}

/// In a `Color` frame line `j` shows pixel row `2 j` as foreground and
/// pixel row `2 j + 1` as background, so each of the first `2 (th / 2)`
/// pixel rows is shown once, on line `y / 2`: for a one-pixel-wide image
/// the whole frame is those lines and the end-of-frame clear.
pub proof fn lemma_color_rows_in_pairs(ramp: Seq<char>, rgb: Seq<u8>, th: int, cols: int)
    requires
        cols >= 1,
        th >= 0,
    ensures
        rendered(Mode::Color, ramp, rgb, 1, th, cols) == column_lines(rgb, th / 2, th / 2)
            + "\x1b[0K\x1b[J"@,
{
    lemma_color_column(rgb, cols, th / 2, th / 2);
}

proof fn lemma_color_column(rgb: Seq<u8>, cols: int, n: int, k: int)
    requires
        cols >= 1,
        0 <= k,
    ensures
        color_rows(rgb, 1, cols, n, k) == column_lines(rgb, n, k),
    decreases k,
{
    if k > 0 {
        lemma_color_column(rgb, cols, n, k - 1);
        let row = k - 1;
        let top = rgb_at(rgb, 6 * row);
        let bottom = rgb_at(rgb, 6 * row + 3);
        assert(crate::renderer::pixel_offset(1, 0, 2 * row) == 6 * row);
        assert(crate::renderer::pixel_offset(1, 0, 2 * row + 1) == 6 * row + 3);
        assert(crate::renderer::half_block_colors(rgb, 1, 0, row) == (top, bottom));
        reveal_with_fuel(crate::renderer::color_line, 2);
        assert(crate::renderer::color_line(rgb, 1, row, 1) =~= crate::renderer::sgr_fg_bg(top, bottom).push(
            '\u{2580}',
        ));
        assert(crate::renderer::color_line(rgb, 1, row, 1) + "\x1b[0m"@ =~= half_block_line(top, bottom));
        assert(color_rows(rgb, 1, cols, n, k) =~= column_lines(rgb, n, k));
    }
}

/// Pixel (4 cx + dx, 4 cy + dy) of a `tw`-wide buffer: pixel (dx, dy) of
/// the 4×4 block of kanji cell (cx, cy).
pub open spec fn block_pixel(rgb: Seq<u8>, tw: int, cx: int, cy: int, dx: int, dy: int) -> (u8, u8, u8) {
    rgb_at(rgb, (4 * cy + dy) * (tw * 3) + (4 * cx + dx) * 3)
}

proof fn lemma_pixel_luminance(rgb: Seq<u8>, tw: int, cx: int, cy: int, dx: int, dy: int)
    ensures
        ({
            let c = block_pixel(rgb, tw, cx, cy, dx, dy);
            crate::renderer::lum_or_zero(rgb, tw, 4 * cx + dx, 4 * cy + dy) == luminance(c.0, c.1, c.2)
        }),
{
    assert(luminance(0, 0, 0) == 0);
}

proof fn lemma_same_luminance(rgb1: Seq<u8>, rgb2: Seq<u8>, tw: int, cx: int, cy: int, dx: int, dy: int)
    requires
        block_pixel(rgb1, tw, cx, cy, dx, dy) == block_pixel(rgb2, tw, cx, cy, dx, dy),
    ensures
        crate::renderer::lum_or_zero(rgb1, tw, 4 * cx + dx, 4 * cy + dy) == crate::renderer::lum_or_zero(
            rgb2,
            tw,
            4 * cx + dx,
            4 * cy + dy,
        ),
{
    lemma_pixel_luminance(rgb1, tw, cx, cy, dx, dy);
    lemma_pixel_luminance(rgb2, tw, cx, cy, dx, dy);
}

proof fn lemma_grey_luminance(rgb: Seq<u8>, tw: int, cx: int, cy: int, dx: int, dy: int, v: u8)
    requires
        block_pixel(rgb, tw, cx, cy, dx, dy) == (v, v, v),
    ensures
        crate::renderer::lum_or_zero(rgb, tw, 4 * cx + dx, 4 * cy + dy) == v,
{
    lemma_pixel_luminance(rgb, tw, cx, cy, dx, dy);
    lemma_luminance_weights(v, v, v, v);
}

/// Kanji cell (cx, cy) depends only on the 4×4 pixel block with top-left
/// corner (4 cx, 4 cy): two buffers that agree there give the same kanji,
/// whatever the other pixels hold.
#[verifier::spinoff_prover]
pub proof fn lemma_kanji_cell_reads_its_block(rgb1: Seq<u8>, rgb2: Seq<u8>, tw: int, cx: int, cy: int)
    requires
        forall|dx: int, dy: int|
            0 <= dx < 4 && 0 <= dy < 4 ==> #[trigger] block_pixel(rgb1, tw, cx, cy, dx, dy)
                == block_pixel(rgb2, tw, cx, cy, dx, dy),
    ensures
        kanji_cell(rgb1, tw, cx, cy) == kanji_cell(rgb2, tw, cx, cy),
{
    let x0 = 4 * cx;
    let y0 = 4 * cy;
    lemma_same_luminance(rgb1, rgb2, tw, cx, cy, 0, 0);
    lemma_same_luminance(rgb1, rgb2, tw, cx, cy, 1, 0);
    lemma_same_luminance(rgb1, rgb2, tw, cx, cy, 2, 0);
    lemma_same_luminance(rgb1, rgb2, tw, cx, cy, 3, 0);
    lemma_same_luminance(rgb1, rgb2, tw, cx, cy, 0, 1);
    lemma_same_luminance(rgb1, rgb2, tw, cx, cy, 1, 1);
    lemma_same_luminance(rgb1, rgb2, tw, cx, cy, 2, 1);
    lemma_same_luminance(rgb1, rgb2, tw, cx, cy, 3, 1);
    lemma_same_luminance(rgb1, rgb2, tw, cx, cy, 0, 2);
    lemma_same_luminance(rgb1, rgb2, tw, cx, cy, 1, 2);
    lemma_same_luminance(rgb1, rgb2, tw, cx, cy, 2, 2);
    lemma_same_luminance(rgb1, rgb2, tw, cx, cy, 3, 2);
    lemma_same_luminance(rgb1, rgb2, tw, cx, cy, 0, 3);
    lemma_same_luminance(rgb1, rgb2, tw, cx, cy, 1, 3);
    lemma_same_luminance(rgb1, rgb2, tw, cx, cy, 2, 3);
    lemma_same_luminance(rgb1, rgb2, tw, cx, cy, 3, 3);
    assert(crate::renderer::quad_sum(rgb1, tw, x0 + 0, y0 + 0) == crate::renderer::quad_sum(rgb2, tw, x0 + 0, y0 + 0));
    assert(crate::renderer::quad_sum(rgb1, tw, x0 + 2, y0 + 0) == crate::renderer::quad_sum(rgb2, tw, x0 + 2, y0 + 0));
    assert(crate::renderer::quad_sum(rgb1, tw, x0 + 0, y0 + 2) == crate::renderer::quad_sum(rgb2, tw, x0 + 0, y0 + 2));
    assert(crate::renderer::quad_sum(rgb1, tw, x0 + 2, y0 + 2) == crate::renderer::quad_sum(rgb2, tw, x0 + 2, y0 + 2));
}

/// A kanji cell whose 4×4 block is all white gives the brightest entry
/// of the uniform table.
#[verifier::spinoff_prover]
pub proof fn lemma_white_block_kanji(rgb: Seq<u8>, tw: int, cx: int, cy: int)
    requires
        forall|dx: int, dy: int|
            0 <= dx < 4 && 0 <= dy < 4 ==> #[trigger] block_pixel(rgb, tw, cx, cy, dx, dy) == (
                255u8,
                255u8,
                255u8,
            ),
    ensures
        kanji_cell(rgb, tw, cx, cy) == '鬱',
{
    let x0 = 4 * cx;
    let y0 = 4 * cy;
    lemma_grey_luminance(rgb, tw, cx, cy, 0, 0, 255);
    lemma_grey_luminance(rgb, tw, cx, cy, 1, 0, 255);
    lemma_grey_luminance(rgb, tw, cx, cy, 2, 0, 255);
    lemma_grey_luminance(rgb, tw, cx, cy, 3, 0, 255);
    lemma_grey_luminance(rgb, tw, cx, cy, 0, 1, 255);
    lemma_grey_luminance(rgb, tw, cx, cy, 1, 1, 255);
    lemma_grey_luminance(rgb, tw, cx, cy, 2, 1, 255);
    lemma_grey_luminance(rgb, tw, cx, cy, 3, 1, 255);
    lemma_grey_luminance(rgb, tw, cx, cy, 0, 2, 255);
    lemma_grey_luminance(rgb, tw, cx, cy, 1, 2, 255);
    lemma_grey_luminance(rgb, tw, cx, cy, 2, 2, 255);
    lemma_grey_luminance(rgb, tw, cx, cy, 3, 2, 255);
    lemma_grey_luminance(rgb, tw, cx, cy, 0, 3, 255);
    lemma_grey_luminance(rgb, tw, cx, cy, 1, 3, 255);
    lemma_grey_luminance(rgb, tw, cx, cy, 2, 3, 255);
    lemma_grey_luminance(rgb, tw, cx, cy, 3, 3, 255);
    assert(crate::renderer::quad_sum(rgb, tw, x0 + 0, y0 + 0) == 1020);
    assert(crate::renderer::quad_sum(rgb, tw, x0 + 2, y0 + 0) == 1020);
    assert(crate::renderer::quad_sum(rgb, tw, x0 + 0, y0 + 2) == 1020);
    assert(crate::renderer::quad_sum(rgb, tw, x0 + 2, y0 + 2) == 1020);
    assert(crate::kanji::direction_of(0, 0) == crate::kanji::Direction::Uniform);
    assert(crate::kanji::density_level(4080) == 9);
}

/// In a `Kanji` frame every line holds `tw / 4` kanji and then the
/// six-character line end, so kanji cell (cx, cy) is character
/// `cy · (tw / 4 + 6) + cx` of the frame.
pub proof fn lemma_kanji_frame_layout(
    ramp: Seq<char>,
    rgb: Seq<u8>,
    tw: int,
    th: int,
    cols: int,
    cx: int,
    cy: int,
)
    requires
        0 <= cy < th / 4,
        0 <= cx < tw / 4,
    ensures
        cy * (tw / 4 + 6) + cx < rendered(Mode::Kanji, ramp, rgb, tw, th, cols).len(),
        rendered(Mode::Kanji, ramp, rgb, tw, th, cols)[cy * (tw / 4 + 6) + cx] == kanji_cell(
            rgb,
            tw,
            cx,
            cy,
        ),
{
    let rows = th / 4;
    let w = tw / 4;
    lemma_kanji_lines_layout(rgb, tw, rows, rows);
    let lines = kanji_lines(rgb, tw, rows, rows);
    assert(lines.len() == rows * (w + 6) - 6);
    assert(cy * (w + 6) + cx < rows * (w + 6) - 6) by (nonlinear_arith)
        requires
            0 <= cy < rows,
            0 <= cx < w,
    ;
    assert(kanji_cell(rgb, tw, cx, cy) == lines[cy * (w + 6) + cx]);
}

#[verifier::spinoff_prover]
proof fn lemma_kanji_lines_layout(rgb: Seq<u8>, tw: int, rows: int, k: int)
    requires
        0 <= k <= rows,
        tw / 4 >= 1,
    ensures
        k < rows ==> kanji_lines(rgb, tw, rows, k).len() == k * (tw / 4 + 6),
        k == rows && k > 0 ==> kanji_lines(rgb, tw, rows, k).len() == k * (tw / 4 + 6) - 6,
        forall|j: int, x: int|
            0 <= j < k && 0 <= x < tw / 4 ==> #[trigger] kanji_cell(rgb, tw, x, j) == kanji_lines(
                rgb,
                tw,
                rows,
                k,
            )[j * (tw / 4 + 6) + x],
    decreases k,
{
    reveal_strlit("\x1b[0K\r\n");
    if k > 0 {
        let w = tw / 4;
        lemma_kanji_lines_layout(rgb, tw, rows, k - 1);
        let prev = kanji_lines(rgb, tw, rows, k - 1);
        let line = crate::renderer::kanji_line(rgb, tw, k - 1, w);
        let cur = kanji_lines(rgb, tw, rows, k);
        assert(prev.len() == (k - 1) * (w + 6));
        assert(k * (w + 6) == (k - 1) * (w + 6) + w + 6) by (nonlinear_arith);
        assert forall|j: int, x: int| 0 <= j < k && 0 <= x < w implies #[trigger] kanji_cell(
            rgb,
            tw,
            x,
            j,
        ) == cur[j * (w + 6) + x] by {
            if j < k - 1 {
                assert(j * (w + 6) + x < (k - 1) * (w + 6)) by (nonlinear_arith)
                    requires
                        0 <= j < k - 1,
                        0 <= x < w,
                ;
                assert(j * (w + 6) >= 0) by (nonlinear_arith)
                    requires
                        0 <= j,
                        w >= 1,
                ;
                assert(cur[j * (w + 6) + x] == prev[j * (w + 6) + x]);
            } else {
                assert(j * (w + 6) + x == prev.len() + x);
                assert(cur[j * (w + 6) + x] == line[x]);
            }
        }
    }
}

/// A kanji cell whose block is black in its upper two pixel rows and
/// white in its lower two has a horizontal edge at half density: it gives
/// the horizontal-stroke kanji 王.
#[verifier::spinoff_prover]
pub proof fn lemma_horizontal_edge_kanji(rgb: Seq<u8>, tw: int, cx: int, cy: int)
    requires
        forall|dx: int, dy: int|
            0 <= dx < 4 && 0 <= dy < 2 ==> #[trigger] block_pixel(rgb, tw, cx, cy, dx, dy) == (
                0u8,
                0u8,
                0u8,
            ),
        forall|dx: int, dy: int|
            0 <= dx < 4 && 2 <= dy < 4 ==> #[trigger] block_pixel(rgb, tw, cx, cy, dx, dy) == (
                255u8,
                255u8,
                255u8,
            ),
    ensures
        kanji_cell(rgb, tw, cx, cy) == '王',
{
    let x0 = 4 * cx;
    let y0 = 4 * cy;
    lemma_grey_luminance(rgb, tw, cx, cy, 0, 0, 0);
    lemma_grey_luminance(rgb, tw, cx, cy, 1, 0, 0);
    lemma_grey_luminance(rgb, tw, cx, cy, 2, 0, 0);
    lemma_grey_luminance(rgb, tw, cx, cy, 3, 0, 0);
    lemma_grey_luminance(rgb, tw, cx, cy, 0, 1, 0);
    lemma_grey_luminance(rgb, tw, cx, cy, 1, 1, 0);
    lemma_grey_luminance(rgb, tw, cx, cy, 2, 1, 0);
    lemma_grey_luminance(rgb, tw, cx, cy, 3, 1, 0);
    lemma_grey_luminance(rgb, tw, cx, cy, 0, 2, 255);
    lemma_grey_luminance(rgb, tw, cx, cy, 1, 2, 255);
    lemma_grey_luminance(rgb, tw, cx, cy, 2, 2, 255);
    lemma_grey_luminance(rgb, tw, cx, cy, 3, 2, 255);
    lemma_grey_luminance(rgb, tw, cx, cy, 0, 3, 255);
    lemma_grey_luminance(rgb, tw, cx, cy, 1, 3, 255);
    lemma_grey_luminance(rgb, tw, cx, cy, 2, 3, 255);
    lemma_grey_luminance(rgb, tw, cx, cy, 3, 3, 255);
    assert(crate::renderer::quad_sum(rgb, tw, x0 + 0, y0 + 0) == 0);
    assert(crate::renderer::quad_sum(rgb, tw, x0 + 2, y0 + 0) == 0);
    assert(crate::renderer::quad_sum(rgb, tw, x0 + 0, y0 + 2) == 1020);
    assert(crate::renderer::quad_sum(rgb, tw, x0 + 2, y0 + 2) == 1020);
    assert(crate::kanji::direction_of(0, 2040) == crate::kanji::Direction::Horizontal);
    assert(crate::kanji::density_level(2040) == 5);
}

/// The two pixels that half-block cell (x, row) shows: pixel (x, 2 row)
/// and pixel (x, 2 row + 1).
pub open spec fn row_pair(rgb: Seq<u8>, tw: int, x: int, row: int) -> ((u8, u8, u8), (u8, u8, u8)) {
    (rgb_at(rgb, (2 * row) * (tw * 3) + x * 3), rgb_at(rgb, (2 * row + 1) * (tw * 3) + x * 3))
}

/// The text of the first `k` cells of `Color` line `row` depends only on
/// pixel rows `2 row` and `2 row + 1`: buffers that agree on those pixels
/// give the same text.
pub proof fn lemma_color_line_reads_its_rows(rgb1: Seq<u8>, rgb2: Seq<u8>, tw: int, row: int, k: int)
    requires
        forall|x: int| 0 <= x < k ==> #[trigger] row_pair(rgb1, tw, x, row) == row_pair(rgb2, tw, x, row),
    ensures
        crate::renderer::color_line(rgb1, tw, row, k) == crate::renderer::color_line(rgb2, tw, row, k),
    decreases k,
{
    if k > 0 {
        lemma_color_line_reads_its_rows(rgb1, rgb2, tw, row, k - 1);
        let x = k - 1;
        assert(row_pair(rgb1, tw, x, row) == row_pair(rgb2, tw, x, row));
        assert(crate::renderer::half_block_colors(rgb1, tw, x, row) == row_pair(rgb1, tw, x, row));
        assert(crate::renderer::half_block_colors(rgb2, tw, x, row) == row_pair(rgb2, tw, x, row));
        if x > 0 {
            assert(row_pair(rgb1, tw, x - 1, row) == row_pair(rgb2, tw, x - 1, row));
            assert(crate::renderer::half_block_colors(rgb1, tw, x - 1, row) == row_pair(rgb1, tw, x - 1, row));
            assert(crate::renderer::half_block_colors(rgb2, tw, x - 1, row) == row_pair(rgb2, tw, x - 1, row));
        }
        assert(crate::renderer::color_cell(rgb1, tw, x, row) == crate::renderer::color_cell(rgb2, tw, x, row));
    }
}

/// Every `Color` line opens by setting the foreground to pixel (0, 2 row)
/// and the background to pixel (0, 2 row + 1) before its first half block.
pub proof fn lemma_color_line_opens_with_first_pair(rgb: Seq<u8>, tw: int, row: int, k: int)
    requires
        k >= 1,
    ensures
        ({
            let (top, bottom) = row_pair(rgb, tw, 0, row);
            ("\x1b[38;2;"@ + color_params(top) + ";48;2;"@ + color_params(bottom) + seq!['m', '\u{2580}']).is_prefix_of(
                crate::renderer::color_line(rgb, tw, row, k),
            )
        }),
    decreases k,
{
    let (top, bottom) = row_pair(rgb, tw, 0, row);
    let start = "\x1b[38;2;"@ + color_params(top) + ";48;2;"@ + color_params(bottom) + seq!['m', '\u{2580}'];
    if k == 1 {
        reveal_with_fuel(crate::renderer::color_line, 2);
        assert(crate::renderer::half_block_colors(rgb, tw, 0, row) == (top, bottom));
        assert(crate::renderer::color_line(rgb, tw, row, 1) =~= start);
    } else {
        lemma_color_line_opens_with_first_pair(rgb, tw, row, k - 1);
        let prev = crate::renderer::color_line(rgb, tw, row, k - 1);
        let cur = crate::renderer::color_line(rgb, tw, row, k);
        assert(cur.subrange(0, start.len() as int) =~= prev.subrange(0, start.len() as int));
    }
}

/// The character an `Ascii` frame shows for pixel (x, y) of a `tw`-wide
/// buffer: a space past the end of the buffer, else the ramp entry
/// `lum · (len − 1) / 255` for `lum = (77 r + 150 g + 29 b) / 256`.
pub open spec fn ascii_pixel_char(ramp: Seq<char>, rgb: Seq<u8>, tw: int, x: int, y: int) -> char {
    let off = y * (tw * 3) + x * 3;
    if off + 2 < rgb.len() {
        let lum = (77 * rgb[off] + 150 * rgb[off + 1] + 29 * rgb[off + 2]) / 256;
        ramp[lum * (ramp.len() - 1) / 255]
    } else {
        ' '
    }
}

/// In an `Ascii` frame every line shows one pixel row, clipped to `w =
/// min(tw, cols)` characters and followed by the six-character line end:
/// pixel (x, y) with `x < w` is character `y · (w + 6) + x` of the frame.
pub proof fn lemma_ascii_frame_layout(
    ramp: Seq<char>,
    rgb: Seq<u8>,
    tw: int,
    th: int,
    cols: int,
    x: int,
    y: int,
)
    requires
        0 <= y < th,
        0 <= x < tw,
        x < cols,
    ensures
        ({
            let w = if tw < cols {
                tw
            } else {
                cols
            };
            &&& y * (w + 6) + x < rendered(Mode::Ascii, ramp, rgb, tw, th, cols).len()
            &&& rendered(Mode::Ascii, ramp, rgb, tw, th, cols)[y * (w + 6) + x] == ascii_pixel_char(
                ramp,
                rgb,
                tw,
                x,
                y,
            )
        }),
{
    let w = if tw < cols {
        tw
    } else {
        cols
    };
    lemma_ascii_rows_layout(ramp, rgb, tw, th, cols, th);
    let lines = crate::renderer::ascii_rows(ramp, rgb, tw, th, cols, th);
    assert(y * (w + 6) + x < th * (w + 6) - 6) by (nonlinear_arith)
        requires
            0 <= y < th,
            0 <= x < w,
    ;
    assert(ascii_pixel_char(ramp, rgb, tw, x, y) == lines[y * (w + 6) + x]);
}

#[verifier::spinoff_prover]
proof fn lemma_ascii_rows_layout(ramp: Seq<char>, rgb: Seq<u8>, tw: int, th: int, cols: int, k: int)
    requires
        0 <= k <= th,
        tw >= 1,
        cols >= 1,
    ensures
        ({
            let w = if tw < cols {
                tw
            } else {
                cols
            };
            let rows = crate::renderer::ascii_rows(ramp, rgb, tw, th, cols, k);
            &&& k < th ==> rows.len() == k * (w + 6)
            &&& k == th && k > 0 ==> rows.len() == k * (w + 6) - 6
            &&& forall|j: int, x: int|
                0 <= j < k && 0 <= x < w ==> #[trigger] ascii_pixel_char(ramp, rgb, tw, x, j) == rows[j * (w
                    + 6) + x]
        }),
    decreases k,
{
    reveal_strlit("\x1b[0K\r\n");
    if k > 0 {
        let w = if tw < cols {
            tw
        } else {
            cols
        };
        lemma_ascii_rows_layout(ramp, rgb, tw, th, cols, k - 1);
        let prev = crate::renderer::ascii_rows(ramp, rgb, tw, th, cols, k - 1);
        let line = crate::renderer::ascii_line(ramp, rgb, tw, w, k - 1);
        let cur = crate::renderer::ascii_rows(ramp, rgb, tw, th, cols, k);
        assert(prev.len() == (k - 1) * (w + 6));
        assert(k * (w + 6) == (k - 1) * (w + 6) + w + 6) by (nonlinear_arith);
        assert forall|j: int, x: int| 0 <= j < k && 0 <= x < w implies #[trigger] ascii_pixel_char(
            ramp,
            rgb,
            tw,
            x,
            j,
        ) == cur[j * (w + 6) + x] by {
            if j < k - 1 {
                assert(j * (w + 6) + x < (k - 1) * (w + 6)) by (nonlinear_arith)
                    requires
                        0 <= j < k - 1,
                        0 <= x < w,
                ;
                assert(j * (w + 6) >= 0) by (nonlinear_arith)
                    requires
                        0 <= j,
                        w >= 1,
                ;
                assert(cur[j * (w + 6) + x] == prev[j * (w + 6) + x]);
            } else {
                assert(j * (w + 6) + x == prev.len() + x);
                assert(cur[j * (w + 6) + x] == line[x]);
                assert(crate::renderer::pixel_offset(tw, x, j) == j * (tw * 3) + x * 3);
            }
        }
    }
}

/// Pixel (2 cx + dx, 4 cy + dy) of a `tw`-wide buffer: pixel (dx, dy) of
/// the 2×4 block of braille cell (cx, cy).
pub open spec fn braille_block_pixel(rgb: Seq<u8>, tw: int, cx: int, cy: int, dx: int, dy: int) -> (
    u8,
    u8,
    u8,
) {
    rgb_at(rgb, (4 * cy + dy) * (tw * 3) + (2 * cx + dx) * 3)
}

/// A braille cell is colored by its raised dots: when its eight pixels
/// share one color, a cell drawn from default attributes sets that color
/// as foreground before its character if any dot is raised, and is its
/// character alone if none is; drawn while that color is already in
/// effect, a cell with raised dots is its character alone.
#[verifier::spinoff_prover]
pub proof fn lemma_braille_cell_color(rgb: Seq<u8>, tw: int, cx: int, cy: int, c: (u8, u8, u8))
    requires
        forall|dx: int, dy: int|
            0 <= dx < 2 && 0 <= dy < 4 ==> #[trigger] braille_block_pixel(rgb, tw, cx, cy, dx, dy) == c,
    ensures
        ({
            let pattern = braille_pattern(rgb, tw, cx, cy);
            let glyph = (0x2800 + pattern) as char;
            &&& braille_cell(rgb, tw, cx, cy, None).0 == if pattern == 0 {
                seq![glyph]
            } else {
                "\x1b[38;2;"@ + color_params(c) + seq!['m', glyph]
            }
            &&& pattern != 0 ==> braille_cell(rgb, tw, cx, cy, Some(c)).0 == seq![glyph]
        }),
{
    lemma_uniform_dots(rgb, tw, cx, cy, c);
    lemma_uniform_acc(rgb, tw, cx, cy, c, 8);
    lemma_count_matches_bits(rgb, tw, cx, cy, 8);
    lemma_pattern_is_raised_bits(rgb, tw, cx, cy);
    lemma_uniform_cell(rgb, tw, cx, cy, c);
}

proof fn lemma_uniform_dots(rgb: Seq<u8>, tw: int, cx: int, cy: int, c: (u8, u8, u8))
    requires
        forall|dx: int, dy: int|
            0 <= dx < 2 && 0 <= dy < 4 ==> #[trigger] braille_block_pixel(rgb, tw, cx, cy, dx, dy) == c,
    ensures
        forall|i: int| 0 <= i < 8 ==> crate::renderer::dot_color(rgb, tw, cx, cy, i) == c,
{
    assert forall|i: int| 0 <= i < 8 implies crate::renderer::dot_color(rgb, tw, cx, cy, i) == c by {
        assert(braille_block_pixel(rgb, tw, cx, cy, crate::renderer::dot_dx(i), crate::renderer::dot_dy(i))
            == c);
    }
}

#[verifier::spinoff_prover]
proof fn lemma_uniform_cell(rgb: Seq<u8>, tw: int, cx: int, cy: int, c: (u8, u8, u8))
    requires
        ({
            let a = crate::renderer::braille_acc(rgb, tw, cx, cy, 8);
            &&& a.1 == a.4 * c.0
            &&& a.2 == a.4 * c.1
            &&& a.3 == a.4 * c.2
            &&& a.4 >= 0
            &&& (a.4 == 0 <==> a.0 == 0)
        }),
    ensures
        ({
            let bits = crate::renderer::braille_acc(rgb, tw, cx, cy, 8).0;
            let glyph = (0x2800 + bits) as char;
            &&& braille_cell(rgb, tw, cx, cy, None).0 == if bits == 0 {
                seq![glyph]
            } else {
                "\x1b[38;2;"@ + color_params(c) + seq!['m', glyph]
            }
            &&& bits != 0 ==> braille_cell(rgb, tw, cx, cy, Some(c)).0 == seq![glyph]
        }),
{
    let a = crate::renderer::braille_acc(rgb, tw, cx, cy, 8);
    let glyph = (0x2800 + a.0) as char;
    if a.4 > 0 {
        vstd::arithmetic::div_mod::lemma_div_multiples_vanish(c.0 as int, a.4);
        vstd::arithmetic::div_mod::lemma_div_multiples_vanish(c.1 as int, a.4);
        vstd::arithmetic::div_mod::lemma_div_multiples_vanish(c.2 as int, a.4);
        let fg = ((a.1 / a.4) as u8, (a.2 / a.4) as u8, (a.3 / a.4) as u8);
        assert(fg == c);
        assert(braille_cell(rgb, tw, cx, cy, None).0 =~= "\x1b[38;2;"@ + color_params(c) + seq![
            'm',
            glyph,
        ]);
        assert(braille_cell(rgb, tw, cx, cy, Some(c)).0 =~= seq![glyph]);
    } else {
        assert(braille_cell(rgb, tw, cx, cy, None).0 =~= seq![glyph]);
    }
}

proof fn lemma_uniform_acc(rgb: Seq<u8>, tw: int, cx: int, cy: int, c: (u8, u8, u8), k: int)
    requires
        0 <= k <= 8,
        forall|i: int| 0 <= i < 8 ==> crate::renderer::dot_color(rgb, tw, cx, cy, i) == c,
    ensures
        ({
            let a = crate::renderer::braille_acc(rgb, tw, cx, cy, k);
            &&& a.1 == a.4 * c.0
            &&& a.2 == a.4 * c.1
            &&& a.3 == a.4 * c.2
        }),
    decreases k,
{
    if k > 0 {
        lemma_uniform_acc(rgb, tw, cx, cy, c, k - 1);
        let a = crate::renderer::braille_acc(rgb, tw, cx, cy, k - 1);
        assert(crate::renderer::dot_color(rgb, tw, cx, cy, k - 1) == c);
        assert((a.4 + 1) * c.0 == a.4 * c.0 + c.0) by (nonlinear_arith);
        assert((a.4 + 1) * c.1 == a.4 * c.1 + c.1) by (nonlinear_arith);
        assert((a.4 + 1) * c.2 == a.4 * c.2 + c.2) by (nonlinear_arith);
    }
}

proof fn lemma_count_matches_bits(rgb: Seq<u8>, tw: int, cx: int, cy: int, k: int)
    requires
        0 <= k <= 8,
    ensures
        ({
            let a = crate::renderer::braille_acc(rgb, tw, cx, cy, k);
            &&& a.0 >= 0
            &&& a.4 >= 0
            &&& (a.4 == 0 <==> a.0 == 0)
        }),
    decreases k,
{
    if k > 0 {
        lemma_count_matches_bits(rgb, tw, cx, cy, k - 1);
    }
}

/// A braille cell with no raised dot is its blank character, preceded by
/// an attribute reset when a color was in effect.
pub proof fn lemma_blank_braille_cell(rgb: Seq<u8>, tw: int, cx: int, cy: int, d: (u8, u8, u8))
    requires
        braille_pattern(rgb, tw, cx, cy) == 0,
    ensures
        braille_cell(rgb, tw, cx, cy, None).0 == seq!['\u{2800}'],
        braille_cell(rgb, tw, cx, cy, Some(d)).0 == "\x1b[0m"@.push('\u{2800}'),
{
    lemma_pattern_is_raised_bits(rgb, tw, cx, cy);
    lemma_count_matches_bits(rgb, tw, cx, cy, 8);
    assert(braille_cell(rgb, tw, cx, cy, None).0 =~= seq!['\u{2800}']);
    assert(braille_cell(rgb, tw, cx, cy, Some(d)).0 =~= "\x1b[0m"@.push('\u{2800}'));
}

/// Within a `Color` line a cell whose two pixels have the same colors as
/// the cell before it adds only its half block; one whose colors differ
/// first sets them.
pub proof fn lemma_color_set_on_change(rgb: Seq<u8>, tw: int, row: int, x: int)
    requires
        x >= 1,
    ensures
        ({
            let (top, bottom) = row_pair(rgb, tw, x, row);
            let line = crate::renderer::color_line(rgb, tw, row, x);
            let next = crate::renderer::color_line(rgb, tw, row, x + 1);
            &&& row_pair(rgb, tw, x, row) == row_pair(rgb, tw, x - 1, row) ==> next == line.push('\u{2580}')
            &&& row_pair(rgb, tw, x, row) != row_pair(rgb, tw, x - 1, row) ==> next == line + "\x1b[38;2;"@
                + color_params(top) + ";48;2;"@ + color_params(bottom) + seq!['m', '\u{2580}']
        }),
{
    let (top, bottom) = row_pair(rgb, tw, x, row);
    assert(crate::renderer::half_block_colors(rgb, tw, x, row) == row_pair(rgb, tw, x, row));
    assert(crate::renderer::half_block_colors(rgb, tw, x - 1, row) == row_pair(rgb, tw, x - 1, row));
    let line = crate::renderer::color_line(rgb, tw, row, x);
    let next = crate::renderer::color_line(rgb, tw, row, x + 1);
    if row_pair(rgb, tw, x, row) == row_pair(rgb, tw, x - 1, row) {
        assert(next =~= line.push('\u{2580}'));
    } else {
        assert(next =~= line + "\x1b[38;2;"@ + color_params(top) + ";48;2;"@ + color_params(bottom) + seq![
            'm',
            '\u{2580}',
        ]);
    }
}

} // verus!
