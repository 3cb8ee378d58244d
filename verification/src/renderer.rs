//! Rendering of RGB frames as terminal text.
//!
//! A frame is a row-major buffer of RGB triples, `tw` pixels wide and `th`
//! pixels high. Four modes turn it into characters: `Ascii` (one pixel per
//! cell, a character ramp by luminance), `Color` (two pixels per cell, upper
//! half block with 24-bit foreground and background), `Braille` (2×4 pixels
//! per cell, ordered dithering into braille dots) and `Kanji` (4×4 pixels
//! per cell, a kanji by density and edge direction).
use vstd::prelude::*;
use vstd::arithmetic::power2::*;
use crate::frame::{RgbFrame, triangle_resized};
use crate::kanji::{CELL, classify, direction_of, kanji_for, lookup};
use crate::text::{char_from_u32, decimal, is_scalar_value, push_char, push_decimal};
use crate::rounding::{
    lemma_pow2_facts, lemma_tiny_int_part, round_div, rounded_gt, rounded_gt_exec, rounded_int_part,
    scale_of, significand,
};

verus! {

#[derive(Clone, Copy, PartialEq, Eq, Debug, Structural)]
pub enum Mode {
    Ascii,
    Color,
    Braille,
    Kanji,
}

/// Renders frames in one mode, keeping its output between frames.
pub struct Renderer {
    mode: Mode,
    chars: Vec<char>,
    buf: String,
    lum_buf: Vec<u8>,
}

// ---------------------------------------------------------------------------
// sizes
// ---------------------------------------------------------------------------

/// Pixel rows shown on `rows` terminal rows.
pub open spec fn pixel_rows(mode: Mode, rows: int) -> int {
    match mode {
        Mode::Color => rows * 2,
        Mode::Ascii => rows,
        Mode::Braille => rows * 4,
        Mode::Kanji => rows * 4,
    }
}

/// Pixel columns shown on `cols` terminal columns (a kanji takes two
/// columns and shows 4 pixels).
pub open spec fn pixel_cols(mode: Mode, cols: int) -> int {
    match mode {
        Mode::Braille => cols * 2,
        Mode::Kanji => (cols / 2) * 4,
        _ => cols,
    }
}

/// The pixel size of the terminal fits in `u16`.
pub open spec fn target_size_fits(mode: Mode, cols: int, rows: int) -> bool {
    pixel_cols(mode, cols) <= u16::MAX && pixel_rows(mode, rows) <= u16::MAX
}

/// Numerator of the source aspect ratio over `src_h`: terminal cells are
/// about twice as high as wide, so one-pixel-per-cell `Ascii` halves the
/// source height.
pub open spec fn aspect_num(mode: Mode, src_w: int) -> int {
    if mode == Mode::Ascii {
        2 * src_w
    } else {
        src_w
    }
}

/// `x` saturated to `u32`, at least 1, at most `hi`, cast to `u16`.
pub open spec fn clamp_dim(x: int, hi: int) -> u16 {
    let s = if x > u32::MAX {
        u32::MAX as int
    } else {
        x
    };
    let lo = if s < 1 {
        1
    } else {
        s
    };
    (if lo > hi {
        hi
    } else {
        lo
    }) as u16
}

/// The source is wider than the terminal: its aspect ratio, rounded to
/// binary64, exceeds the terminal's pixel aspect ratio rounded likewise
/// (an empty terminal height is never exceeded; an empty width always is).
pub open spec fn wide_source(mode: Mode, cols: int, rows: int, src_w: int, src_h: int) -> bool {
    let pc = pixel_cols(mode, cols);
    let pr = pixel_rows(mode, rows);
    pr > 0 && (pc == 0 || rounded_gt(
        aspect_num(mode, src_w) as nat,
        src_h as nat,
        pc as nat,
        pr as nat,
    ))
}

/// The pixel size an image of `src_w`×`src_h` is scaled to on a
/// `cols`×`rows` terminal: the terminal pixel size for an empty source;
/// otherwise the source aspect ratio `a` (rounded to binary64) is kept,
/// filling the terminal width (height `pixel_cols / a`) when the source is
/// wider, else its height (width `pixel_rows · a`), each truncated, then
/// clamped to at least 1 and at most the terminal size.
pub open spec fn fit_size(mode: Mode, cols: int, rows: int, src_w: int, src_h: int) -> (u16, u16) {
    let pc = pixel_cols(mode, cols);
    let pr = pixel_rows(mode, rows);
    if src_w == 0 || src_h == 0 {
        (pc as u16, pr as u16)
    } else {
        let an = aspect_num(mode, src_w) as nat;
        let m = significand(an, src_h as nat);
        let p = pow2(scale_of(an, src_h as nat));
        if wide_source(mode, cols, rows, src_w, src_h) {
            (clamp_dim(pc, pc), clamp_dim(rounded_int_part((pc * p) as nat, m) as int, pr))
        } else {
            (clamp_dim(rounded_int_part((pr * m) as nat, p) as int, pc), clamp_dim(pr, pr))
        }
    }
}

fn pixel_rows_of(mode: Mode, rows: u16) -> (r: u32)
    ensures
        r == pixel_rows(mode, rows as int),
{
    match mode {
        Mode::Color => rows as u32 * 2,
        Mode::Ascii => rows as u32,
        Mode::Braille => rows as u32 * 4,
        Mode::Kanji => rows as u32 * 4,
    }
}

fn pixel_cols_of(mode: Mode, cols: u16) -> (r: u32)
    ensures
        r == pixel_cols(mode, cols as int),
{
    match mode {
        Mode::Braille => cols as u32 * 2,
        Mode::Kanji => (cols as u32 / 2) * 4,
        _ => cols as u32,
    }
}

fn clamp_exec(x: u128, hi: u32) -> (r: u16)
    ensures
        r == clamp_dim(x as int, hi as int),
{
    let s: u32 = if x > u32::MAX as u128 {
        u32::MAX
    } else {
        x as u32
    };
    let lo: u32 = if s < 1 {
        1
    } else {
        s
    };
    let v: u32 = if lo > hi {
        hi
    } else {
        lo
    };
    v as u16
}

// ---------------------------------------------------------------------------
// frame text
// ---------------------------------------------------------------------------

pub open spec fn min(a: int, b: int) -> int {
    if a < b {
        a
    } else {
        b
    }
}

/// End of a terminal line: clear to end of line, newline.
pub open spec fn eol() -> Seq<char> {
    "\x1b[0K\r\n"@
}

/// End of a frame: clear to end of line and to end of screen.
pub open spec fn clear_rest() -> Seq<char> {
    "\x1b[0K\x1b[J"@
}

/// Reset all attributes.
pub open spec fn reset() -> Seq<char> {
    "\x1b[0m"@
}

/// Offset of pixel (x, y) in a row-major RGB buffer `tw` pixels wide.
pub open spec fn pixel_offset(tw: int, x: int, y: int) -> int {
    y * (tw * 3) + x * 3
}

/// Luminance approximation (77 R + 150 G + 29 B) / 256, in 0..=255.
pub open spec fn luminance(r: u8, g: u8, b: u8) -> int {
    (r * 77 + g * 150 + b * 29) / 256
}

/// The pixel at `off`, or black when the buffer ends before it.
pub open spec fn rgb_at(rgb: Seq<u8>, off: int) -> (u8, u8, u8) {
    if off + 2 < rgb.len() {
        (rgb[off], rgb[off + 1], rgb[off + 2])
    } else {
        (0, 0, 0)
    }
}

/// The ramp character for pixel (x, y): a space past the end of the
/// buffer, else the ramp entry `luminance · (len − 1) / 255`.
pub open spec fn ascii_cell(ramp: Seq<char>, rgb: Seq<u8>, tw: int, x: int, y: int) -> char {
    let off = pixel_offset(tw, x, y);
    if off + 2 >= rgb.len() {
        ' '
    } else {
        ramp[ramp_index(luminance(rgb[off], rgb[off + 1], rgb[off + 2]), ramp.len() as int)]
    }
}

/// The entry of an `n`-character ramp drawn for luminance `lum`.
pub open spec fn ramp_index(lum: int, n: int) -> int {
    lum * (n - 1) / 255
}

/// The ramp runs from darkest to brightest: black takes its first entry,
/// white its last, and a brighter pixel never takes an earlier entry.
pub proof fn lemma_ramp_darkest_to_brightest(n: int, l1: int, l2: int)
    requires
        n >= 1,
        0 <= l1 <= l2 <= 255,
    ensures
        ramp_index(0, n) == 0,
        ramp_index(255, n) == n - 1,
        0 <= ramp_index(l1, n) <= ramp_index(l2, n) <= n - 1,
{
    assert(l1 * (n - 1) <= l2 * (n - 1)) by (nonlinear_arith)
        requires
            l1 <= l2,
            n >= 1,
    ;
    assert(l2 * (n - 1) <= 255 * (n - 1)) by (nonlinear_arith)
        requires
            l2 <= 255,
            n >= 1,
    ;
    assert(0 <= l1 * (n - 1)) by (nonlinear_arith)
        requires
            l1 >= 0,
            n >= 1,
    ;
    vstd::arithmetic::div_mod::lemma_div_is_ordered(l1 * (n - 1), l2 * (n - 1), 255);
    vstd::arithmetic::div_mod::lemma_div_is_ordered(l2 * (n - 1), 255 * (n - 1), 255);
    vstd::arithmetic::div_mod::lemma_div_multiples_vanish(n - 1, 255);
    vstd::arithmetic::div_mod::lemma_div_pos_is_pos(l1 * (n - 1), 255);
}

pub open spec fn ascii_line(ramp: Seq<char>, rgb: Seq<u8>, tw: int, width: int, y: int) -> Seq<char> {
    Seq::new(width as nat, |x: int| ascii_cell(ramp, rgb, tw, x, y))
}

/// The first `k` of `th` lines of an `Ascii` frame.
pub open spec fn ascii_rows(
    ramp: Seq<char>,
    rgb: Seq<u8>,
    tw: int,
    th: int,
    cols: int,
    k: int,
) -> Seq<char>
    decreases k,
{
    if k <= 0 {
        Seq::empty()
    } else {
        ascii_rows(ramp, rgb, tw, th, cols, k - 1) + ascii_line(ramp, rgb, tw, min(tw, cols), k - 1)
            + (if k < th {
            eol()
        } else {
            Seq::empty()
        })
    }
}

/// `Ascii` frame: one character per pixel, lines clipped to `cols`.
pub open spec fn ascii_frame(ramp: Seq<char>, rgb: Seq<u8>, tw: int, th: int, cols: int) -> Seq<
    char,
> {
    ascii_rows(ramp, rgb, tw, th, cols, th) + clear_rest()
}

/// The colors of the two pixels (upper, lower) shown by half-block cell
/// (x, row).
pub open spec fn half_block_colors(rgb: Seq<u8>, tw: int, x: int, row: int) -> (
    (u8, u8, u8),
    (u8, u8, u8),
) {
    (rgb_at(rgb, pixel_offset(tw, x, 2 * row)), rgb_at(rgb, pixel_offset(tw, x, 2 * row + 1)))
}

/// `r;g;b` in decimal.
pub open spec fn color_params(c: (u8, u8, u8)) -> Seq<char> {
    decimal(c.0 as nat) + seq![';'] + decimal(c.1 as nat) + seq![';'] + decimal(c.2 as nat)
}

/// Set 24-bit foreground and background colors.
pub open spec fn sgr_fg_bg(fg: (u8, u8, u8), bg: (u8, u8, u8)) -> Seq<char> {
    "\x1b[38;2;"@ + color_params(fg) + ";48;2;"@ + color_params(bg) + seq!['m']
}

/// Set a 24-bit foreground color.
pub open spec fn sgr_fg(fg: (u8, u8, u8)) -> Seq<char> {
    "\x1b[38;2;"@ + color_params(fg) + seq!['m']
}

/// Half-block cell (x, row): colors are set at the start of a line and
/// wherever they differ from the previous cell's.
pub open spec fn color_cell(rgb: Seq<u8>, tw: int, x: int, row: int) -> Seq<char> {
    let c = half_block_colors(rgb, tw, x, row);
    (if x == 0 || c != half_block_colors(rgb, tw, x - 1, row) {
        sgr_fg_bg(c.0, c.1)
    } else {
        Seq::empty()
    }).push('\u{2580}')
}

/// The first `k` cells of half-block line `row`.
pub open spec fn color_line(rgb: Seq<u8>, tw: int, row: int, k: int) -> Seq<char>
    decreases k,
{
    if k <= 0 {
        Seq::empty()
    } else {
        color_line(rgb, tw, row, k - 1) + color_cell(rgb, tw, k - 1, row)
    }
}

/// The first `k` of `rows` lines of a `Color` frame.
pub open spec fn color_rows(rgb: Seq<u8>, tw: int, cols: int, rows: int, k: int) -> Seq<char>
    decreases k,
{
    if k <= 0 {
        Seq::empty()
    } else {
        color_rows(rgb, tw, cols, rows, k - 1) + color_line(rgb, tw, k - 1, min(tw, cols)) + reset()
            + (if k < rows {
            eol()
        } else {
            Seq::empty()
        })
    }
}

/// `Color` frame: half blocks, two pixel rows per line, lines clipped to `cols`.
pub open spec fn color_frame(rgb: Seq<u8>, tw: int, th: int, cols: int) -> Seq<char> {
    color_rows(rgb, tw, cols, th / 2, th / 2) + clear_rest()
}


/// 4×4 ordered-dithering thresholds (0..255), row-major: entry
/// `4 · (y mod 4) + (x mod 4)` is the threshold for pixel (x, y).
pub const BAYER4: [u8; 16] = [0, 128, 32, 160, 192, 64, 224, 96, 48, 176, 16, 144, 240, 112, 208, 80];

/// Gamma correction table (gamma 0.6) brightening dark areas, which binary
/// braille dots would otherwise render too black: entry `i` is
/// `trunc(255 · (i / 255)^0.6)` as computed in single precision.
pub const GAMMA: [u8; 256] = [
    0, 9, 13, 17, 21, 24, 26, 29, 31, 34, 36, 38, 40, 42, 44, 46,
    48, 50, 51, 53, 55, 57, 58, 60, 61, 63, 64, 66, 67, 69, 70, 72,
    73, 74, 76, 77, 78, 80, 81, 82, 83, 85, 86, 87, 88, 90, 91, 92,
    93, 94, 95, 97, 98, 99, 100, 101, 102, 103, 104, 105, 107, 108, 109, 110,
    111, 112, 113, 114, 115, 116, 117, 118, 119, 120, 121, 122, 123, 124, 125, 126,
    127, 128, 129, 130, 130, 131, 132, 133, 134, 135, 136, 137, 138, 139, 140, 141,
    141, 142, 143, 144, 145, 146, 147, 148, 148, 149, 150, 151, 152, 153, 153, 154,
    155, 156, 157, 158, 158, 159, 160, 161, 162, 163, 163, 164, 165, 166, 167, 167,
    168, 169, 170, 170, 171, 172, 173, 174, 174, 175, 176, 177, 177, 178, 179, 180,
    180, 181, 182, 183, 183, 184, 185, 186, 186, 187, 188, 189, 189, 190, 191, 192,
    192, 193, 194, 194, 195, 196, 197, 197, 198, 199, 199, 200, 201, 202, 202, 203,
    204, 204, 205, 206, 206, 207, 208, 208, 209, 210, 211, 211, 212, 213, 213, 214,
    215, 215, 216, 217, 217, 218, 219, 219, 220, 221, 221, 222, 223, 223, 224, 225,
    225, 226, 226, 227, 228, 228, 229, 230, 230, 231, 232, 232, 233, 234, 234, 235,
    235, 236, 237, 237, 238, 239, 239, 240, 240, 241, 242, 242, 243, 244, 244, 245,
    245, 246, 247, 247, 248, 248, 249, 250, 250, 251, 251, 252, 253, 253, 254, 255,
];

/// The gamma table never darkens: every entry is at least its index.
pub proof fn lemma_gamma_brightens(i: int)
    requires
        0 <= i < 256,
    ensures
        GAMMA@[i] >= i,
{
}

/// Braille dot `i` (0..8): its column within the 2×4 cell.
pub open spec fn dot_dx(i: int) -> int {
    if i < 4 {
        0
    } else {
        1
    }
}

/// Braille dot `i` (0..8): its row within the 2×4 cell.
pub open spec fn dot_dy(i: int) -> int {
    i % 4
}

/// Braille dot `i` (0..8): its bit in the braille pattern (U+2800 + bits).
pub open spec fn dot_bit(i: int) -> int {
    if i == 0 {
        1
    } else if i == 1 {
        2
    } else if i == 2 {
        4
    } else if i == 3 {
        64
    } else if i == 4 {
        8
    } else if i == 5 {
        16
    } else if i == 6 {
        32
    } else {
        128
    }
}

/// Sum of the bits of the first `k` dots.
pub open spec fn dot_bits_total(k: int) -> int
    decreases k,
{
    if k <= 0 {
        0
    } else {
        dot_bits_total(k - 1) + dot_bit(k - 1)
    }
}

/// The color under dot `i` of braille cell (cx, cy).
pub open spec fn dot_color(rgb: Seq<u8>, tw: int, cx: int, cy: int, i: int) -> (u8, u8, u8) {
    rgb_at(rgb, pixel_offset(tw, 2 * cx + dot_dx(i), 4 * cy + dot_dy(i)))
}

/// Dot `i` of braille cell (cx, cy) is raised: the gamma-corrected
/// luminance under it exceeds its dithering threshold.
pub open spec fn dot_lit(rgb: Seq<u8>, tw: int, cx: int, cy: int, i: int) -> bool {
    let px = 2 * cx + dot_dx(i);
    let py = 4 * cy + dot_dy(i);
    let c = dot_color(rgb, tw, cx, cy, i);
    GAMMA@[luminance(c.0, c.1, c.2)] > BAYER4@[4 * (py % 4) + px % 4]
}

/// Over the first `k` dots of braille cell (cx, cy): the pattern bits of
/// the raised dots, the sums of their red, green and blue, and their count.
pub open spec fn braille_acc(rgb: Seq<u8>, tw: int, cx: int, cy: int, k: int) -> (
    int,
    int,
    int,
    int,
    int,
)
    decreases k,
{
    if k <= 0 {
        (0, 0, 0, 0, 0)
    } else {
        let a = braille_acc(rgb, tw, cx, cy, k - 1);
        if dot_lit(rgb, tw, cx, cy, k - 1) {
            let c = dot_color(rgb, tw, cx, cy, k - 1);
            (a.0 + dot_bit(k - 1), a.1 + c.0, a.2 + c.1, a.3 + c.2, a.4 + 1)
        } else {
            a
        }
    }
}

/// The braille character with pattern `bits`.
pub open spec fn braille_glyph(bits: int) -> char {
    (0x2800 + bits) as char
}

/// Braille cell (cx, cy) given the foreground color in effect before it
/// (`None`: default attributes): its text and the foreground after it. A
/// cell with raised dots takes the average color of those dots, set when it
/// differs from the one in effect; a cell without resets the attributes if
/// a color is in effect.
pub open spec fn braille_cell(rgb: Seq<u8>, tw: int, cx: int, cy: int, cur: Option<(u8, u8, u8)>) -> (
    Seq<char>,
    Option<(u8, u8, u8)>,
) {
    let a = braille_acc(rgb, tw, cx, cy, 8);
    let (prefix, next) = if a.4 > 0 {
        let fg = ((a.1 / a.4) as u8, (a.2 / a.4) as u8, (a.3 / a.4) as u8);
        if cur == Some(fg) {
            (Seq::<char>::empty(), cur)
        } else {
            (sgr_fg(fg), Some(fg))
        }
    } else if cur is Some {
        (reset(), None)
    } else {
        (Seq::<char>::empty(), None)
    };
    (prefix.push(braille_glyph(a.0)), next)
}

/// The first `k` cells of braille line `cy`, and the foreground after them.
pub open spec fn braille_line(rgb: Seq<u8>, tw: int, cy: int, k: int) -> (
    Seq<char>,
    Option<(u8, u8, u8)>,
)
    decreases k,
{
    if k <= 0 {
        (Seq::empty(), None)
    } else {
        let prev = braille_line(rgb, tw, cy, k - 1);
        let cell = braille_cell(rgb, tw, k - 1, cy, prev.1);
        (prev.0 + cell.0, cell.1)
    }
}

/// The first `k` of `rows` lines of a `Braille` frame.
pub open spec fn braille_rows(rgb: Seq<u8>, tw: int, cols: int, rows: int, k: int) -> Seq<char>
    decreases k,
{
    if k <= 0 {
        Seq::empty()
    } else {
        braille_rows(rgb, tw, cols, rows, k - 1) + braille_line(rgb, tw, k - 1, min(tw / 2, cols)).0
            + reset() + (if k < rows {
            eol()
        } else {
            Seq::empty()
        })
    }
}

/// `Braille` frame: one braille character per 2×4 pixels, lines clipped to `cols`.
pub open spec fn braille_frame(rgb: Seq<u8>, tw: int, th: int, cols: int) -> Seq<char> {
    braille_rows(rgb, tw, cols, th / 4, th / 4) + clear_rest()
}

/// Luminance of pixel (x, y), 0 past the end of the buffer.
pub open spec fn lum_or_zero(rgb: Seq<u8>, tw: int, x: int, y: int) -> int {
    let off = pixel_offset(tw, x, y);
    if off + 2 < rgb.len() {
        luminance(rgb[off], rgb[off + 1], rgb[off + 2])
    } else {
        0
    }
}

/// Luminance sum of the 2×2 block at (x0, y0).
pub open spec fn quad_sum(rgb: Seq<u8>, tw: int, x0: int, y0: int) -> int {
    lum_or_zero(rgb, tw, x0, y0) + lum_or_zero(rgb, tw, x0 + 1, y0) + lum_or_zero(rgb, tw, x0, y0 + 1)
        + lum_or_zero(rgb, tw, x0 + 1, y0 + 1)
}

/// Kanji cell (cx, cy): by the luminance sum of its 4×4 block and the
/// direction of the gradient between its quadrants (top-left, top-right,
/// bottom-left, bottom-right).
pub open spec fn kanji_cell(rgb: Seq<u8>, tw: int, cx: int, cy: int) -> char {
    let x0 = 4 * cx;
    let y0 = 4 * cy;
    let q0 = quad_sum(rgb, tw, x0, y0);
    let q1 = quad_sum(rgb, tw, x0 + 2, y0);
    let q2 = quad_sum(rgb, tw, x0, y0 + 2);
    let q3 = quad_sum(rgb, tw, x0 + 2, y0 + 2);
    kanji_for(q0 + q1 + q2 + q3, direction_of((q1 + q3) - (q0 + q2), (q2 + q3) - (q0 + q1)))
}

pub open spec fn kanji_line(rgb: Seq<u8>, tw: int, cy: int, width: int) -> Seq<char> {
    Seq::new(width as nat, |cx: int| kanji_cell(rgb, tw, cx, cy))
}

/// The first `k` of `rows` lines of a `Kanji` frame.
pub open spec fn kanji_lines(rgb: Seq<u8>, tw: int, rows: int, k: int) -> Seq<char>
    decreases k,
{
    if k <= 0 {
        Seq::empty()
    } else {
        kanji_lines(rgb, tw, rows, k - 1) + kanji_line(rgb, tw, k - 1, tw / 4) + (if k < rows {
            eol()
        } else {
            Seq::empty()
        })
    }
}

/// `Kanji` frame: one kanji per 4×4 pixels (each kanji two columns wide).
pub open spec fn kanji_frame(rgb: Seq<u8>, tw: int, th: int) -> Seq<char> {
    kanji_lines(rgb, tw, th / 4, th / 4) + clear_rest()
}


/// The text of a frame `tw`×`th` pixels in `mode`, lines clipped to `cols`
/// (kanji lines are not clipped).
pub open spec fn rendered(mode: Mode, ramp: Seq<char>, rgb: Seq<u8>, tw: int, th: int, cols: int) -> Seq<
    char,
> {
    match mode {
        Mode::Ascii => ascii_frame(ramp, rgb, tw, th, cols),
        Mode::Color => color_frame(rgb, tw, th, cols),
        Mode::Braille => braille_frame(rgb, tw, th, cols),
        Mode::Kanji => kanji_frame(rgb, tw, th),
    }
}

/// The ramp is read only to draw a pixel inside the buffer in `Ascii`
/// mode; an empty ramp cannot draw one.
pub open spec fn ramp_suffices(mode: Mode, ramp_len: int, rgb_len: int, tw: int, th: int, cols: int) -> bool {
    mode == Mode::Ascii && ramp_len == 0 ==> (th == 0 || tw == 0 || cols == 0 || rgb_len < 3)
}

/// Buffer sizes that resampling a `src_w`-wide image to `tw`×`th` needs fit in `usize`.
pub open spec fn resize_fits(src_w: int, tw: int, th: int) -> bool {
    4 * src_w * th <= usize::MAX && 3 * tw * th <= usize::MAX
}

/// The fitted size of a non-empty source never exceeds the terminal's
/// pixel size, is at least one pixel in each direction the terminal has
/// pixels, and fills the terminal in at least one direction.
pub proof fn lemma_fit_within_terminal(mode: Mode, cols: u16, rows: u16, src_w: u32, src_h: u32)
    requires
        src_w > 0,
        src_h > 0,
        target_size_fits(mode, cols as int, rows as int),
    ensures
        ({
            let f = fit_size(mode, cols as int, rows as int, src_w as int, src_h as int);
            let pc = pixel_cols(mode, cols as int);
            let pr = pixel_rows(mode, rows as int);
            &&& f.0 <= pc
            &&& f.1 <= pr
            &&& pc > 0 ==> f.0 >= 1
            &&& pr > 0 ==> f.1 >= 1
            &&& f.0 == pc || f.1 == pr
        }),
{
}

/// Every braille cell's pattern lies in the braille block: its bits are
/// at most 255, so its character is one of U+2800..=U+28FF.
pub proof fn lemma_braille_bits_in_block(rgb: Seq<u8>, tw: int, cx: int, cy: int)
    ensures
        0 <= braille_acc(rgb, tw, cx, cy, 8).0 <= 255,
{
    lemma_braille_bits_bound(rgb, tw, cx, cy, 8);
    reveal_with_fuel(dot_bits_total, 9);
}

proof fn lemma_braille_bits_bound(rgb: Seq<u8>, tw: int, cx: int, cy: int, k: int)
    requires
        0 <= k <= 8,
    ensures
        0 <= braille_acc(rgb, tw, cx, cy, k).0 <= dot_bits_total(k),
    decreases k,
{
    if k > 0 {
        lemma_braille_bits_bound(rgb, tw, cx, cy, k - 1);
    }
}

fn dot(i: usize) -> (r: (usize, usize, u8))
    requires
        i < 8,
    ensures
        r.0 == dot_dx(i as int),
        r.1 == dot_dy(i as int),
        r.2 == dot_bit(i as int),
{
    match i {
        0 => (0, 0, 1),
        1 => (0, 1, 2),
        2 => (0, 2, 4),
        3 => (0, 3, 64),
        4 => (1, 0, 8),
        5 => (1, 1, 16),
        6 => (1, 2, 32),
        _ => (1, 3, 128),
    }
}


proof fn lemma_dot_bits_total(i: int)
    requires
        0 <= i < 8,
    ensures
        dot_bits_total(i) + dot_bit(i) == dot_bits_total(i + 1),
        dot_bits_total(i + 1) <= 255,
{
    reveal_with_fuel(dot_bits_total, 9);
}

/// Whether dot `i` of braille cell (cx, cy) is raised, and its color.
fn dot_sample(rgb: &[u8], tw: usize, th: usize, cx: usize, cy: usize, i: usize) -> (r: (bool, (u8, u8, u8)))
    requires
        tw <= 0xFFFF,
        th <= 0xFFFF,
        cx < tw / 2,
        cy < th / 4,
        i < 8,
    ensures
        r.0 == dot_lit(rgb@, tw as int, cx as int, cy as int, i as int),
        r.1 == dot_color(rgb@, tw as int, cx as int, cy as int, i as int),
{
    let (dx, dy, _bit) = dot(i);
    let px = cx * 2 + dx;
    let py = cy * 4 + dy;
    let c = rgb_at_exec(rgb, pixel_off(tw, px, py));
    let l = luminance_exec(c.0, c.1, c.2);
    let g = GAMMA[l as usize];
    let threshold = BAYER4[(py % 4) * 4 + px % 4];
    (g > threshold, c)
}

/// Pattern bits, color sums and count of the raised dots of braille cell (cx, cy).
fn braille_sample(rgb: &[u8], tw: usize, th: usize, cx: usize, cy: usize) -> (r: (u8, u32, u32, u32, u32))
    requires
        tw <= 0xFFFF,
        th <= 0xFFFF,
        cx < tw / 2,
        cy < th / 4,
    ensures
        (r.0 as int, r.1 as int, r.2 as int, r.3 as int, r.4 as int) == braille_acc(
            rgb@,
            tw as int,
            cx as int,
            cy as int,
            8,
        ),
        r.1 <= 255 * r.4,
        r.2 <= 255 * r.4,
        r.3 <= 255 * r.4,
{
    let mut bits: u8 = 0;
    let mut sr: u32 = 0;
    let mut sg: u32 = 0;
    let mut sb: u32 = 0;
    let mut count: u32 = 0;
    let mut i: usize = 0;
    while i < 8
        invariant
            tw <= 0xFFFF,
            th <= 0xFFFF,
            cx < tw / 2,
            cy < th / 4,
            i <= 8,
            (bits as int, sr as int, sg as int, sb as int, count as int) == braille_acc(
                rgb@,
                tw as int,
                cx as int,
                cy as int,
                i as int,
            ),
            count <= i,
            sr <= 255 * count,
            sg <= 255 * count,
            sb <= 255 * count,
            bits <= dot_bits_total(i as int),
        decreases 8 - i,
    {
        let (lit, c) = dot_sample(rgb, tw, th, cx, cy, i);
        let (_dx, _dy, bit) = dot(i);
        proof {
            lemma_dot_bits_total(i as int);
        }
        if lit {
            bits = bits + bit;
            sr = sr + c.0 as u32;
            sg = sg + c.1 as u32;
            sb = sb + c.2 as u32;
            count = count + 1;
        }
        i = i + 1;
    }
    (bits, sr, sg, sb, count)
}

proof fn lemma_row_major_lt(tw: int, yy: int, xx: int, y: int, x: int)
    requires
        0 <= xx < tw,
        0 <= x < tw,
        0 <= yy,
        yy < y || (yy == y && xx < x),
    ensures
        yy * tw + xx < y * tw + x,
{
    if yy < y {
        assert(yy * tw + tw <= y * tw) by (nonlinear_arith)
            requires
                yy < y,
                tw >= 0,
        ;
    }
}

proof fn lemma_row_major_bound(tw: int, th: int, y: int, x: int)
    requires
        0 <= x < tw,
        0 <= y < th,
    ensures
        0 <= y * tw + x < tw * th,
{
    assert(y * tw + x < tw * th) by (nonlinear_arith)
        requires
            0 <= x < tw,
            0 <= y < th,
    ;
    assert(0 <= y * tw) by (nonlinear_arith)
        requires
            0 <= y,
            0 <= tw,
    ;
}

fn pixel_off(tw: usize, x: usize, y: usize) -> (off: u64)
    requires
        tw <= 0xFFFF,
        x <= 0xFFFF,
        y <= 0xFFFF,
    ensures
        off == pixel_offset(tw as int, x as int, y as int),
        off <= 0x4_0000_0000,
{
    assert(y * (tw * 3) <= 0xFFFF * (0xFFFF * 3)) by (nonlinear_arith)
        requires
            tw <= 0xFFFF,
            y <= 0xFFFF,
    ;
    (y as u64) * (tw as u64 * 3) + (x as u64) * 3
}

fn luminance_exec(r: u8, g: u8, b: u8) -> (l: u32)
    ensures
        l == luminance(r, g, b),
        l <= 255,
{
    (r as u32 * 77 + g as u32 * 150 + b as u32 * 29) / 256
}

fn rgb_at_exec(rgb: &[u8], off: u64) -> (c: (u8, u8, u8))
    requires
        off <= 0x4_0000_0000,
    ensures
        c == rgb_at(rgb@, off as int),
{
    if off + 2 < rgb.len() as u64 {
        let o = off as usize;
        (rgb[o], rgb[o + 1], rgb[o + 2])
    } else {
        (0, 0, 0)
    }
}

fn push_color_params(buf: &mut String, c: (u8, u8, u8))
    ensures
        final(buf)@ == old(buf)@ + color_params(c),
{
    push_decimal(buf, c.0 as u32);
    push_char(buf, ';');
    push_decimal(buf, c.1 as u32);
    push_char(buf, ';');
    push_decimal(buf, c.2 as u32);
    assert(buf@ =~= old(buf)@ + color_params(c));
}

fn same_color(a: (u8, u8, u8), b: (u8, u8, u8)) -> (r: bool)
    ensures
        r == (a == b),
{
    a.0 == b.0 && a.1 == b.1 && a.2 == b.2
}

impl Renderer {
    /// The rendering mode.
    pub closed spec fn mode_of(&self) -> Mode {
        self.mode
    }

    /// The character ramp used by `Ascii` mode, darkest first.
    pub closed spec fn ramp(&self) -> Seq<char> {
        self.chars@
    }

    /// The text of the last rendered frame.
    pub closed spec fn frame(&self) -> Seq<char> {
        self.buf@
    }

    pub fn new(mode: Mode, chars: &str) -> (r: Renderer)
        ensures
            r.mode_of() == mode,
            r.ramp() == chars@,
            r.frame() == Seq::<char>::empty(),
    {
        let v = crate::text::chars_of(chars);
        Renderer { mode, chars: v, buf: String::new(), lum_buf: Vec::new() }
    }

    /// The text of the last rendered frame (empty before the first).
    pub fn output(&self) -> (s: &str)
        ensures
            s@ == self.frame(),
    {
        self.buf.as_str()
    }

    /// Calculate the pixel dimensions needed for the terminal size.
    /// In Color mode each cell shows 2 vertical pixels (half blocks); in
    /// Ascii mode 1 pixel; in Braille mode 2×4 pixels; in Kanji mode a
    /// 4×4 block per two columns.
    pub fn target_size(&self, cols: u16, rows: u16) -> (r: (u16, u16))
        requires
            target_size_fits(self.mode_of(), cols as int, rows as int),
        ensures
            r.0 == pixel_cols(self.mode_of(), cols as int),
            r.1 == pixel_rows(self.mode_of(), rows as int),
    {
        match self.mode {
            Mode::Color => (cols, rows * 2),
            Mode::Ascii => (cols, rows),
            Mode::Braille => (cols * 2, rows * 4),
            Mode::Kanji => ((cols / 2) * 4, rows * 4),
        }
    }

    /// Like `target_size`, but fits the source aspect ratio into the terminal.
    pub fn target_size_fit(&self, cols: u16, rows: u16, src_w: u32, src_h: u32) -> (r: (u16, u16))
        requires
            src_w == 0 || src_h == 0 ==> target_size_fits(self.mode_of(), cols as int, rows as int),
        ensures
            r == fit_size(self.mode_of(), cols as int, rows as int, src_w as int, src_h as int),
    {
        if src_w == 0 || src_h == 0 {
            return self.target_size(cols, rows);
        }
        proof {
            lemma_pow2_facts();
        }
        let mode = self.mode;
        let pr: u32 = pixel_rows_of(mode, rows);
        let pc: u32 = pixel_cols_of(mode, cols);
        let an: u128 = if mode == Mode::Ascii {
            2 * src_w as u128
        } else {
            src_w as u128
        };
        let sh: u128 = src_h as u128;
        assert(an < pow2(53) * sh);
        let a = round_div(an, sh);
        let ghost ta = scale_of(an as nat, sh as nat);
        let wide: bool = if pr == 0 {
            false
        } else if pc == 0 {
            true
        } else {
            assert(pc < pow2(53) * pr);
            let t = round_div(pc as u128, pr as u128);
            rounded_gt_exec(a.sig, a.scale, t.sig, t.scale, Ghost(ta), Ghost(scale_of(pc as nat, pr as nat)))
        };
        assert(wide == wide_source(mode, cols as int, rows as int, src_w as int, src_h as int));
        // 2^52 sh <= an 2^ta < 2^53 sh, with 1 <= an < 2^33 and sh < 2^32
        assert(a.scale < 0x20_0000_0000_0000_0000_0000) by (nonlinear_arith)
            requires
                a.scale <= an * a.scale,
                an * a.scale < 0x20_0000_0000_0000 * sh,
                sh <= 0xffff_ffff,
        ;
        assert(a.scale > 0x8_0000) by (nonlinear_arith)
            requires
                0x10_0000_0000_0000 * sh <= an * a.scale,
                sh >= 1,
                an < 0x2_0000_0000,
        ;
        if wide {
            let th: u128 = if pc == 0 {
                0
            } else {
                assert(pc as u128 * a.scale <= 0x2_0000 * 0x20_0000_0000_0000_0000_0000) by (nonlinear_arith)
                    requires
                        pc <= 0x2_0000,
                        a.scale < 0x20_0000_0000_0000_0000_0000,
                ;
                let n: u128 = pc as u128 * a.scale;
                assert(n < pow2(53) * a.sig) by (nonlinear_arith)
                    requires
                        n == pc * a.scale,
                        pc <= 0x2_0000,
                        a.scale < 0x20_0000_0000_0000_0000_0000,
                        a.sig >= 0x10_0000_0000_0000,
                        pow2(53) == 0x20_0000_0000_0000,
                ;
                assert(n >= 1) by (nonlinear_arith)
                    requires
                        n == pc * a.scale,
                        pc >= 1,
                        a.scale >= 1,
                ;
                round_div(n, a.sig).int_part
            };
            (clamp_exec(pc as u128, pc), clamp_exec(th, pr))
        } else {
            let tw: u128 = if pr == 0 {
                0
            } else {
                assert(pr as u128 * a.sig <= 0x40000 * 0x20_0000_0000_0000) by (nonlinear_arith)
                    requires
                        pr <= 0x40000,
                        a.sig <= 0x20_0000_0000_0000,
                ;
                let n: u128 = pr as u128 * a.sig;
                assert(n <= 0x40000 * 0x20_0000_0000_0000) by (nonlinear_arith)
                    requires
                        n == pr * a.sig,
                        pr <= 0x40000,
                        a.sig <= 0x20_0000_0000_0000,
                ;
                assert(n >= 1) by (nonlinear_arith)
                    requires
                        n == pr * a.sig,
                        pr >= 1,
                        a.sig >= 1,
                ;
                if a.scale > 0x800_0000_0000_0000_0000 {
                    proof {
                        lemma_tiny_int_part(n as nat, a.scale as nat);
                    }
                    0
                } else {
                    assert(n < pow2(53) * a.scale) by (nonlinear_arith)
                        requires
                            n <= 0x40000 * 0x20_0000_0000_0000,
                            a.scale > 0x8_0000,
                            pow2(53) == 0x20_0000_0000_0000,
                    ;
                    round_div(n, a.scale).int_part
                }
            };
            (clamp_exec(tw, pc), clamp_exec(pr as u128, pr))
        }
    }

    fn render_ascii(&mut self, tw: usize, th: usize, stride: usize, rgb: &[u8], cols: usize)
        requires
            tw <= 0xFFFF,
            th <= 0xFFFF,
            cols <= 0xFFFF,
            stride == tw * 3,
            old(self).chars@.len() == 0 ==> (th == 0 || tw == 0 || cols == 0 || rgb@.len() < 3),
        ensures
            final(self).buf@ == old(self).buf@ + ascii_frame(
                old(self).chars@,
                rgb@,
                tw as int,
                th as int,
                cols as int,
            ),
            final(self).mode == old(self).mode,
            final(self).chars == old(self).chars,
    {
        let ramp_len = self.chars.len();
        let line_width: usize = if tw < cols {
            tw
        } else {
            cols
        };
        let ghost base = self.buf@;
        let ghost ramp = self.chars@;
        let mut y: usize = 0;
        while y < th
            invariant
                tw <= 0xFFFF,
                th <= 0xFFFF,
                cols <= 0xFFFF,
                ramp == self.chars@,
                ramp_len == ramp.len(),
                line_width == min(tw as int, cols as int),
                ramp.len() == 0 ==> (th == 0 || tw == 0 || cols == 0 || rgb@.len() < 3),
                y <= th,
                self.buf@ == base + ascii_rows(ramp, rgb@, tw as int, th as int, cols as int, y as int),
                self.mode == old(self).mode,
                self.chars == old(self).chars,
            decreases th - y,
        {
            let ghost row_start = self.buf@;
            let mut x: usize = 0;
            while x < line_width
                invariant
                    tw <= 0xFFFF,
                    th <= 0xFFFF,
                    cols <= 0xFFFF,
                    y < th,
                    ramp == self.chars@,
                    ramp_len == ramp.len(),
                    line_width == min(tw as int, cols as int),
                    ramp.len() == 0 ==> (th == 0 || tw == 0 || cols == 0 || rgb@.len() < 3),
                    x <= line_width,
                    self.buf@ == row_start + ascii_line(ramp, rgb@, tw as int, x as int, y as int),
                    self.mode == old(self).mode,
                    self.chars == old(self).chars,
                decreases line_width - x,
            {
                let off = pixel_off(tw, x, y);
                let c: char = if off + 2 >= rgb.len() as u64 {
                    ' '
                } else {
                    let o = off as usize;
                    let l = luminance_exec(rgb[o], rgb[o + 1], rgb[o + 2]);
                    assert(ramp_len >= 1);
                    let lw: u128 = l as u128;
                    let top: u128 = (ramp_len - 1) as u128;
                    assert(lw * top <= 255 * 0xFFFF_FFFF_FFFF_FFFF) by (nonlinear_arith)
                        requires
                            lw <= 255,
                            top <= 0xFFFF_FFFF_FFFF_FFFF,
                    ;
                    let idx128: u128 = lw * top / 255;
                    assert(idx128 < ramp_len) by (nonlinear_arith)
                        requires
                            idx128 == l * (ramp_len - 1) / 255,
                            l <= 255,
                            ramp_len >= 1,
                    ;
                    self.chars[idx128 as usize]
                };
                assert(c == ascii_cell(ramp, rgb@, tw as int, x as int, y as int));
                push_char(&mut self.buf, c);
                x = x + 1;
                assert(ascii_line(ramp, rgb@, tw as int, x as int, y as int) =~= ascii_line(
                    ramp,
                    rgb@,
                    tw as int,
                    (x - 1) as int,
                    y as int,
                ).push(c));
            }
            if y + 1 < th {
                self.buf.append("\x1b[0K\r\n");
            }
            y = y + 1;
            assert(self.buf@ =~= base + ascii_rows(
                ramp,
                rgb@,
                tw as int,
                th as int,
                cols as int,
                y as int,
            ));
        }
        self.buf.append("\x1b[0K\x1b[J");
        assert(self.buf@ =~= base + ascii_frame(ramp, rgb@, tw as int, th as int, cols as int));
    }

    fn render_color(&mut self, tw: usize, th: usize, stride: usize, rgb: &[u8], cols: usize)
        requires
            tw <= 0xFFFF,
            th <= 0xFFFF,
            cols <= 0xFFFF,
            stride == tw * 3,
        ensures
            final(self).buf@ == old(self).buf@ + color_frame(
                rgb@,
                tw as int,
                th as int,
                cols as int,
            ),
            final(self).mode == old(self).mode,
            final(self).chars == old(self).chars,
    {
        let rows = th / 2;
        let line_width: usize = if tw < cols {
            tw
        } else {
            cols
        };
        let ghost base = self.buf@;
        let mut row: usize = 0;
        while row < rows
            invariant
                tw <= 0xFFFF,
                th <= 0xFFFF,
                cols <= 0xFFFF,
                rows == th / 2,
                line_width == min(tw as int, cols as int),
                row <= rows,
                self.buf@ == base + color_rows(rgb@, tw as int, cols as int, rows as int, row as int),
                self.mode == old(self).mode,
                self.chars == old(self).chars,
            decreases rows - row,
        {
            let top_y = row * 2;
            let bot_y = top_y + 1;
            let ghost row_start = self.buf@;
            let mut prev_fg: (u8, u8, u8) = (0, 0, 0);
            let mut prev_bg: (u8, u8, u8) = (0, 0, 0);
            let mut first = true;
            let mut x: usize = 0;
            while x < line_width
                invariant
                    tw <= 0xFFFF,
                    th <= 0xFFFF,
                    cols <= 0xFFFF,
                    row < rows,
                    rows == th / 2,
                    top_y == 2 * row,
                    bot_y == 2 * row + 1,
                    line_width == min(tw as int, cols as int),
                    x <= line_width,
                    first == (x == 0),
                    x > 0 ==> (prev_fg, prev_bg) == half_block_colors(
                        rgb@,
                        tw as int,
                        x - 1,
                        row as int,
                    ),
                    self.buf@ == row_start + color_line(rgb@, tw as int, row as int, x as int),
                    self.mode == old(self).mode,
                    self.chars == old(self).chars,
                decreases line_width - x,
            {
                let fg = rgb_at_exec(rgb, pixel_off(tw, x, top_y));
                let bg = rgb_at_exec(rgb, pixel_off(tw, x, bot_y));
                let ghost cell_start = self.buf@;
                if first || !same_color(fg, prev_fg) || !same_color(bg, prev_bg) {
                    self.buf.append("\x1b[38;2;");
                    push_color_params(&mut self.buf, fg);
                    self.buf.append(";48;2;");
                    push_color_params(&mut self.buf, bg);
                    push_char(&mut self.buf, 'm');
                    prev_fg = fg;
                    prev_bg = bg;
                    first = false;
                }
                push_char(&mut self.buf, '\u{2580}');
                assert(self.buf@ =~= cell_start + color_cell(rgb@, tw as int, x as int, row as int));
                x = x + 1;
                prev_fg = fg;
                prev_bg = bg;
                first = false;
            }
            self.buf.append("\x1b[0m");
            if row + 1 < rows {
                self.buf.append("\x1b[0K\r\n");
            }
            row = row + 1;
            assert(self.buf@ =~= base + color_rows(
                rgb@,
                tw as int,
                cols as int,
                rows as int,
                row as int,
            ));
        }
        self.buf.append("\x1b[0K\x1b[J");
        assert(self.buf@ =~= base + color_frame(rgb@, tw as int, th as int, cols as int));
    }

    fn render_braille(&mut self, tw: usize, th: usize, stride: usize, rgb: &[u8], cols: usize)
        requires
            tw <= 0xFFFF,
            th <= 0xFFFF,
            cols <= 0xFFFF,
            stride == tw * 3,
        ensures
            final(self).buf@ == old(self).buf@ + braille_frame(
                rgb@,
                tw as int,
                th as int,
                cols as int,
            ),
            final(self).mode == old(self).mode,
            final(self).chars == old(self).chars,
    {
        let half_w = tw / 2;
        let cell_cols: usize = if half_w < cols {
            half_w
        } else {
            cols
        };
        let cell_rows = th / 4;
        let ghost base = self.buf@;
        let mut cy: usize = 0;
        while cy < cell_rows
            invariant
                tw <= 0xFFFF,
                th <= 0xFFFF,
                cols <= 0xFFFF,
                cell_rows == th / 4,
                cell_cols == min(tw as int / 2, cols as int),
                cy <= cell_rows,
                self.buf@ == base + braille_rows(
                    rgb@,
                    tw as int,
                    cols as int,
                    cell_rows as int,
                    cy as int,
                ),
                self.mode == old(self).mode,
                self.chars == old(self).chars,
            decreases cell_rows - cy,
        {
            let ghost row_start = self.buf@;
            let mut cur: Option<(u8, u8, u8)> = None;
            let mut cx: usize = 0;
            while cx < cell_cols
                invariant
                    tw <= 0xFFFF,
                    th <= 0xFFFF,
                    cy < cell_rows,
                    cell_rows == th / 4,
                    cell_cols == min(tw as int / 2, cols as int),
                    cx <= cell_cols,
                    braille_line(rgb@, tw as int, cy as int, cx as int).1 == cur,
                    self.buf@ == row_start + braille_line(rgb@, tw as int, cy as int, cx as int).0,
                    self.mode == old(self).mode,
                    self.chars == old(self).chars,
                decreases cell_cols - cx,
            {
                let x0 = cx * 2;
                let y0 = cy * 4;
                let (bits, sr, sg, sb, count) = braille_sample(rgb, tw, th, cx, cy);
                let ghost before = self.buf@;
                let ghost a = braille_acc(rgb@, tw as int, cx as int, cy as int, 8);
                if count > 0 {
                    let fg: (u8, u8, u8) = ((sr / count) as u8, (sg / count) as u8, (sb / count) as u8);
                    let changed = match cur {
                        Some(p) => !same_color(p, fg),
                        None => true,
                    };
                    if changed {
                        self.buf.append("\x1b[38;2;");
                        push_color_params(&mut self.buf, fg);
                        push_char(&mut self.buf, 'm');
                        cur = Some(fg);
                    }
                } else if cur.is_some() {
                    self.buf.append("\x1b[0m");
                    cur = None;
                }
                let code: u32 = 0x2800 + bits as u32;
                assert(is_scalar_value(code));
                let ch = match char_from_u32(code) {
                    Some(c) => c,
                    None => ' ',
                };
                push_char(&mut self.buf, ch);
                let ghost prev = braille_line(rgb@, tw as int, cy as int, cx as int);
                let ghost cell = braille_cell(rgb@, tw as int, cx as int, cy as int, prev.1);
                assert(self.buf@ =~= before + cell.0);
                cx = cx + 1;
                assert(self.buf@ =~= row_start + braille_line(rgb@, tw as int, cy as int, cx as int).0);
            }
            self.buf.append("\x1b[0m");
            if cy + 1 < cell_rows {
                self.buf.append("\x1b[0K\r\n");
            }
            cy = cy + 1;
            assert(self.buf@ =~= base + braille_rows(
                rgb@,
                tw as int,
                cols as int,
                cell_rows as int,
                cy as int,
            ));
        }
        self.buf.append("\x1b[0K\x1b[J");
        assert(self.buf@ =~= base + braille_frame(rgb@, tw as int, th as int, cols as int));
    }

    fn render_kanji(&mut self, tw: usize, th: usize, stride: usize, rgb: &[u8])
        requires
            tw <= 0xFFFF,
            th <= 0xFFFF,
            stride == tw * 3,
        ensures
            final(self).buf@ == old(self).buf@ + kanji_frame(rgb@, tw as int, th as int),
            final(self).mode == old(self).mode,
            final(self).chars == old(self).chars,
    {
        let kanji_cols = tw / CELL;
        let kanji_rows = th / CELL;
        assert(tw * th <= 0xFFFF * 0xFFFF) by (nonlinear_arith)
            requires
                tw <= 0xFFFF,
                th <= 0xFFFF,
        ;
        let n = tw * th;
        self.lum_buf.resize(n, 0);
        let mut y: usize = 0;
        while y < th
            invariant
                tw <= 0xFFFF,
                th <= 0xFFFF,
                n == tw * th,
                self.lum_buf@.len() == n,
                y <= th,
                forall|yy: int, xx: int|
                    0 <= yy < y && 0 <= xx < tw ==> #[trigger] self.lum_buf@[yy * tw + xx]
                        == lum_or_zero(rgb@, tw as int, xx, yy),
                self.buf@ == old(self).buf@,
                self.mode == old(self).mode,
                self.chars == old(self).chars,
            decreases th - y,
        {
            let mut x: usize = 0;
            while x < tw
                invariant
                    tw <= 0xFFFF,
                    th <= 0xFFFF,
                    n == tw * th,
                    self.lum_buf@.len() == n,
                    y < th,
                    x <= tw,
                    forall|yy: int, xx: int|
                        (0 <= yy < y && 0 <= xx < tw) || (yy == y && 0 <= xx < x)
                            ==> #[trigger] self.lum_buf@[yy * tw + xx] == lum_or_zero(
                            rgb@,
                            tw as int,
                            xx,
                            yy,
                        ),
                    self.buf@ == old(self).buf@,
                    self.mode == old(self).mode,
                    self.chars == old(self).chars,
                decreases tw - x,
            {
                let off = pixel_off(tw, x, y);
                let v: u8 = if off + 2 < rgb.len() as u64 {
                    let o = off as usize;
                    luminance_exec(rgb[o], rgb[o + 1], rgb[o + 2]) as u8
                } else {
                    0
                };
                proof {
                    lemma_row_major_bound(tw as int, th as int, y as int, x as int);
                }
                let idx = y * tw + x;
                let ghost old_buf = self.lum_buf@;
                self.lum_buf.set(idx, v);
                proof {
                    assert forall|yy: int, xx: int|
                        (0 <= yy < y && 0 <= xx < tw) || (yy == y && 0 <= xx < x + 1)
                            implies #[trigger] self.lum_buf@[yy * tw + xx] == lum_or_zero(
                            rgb@,
                            tw as int,
                            xx,
                            yy,
                        ) by {
                        if yy == y && xx == x {
                        } else {
                            lemma_row_major_lt(tw as int, yy, xx, y as int, x as int);
                            assert(old_buf[yy * tw + xx] == lum_or_zero(rgb@, tw as int, xx, yy));
                        }
                    }
                }
                x = x + 1;
            }
            y = y + 1;
        }
        let ghost base = self.buf@;
        let mut cy: usize = 0;
        while cy < kanji_rows
            invariant
                tw <= 0xFFFF,
                th <= 0xFFFF,
                kanji_rows == th / 4,
                kanji_cols == tw / 4,
                n == tw * th,
                self.lum_buf@.len() == n,
                forall|yy: int, xx: int|
                    0 <= yy < th && 0 <= xx < tw ==> #[trigger] self.lum_buf@[yy * tw + xx]
                        == lum_or_zero(rgb@, tw as int, xx, yy),
                cy <= kanji_rows,
                self.buf@ == base + kanji_lines(rgb@, tw as int, kanji_rows as int, cy as int),
                self.mode == old(self).mode,
                self.chars == old(self).chars,
            decreases kanji_rows - cy,
        {
            let ghost row_start = self.buf@;
            let mut cx: usize = 0;
            while cx < kanji_cols
                invariant
                    tw <= 0xFFFF,
                    th <= 0xFFFF,
                    kanji_rows == th / 4,
                    kanji_cols == tw / 4,
                    n == tw * th,
                    self.lum_buf@.len() == n,
                    forall|yy: int, xx: int|
                        0 <= yy < th && 0 <= xx < tw ==> #[trigger] self.lum_buf@[yy * tw + xx]
                            == lum_or_zero(rgb@, tw as int, xx, yy),
                    cy < kanji_rows,
                    cx <= kanji_cols,
                    self.buf@ == row_start + kanji_line(rgb@, tw as int, cy as int, cx as int),
                    self.mode == old(self).mode,
                    self.chars == old(self).chars,
                decreases kanji_cols - cx,
            {
                let x0 = cx * CELL;
                let y0 = cy * CELL;
                let q0 = self.quad(tw, th, x0, y0, Ghost(rgb@));
                let q1 = self.quad(tw, th, x0 + 2, y0, Ghost(rgb@));
                let q2 = self.quad(tw, th, x0, y0 + 2, Ghost(rgb@));
                let q3 = self.quad(tw, th, x0 + 2, y0 + 2, Ghost(rgb@));
                let gx: i32 = (q1 + q3) as i32 - (q0 + q2) as i32;
                let gy: i32 = (q2 + q3) as i32 - (q0 + q1) as i32;
                let dir = classify(gx, gy);
                let ch = lookup(q0 + q1 + q2 + q3, dir);
                assert(ch == kanji_cell(rgb@, tw as int, cx as int, cy as int));
                push_char(&mut self.buf, ch);
                cx = cx + 1;
                assert(kanji_line(rgb@, tw as int, cy as int, cx as int) =~= kanji_line(
                    rgb@,
                    tw as int,
                    cy as int,
                    (cx - 1) as int,
                ).push(ch));
            }
            if cy + 1 < kanji_rows {
                self.buf.append("\x1b[0K\r\n");
            }
            cy = cy + 1;
            assert(self.buf@ =~= base + kanji_lines(rgb@, tw as int, kanji_rows as int, cy as int));
        }
        self.buf.append("\x1b[0K\x1b[J");
        assert(self.buf@ =~= old(self).buf@ + kanji_frame(rgb@, tw as int, th as int));
    }

    /// Luminance sum of the 2×2 block at (x0, y0), read from the luminance buffer.
    fn quad(&self, tw: usize, th: usize, x0: usize, y0: usize, Ghost(rgb): Ghost<Seq<u8>>) -> (q: u32)
        requires
            tw <= 0xFFFF,
            th <= 0xFFFF,
            x0 + 1 < tw,
            y0 + 1 < th,
            self.lum_buf@.len() == tw * th,
            forall|yy: int, xx: int|
                0 <= yy < th && 0 <= xx < tw ==> #[trigger] self.lum_buf@[yy * tw + xx]
                    == lum_or_zero(rgb, tw as int, xx, yy),
        ensures
            q == quad_sum(rgb, tw as int, x0 as int, y0 as int),
            q <= 1020,
    {
        proof {
            lemma_row_major_bound(tw as int, th as int, y0 as int, x0 as int);
            lemma_row_major_bound(tw as int, th as int, y0 as int, x0 + 1);
            lemma_row_major_bound(tw as int, th as int, y0 + 1, x0 as int);
            lemma_row_major_bound(tw as int, th as int, y0 + 1, x0 + 1);
            assert(self.lum_buf@[y0 * tw + x0] == lum_or_zero(rgb, tw as int, x0 as int, y0 as int));
            assert(self.lum_buf@[y0 * tw + (x0 + 1)] == lum_or_zero(rgb, tw as int, x0 + 1, y0 as int));
            assert(self.lum_buf@[(y0 + 1) * tw + x0] == lum_or_zero(rgb, tw as int, x0 as int, y0 + 1));
            assert(self.lum_buf@[(y0 + 1) * tw + (x0 + 1)] == lum_or_zero(rgb, tw as int, x0 + 1, y0 + 1));
        }
        assert(tw * th <= 0xFFFF * 0xFFFF) by (nonlinear_arith)
            requires
                tw <= 0xFFFF,
                th <= 0xFFFF,
        ;
        let r0 = y0 * tw;
        let r1 = (y0 + 1) * tw;
        self.lum_buf[r0 + x0] as u32 + self.lum_buf[r0 + x0 + 1] as u32 + self.lum_buf[r1 + x0] as u32
            + self.lum_buf[r1 + x0 + 1] as u32
    }

    /// Render a raw RGB buffer of `tw`×`th` pixels, lines clipped to `cols`
    /// terminal columns; the text is then in `output()`.
    pub fn render_rgb_buffer(&mut self, rgb: &[u8], tw: u16, th: u16, cols: u16)
        requires
            ramp_suffices(
                old(self).mode_of(),
                old(self).ramp().len() as int,
                rgb@.len() as int,
                tw as int,
                th as int,
                cols as int,
            ),
        ensures
            final(self).mode_of() == old(self).mode_of(),
            final(self).ramp() == old(self).ramp(),
            final(self).frame() == rendered(
                old(self).mode_of(),
                old(self).ramp(),
                rgb@,
                tw as int,
                th as int,
                cols as int,
            ),
    {
        self.buf = String::new();
        let tw = tw as usize;
        let th = th as usize;
        let cols = cols as usize;
        let stride = tw * 3;
        match self.mode {
            Mode::Ascii => {
                self.render_ascii(tw, th, stride, rgb, cols);
            },
            Mode::Color => {
                self.render_color(tw, th, stride, rgb, cols);
            },
            Mode::Braille => {
                self.render_braille(tw, th, stride, rgb, cols);
            },
            Mode::Kanji => {
                self.render_kanji(tw, th, stride, rgb);
            },
        }
        assert(self.buf@ =~= rendered(
            self.mode,
            self.chars@,
            rgb@,
            tw as int,
            th as int,
            cols as int,
        ));
    }

    /// Render a whole image at its own size (its width also bounds the lines).
    pub fn render_frame(&mut self, img: &RgbFrame, _cols: u16)
        requires
            ramp_suffices(
                old(self).mode_of(),
                old(self).ramp().len() as int,
                img.pixels().len() as int,
                img.width_of() as u16 as int,
                img.height_of() as u16 as int,
                img.width_of() as u16 as int,
            ),
        ensures
            final(self).mode_of() == old(self).mode_of(),
            final(self).ramp() == old(self).ramp(),
            final(self).frame() == rendered(
                old(self).mode_of(),
                old(self).ramp(),
                img.pixels(),
                img.width_of() as u16 as int,
                img.height_of() as u16 as int,
                img.width_of() as u16 as int,
            ),
    {
        let width = img.width() as usize;
        let height = img.height() as usize;
        let pixels = img.as_raw();
        self.render_rgb_buffer(pixels, width as u16, height as u16, width as u16)
    }

    /// Scale `img` to fit a `cols`×`rows` terminal, keeping its aspect
    /// ratio, and render it.
    pub fn render_image(&mut self, img: &RgbFrame, cols: u16, rows: u16)
        requires
            img.width_of() == 0 || img.height_of() == 0 ==> target_size_fits(
                old(self).mode_of(),
                cols as int,
                rows as int,
            ),
            ({
                let fit = fit_size(
                    old(self).mode_of(),
                    cols as int,
                    rows as int,
                    img.width_of() as int,
                    img.height_of() as int,
                );
                &&& resize_fits(img.width_of() as int, fit.0 as int, fit.1 as int)
                &&& (old(self).mode_of() == Mode::Ascii && old(self).ramp().len() == 0 ==> fit.0
                    == 0 || fit.1 == 0)
            }),
        ensures
            final(self).mode_of() == old(self).mode_of(),
            final(self).ramp() == old(self).ramp(),
            ({
                let fit = fit_size(
                    old(self).mode_of(),
                    cols as int,
                    rows as int,
                    img.width_of() as int,
                    img.height_of() as int,
                );
                final(self).frame() == rendered(
                    old(self).mode_of(),
                    old(self).ramp(),
                    triangle_resized(
                        img.pixels(),
                        img.width_of(),
                        img.height_of(),
                        fit.0 as u32,
                        fit.1 as u32,
                    ),
                    fit.0 as int,
                    fit.1 as int,
                    fit.0 as int,
                )
            }),
    {
        let (tw, th) = self.target_size_fit(cols, rows, img.width(), img.height());
        let resized = img.resize(tw as u32, th as u32);
        self.render_frame(&resized, cols);
    }
}

} // verus!
