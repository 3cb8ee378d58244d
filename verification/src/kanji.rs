//! Kanji character lookup by visual density and edge direction.
//!
//! Each cell of the image is mapped to a kanji whose stroke density matches
//! the luminance and whose visual texture matches the dominant edge direction.
//!
//! A kanji cell covers `CELL`×`CELL` pixels, split into four 2×2 quadrants.
//! Gradients are measured in quarter luminance units: the horizontal
//! gradient is (sum of the right quadrants) − (sum of the left quadrants),
//! which is four times the difference of the quadrant averages; likewise
//! vertically. Density is measured by the sum of the cell's sixteen
//! luminance values (0..=4080).
use vstd::prelude::*;

verus! {

#[derive(Clone, Copy, PartialEq, Eq, Debug, Structural)]
pub enum Direction {
    /// No strong edge: symmetric/boxy characters.
    Uniform,
    /// — edge
    Horizontal,
    /// | edge
    Vertical,
    /// / edge (lower-left to upper-right)
    DiagRight,
    /// \ edge (upper-left to lower-right)
    DiagLeft,
}

/// Pixel block size per kanji cell (each kanji analyses CELL×CELL source pixels).
pub const CELL: usize = 4;

/// Squared gradient magnitude (in quarter units) below which a cell is
/// "uniform": an average-luminance gradient magnitude of 50, i.e. 200 in
/// quarter units, squared.
pub const MAG_THRESHOLD_SQ: u64 = 40000;

pub open spec fn abs(x: int) -> int {
    if x < 0 {
        -x
    } else {
        x
    }
}

/// The edge direction of a cell with gradient (gx, gy) in quarter units.
pub open spec fn direction_of(gx: int, gy: int) -> Direction {
    if gx * gx + gy * gy < MAG_THRESHOLD_SQ {
        Direction::Uniform
    } else if abs(gx) > 2 * abs(gy) {
        // gradient mostly horizontal: the edge runs vertically
        Direction::Vertical
    } else if abs(gy) > 2 * abs(gx) {
        // gradient mostly vertical: the edge runs horizontally
        Direction::Horizontal
    } else if (gx > 0) == (gy > 0) {
        Direction::DiagRight
    } else {
        Direction::DiagLeft
    }
}

/// Classify the edge direction from the gradient components (gx, gy), given
/// in quarter luminance units.
pub fn classify(gx: i32, gy: i32) -> (d: Direction)
    ensures
        d == direction_of(gx as int, gy as int),
{
    let ax: u64 = if gx < 0 {
        (-(gx as i64)) as u64
    } else {
        gx as u64
    };
    let ay: u64 = if gy < 0 {
        (-(gy as i64)) as u64
    } else {
        gy as u64
    };
    assert(ax * ax <= 0x4000_0000_0000_0000) by (nonlinear_arith)
        requires
            ax <= 0x8000_0000,
    ;
    assert(ay * ay <= 0x4000_0000_0000_0000) by (nonlinear_arith)
        requires
            ay <= 0x8000_0000,
    ;
    assert(ax * ax == gx * gx) by (nonlinear_arith)
        requires
            ax == abs(gx as int),
    ;
    assert(ay * ay == gy * gy) by (nonlinear_arith)
        requires
            ay == abs(gy as int),
    ;
    if ax * ax + ay * ay < MAG_THRESHOLD_SQ {
        Direction::Uniform
    } else if ax > 2 * ay {
        Direction::Vertical
    } else if ay > 2 * ax {
        Direction::Horizontal
    } else if (gx > 0) == (gy > 0) {
        Direction::DiagRight
    } else {
        Direction::DiagLeft
    }
}

/// An edge's direction does not depend on which of its sides is brighter:
/// reversing the gradient keeps the direction.
pub proof fn lemma_direction_ignores_polarity(gx: int, gy: int)
    ensures
        direction_of(-gx, -gy) == direction_of(gx, gy),
{
    assert((-gx) * (-gx) == gx * gx) by (nonlinear_arith);
    assert((-gy) * (-gy) == gy * gy) by (nonlinear_arith);
    if gx * gx + gy * gy >= MAG_THRESHOLD_SQ && gx == 0 && gy == 0 {
        assert(gx * gx == 0) by (nonlinear_arith)
            requires
                gx == 0,
        ;
        assert(gy * gy == 0) by (nonlinear_arith)
            requires
                gy == 0,
        ;
    }
}

/// Density of each table entry, in hundredths (0.00 darkest .. 1.00 brightest).
pub open spec fn level_density(level: int) -> int {
    if level == 0 {
        0
    } else if level == 1 {
        10
    } else if level == 2 {
        20
    } else if level == 3 {
        30
    } else if level == 4 {
        40
    } else if level == 5 {
        50
    } else if level == 6 {
        60
    } else if level == 7 {
        72
    } else if level == 8 {
        85
    } else {
        100
    }
}

/// The table entry chosen for a cell whose sixteen luminance values sum to
/// `lum_sum`: the entry whose density is nearest to `lum_sum / 4080`. At
/// `lum_sum == 204`, which lies exactly between the first two densities, the
/// darker entry is chosen; at `lum_sum == 612`, exactly between 0.10 and
/// 0.20, the brighter one is (as single-precision arithmetic resolves these
/// two ties).
pub open spec fn density_level(lum_sum: int) -> int {
    if lum_sum < 205 {
        0
    } else if lum_sum < 612 {
        1
    } else if lum_sum < 1021 {
        2
    } else if lum_sum < 1429 {
        3
    } else if lum_sum < 1837 {
        4
    } else if lum_sum < 2245 {
        5
    } else if lum_sum < 2693 {
        6
    } else if lum_sum < 3203 {
        7
    } else if lum_sum < 3775 {
        8
    } else {
        9
    }
}

/// The table level for a luminance sum.
pub fn level_of(lum_sum: u32) -> (level: usize)
    ensures
        level == density_level(lum_sum as int),
        level < 10,
{
    if lum_sum < 205 {
        0
    } else if lum_sum < 612 {
        1
    } else if lum_sum < 1021 {
        2
    } else if lum_sum < 1429 {
        3
    } else if lum_sum < 1837 {
        4
    } else if lum_sum < 2245 {
        5
    } else if lum_sum < 2693 {
        6
    } else if lum_sum < 3203 {
        7
    } else if lum_sum < 3775 {
        8
    } else {
        9
    }
}

/// Density distance, scaled: |lum_sum / 4080 − density / 100| · 408000.
pub open spec fn level_distance(lum_sum: int, level: int) -> int {
    abs(100 * lum_sum - 4080 * level_density(level))
}

/// The chosen level is a nearest one: no table entry has a density closer
/// to the cell's average luminance `lum_sum / 4080`.
pub proof fn lemma_level_is_nearest(lum_sum: int, other: int)
    requires
        0 <= lum_sum <= 4080,
        0 <= other < 10,
    ensures
        level_distance(lum_sum, density_level(lum_sum)) <= level_distance(lum_sum, other),
{
}

/// Symmetric / boxy characters for areas with no dominant edge.
pub const UNIFORM: [char; 10] = ['\u{3000}', '。', '口', '日', '目', '田', '面', '里', '圏', '鬱'];

/// Characters with dominant horizontal strokes.
pub const HORIZONTAL: [char; 10] = ['\u{3000}', '一', '二', '三', '工', '王', '亜', '直', '書', '議'];

/// Characters with dominant vertical strokes.
pub const VERTICAL: [char; 10] = ['\u{3000}', '丁', '川', '仙', '竹', '州', '冊', '制', '側', '欄'];

/// Characters with dominant / (right-upward) strokes.
pub const DIAG_RIGHT: [char; 10] = ['\u{3000}', 'ノ', '八', '彡', '杉', '多', '移', '彩', '影', '繊'];

/// Characters with dominant \ (left-downward) strokes.
pub const DIAG_LEFT: [char; 10] = ['\u{3000}', 'し', '入', '之', '久', '反', '及', '後', '投', '醸'];

/// The character table for a direction, darkest first.
pub open spec fn table_of(dir: Direction) -> Seq<char> {
    match dir {
        Direction::Uniform => UNIFORM@,
        Direction::Horizontal => HORIZONTAL@,
        Direction::Vertical => VERTICAL@,
        Direction::DiagRight => DIAG_RIGHT@,
        Direction::DiagLeft => DIAG_LEFT@,
    }
}

/// The kanji for a cell of direction `dir` whose sixteen luminance values
/// sum to `lum_sum`.
pub open spec fn kanji_for(lum_sum: int, dir: Direction) -> char {
    table_of(dir)[density_level(lum_sum)]
}

/// Find the best-matching kanji for a cell's luminance sum and direction.
pub fn lookup(lum_sum: u32, dir: Direction) -> (c: char)
    ensures
        c == kanji_for(lum_sum as int, dir),
{
    let level = level_of(lum_sum);
    match dir {
        Direction::Uniform => UNIFORM[level],
        Direction::Horizontal => HORIZONTAL[level],
        Direction::Vertical => VERTICAL[level],
        Direction::DiagRight => DIAG_RIGHT[level],
        Direction::DiagLeft => DIAG_LEFT[level],
    }
}

} // verus!
