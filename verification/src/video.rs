//! Video stream facts: the probed source dimensions and the raw frame size.
use vstd::prelude::*;
use crate::text::{
    decimal, is_digit, lemma_decimal_digits, lemma_first_index_of, lemma_parse_decimal,
    trim_end, trim_start,
    chars_of, find_char, first_index_of, parse_u32, parse_u32_chars, sub_chars, trim, trim_chars,
};

verus! {

/// Width assumed when the probe does not report one.
pub const DEFAULT_WIDTH: u32 = 640;

/// Height assumed when the probe does not report one.
pub const DEFAULT_HEIGHT: u32 = 480;

/// The dimensions in a probe report `"<width>,<height>"` (surrounding
/// whitespace ignored): each part that does not parse as `u32` falls back
/// to 640×480, as does a report without a comma.
pub open spec fn probed_dimensions(report: Seq<char>) -> (u32, u32) {
    let t = trim(report);
    let i = first_index_of(t, ',');
    if i == t.len() {
        (DEFAULT_WIDTH, DEFAULT_HEIGHT)
    } else {
        (
            match parse_u32(t.take(i)) {
                Some(w) => w,
                None => DEFAULT_WIDTH,
            },
            match parse_u32(t.skip(i + 1)) {
                Some(h) => h,
                None => DEFAULT_HEIGHT,
            },
        )
    }
}

/// A report written as `<width>,<height>` in decimal is read back as those
/// dimensions.
pub proof fn lemma_probe_roundtrip(w: u32, h: u32)
    ensures
        probed_dimensions(decimal(w as nat) + seq![','] + decimal(h as nat)) == (w, h),
{
    let dw = decimal(w as nat);
    let dh = decimal(h as nat);
    let r = dw + seq![','] + dh;
    lemma_decimal_digits(w as nat);
    lemma_decimal_digits(h as nat);
    lemma_parse_decimal(w);
    lemma_parse_decimal(h);
    assert(is_digit(dw[0]));
    assert(r[0] == dw[0]);
    assert(is_digit(dh[dh.len() - 1]));
    assert(r.last() == dh[dh.len() - 1]);
    assert(trim_start(r) == r);
    assert(trim_end(r) == r);
    assert forall|j: int| 0 <= j < dw.len() implies r[j] != ',' by {
        assert(r[j] == dw[j]);
        assert(is_digit(dw[j]));
    }
    assert(r[dw.len() as int] == ',');
    lemma_first_index_of(r, ',', dw.len() as int);
    assert(r.take(dw.len() as int) =~= dw);
    assert(r.skip(dw.len() as int + 1) =~= dh);
}

/// Reads the source dimensions from a probe report
/// (`ffprobe ... -show_entries stream=width,height -of csv=p=0`).
pub fn parse_dimensions(report: &str) -> (r: (u32, u32))
    ensures
        r == probed_dimensions(report@),
{
    let s = chars_of(report);
    let t = trim_chars(&s);
    let i = find_char(&t, ',');
    if i == t.len() {
        return (DEFAULT_WIDTH, DEFAULT_HEIGHT);
    }
    let w = sub_chars(&t, 0, i);
    let h = sub_chars(&t, i + 1, t.len());
    assert(w@ =~= t@.take(i as int));
    assert(h@ =~= t@.skip(i + 1));
    let width = match parse_u32_chars(&w) {
        Some(v) => v,
        None => DEFAULT_WIDTH,
    };
    let height = match parse_u32_chars(&h) {
        Some(v) => v,
        None => DEFAULT_HEIGHT,
    };
    (width, height)
}

/// Bytes in one raw RGB frame of `tw`×`th` pixels.
pub fn frame_len(tw: u16, th: u16) -> (n: usize)
    requires
        3 * tw * th <= usize::MAX,
    ensures
        n == 3 * tw * th,
{
    assert(tw as usize * th as usize <= 0xFFFF * 0xFFFF) by (nonlinear_arith)
        requires
            tw <= 0xFFFF,
            th <= 0xFFFF,
    ;
    let a = tw as usize * th as usize;
    assert(a * 3 == 3 * tw * th) by (nonlinear_arith)
        requires
            a == tw * th,
    ;
    a * 3
}

} // verus!
