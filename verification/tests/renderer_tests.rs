use aa_media::frame::RgbFrame;
use aa_media::renderer::{Mode, Renderer, GAMMA};

const MODES: [Mode; 4] = [Mode::Ascii, Mode::Color, Mode::Braille, Mode::Kanji];

/// Single-precision aspect-ratio fit, as a float implementation computes it.
fn fit_reference(mode: Mode, cols: u16, rows: u16, src_w: u32, src_h: u32) -> (u16, u16) {
    let cell = 4u32;
    if src_w == 0 || src_h == 0 {
        return match mode {
            Mode::Color => (cols, rows * 2),
            Mode::Ascii => (cols, rows),
            Mode::Braille => (cols * 2, rows * 4),
            Mode::Kanji => ((cols / 2) * 4, rows * 4),
        };
    }
    let pixel_rows = match mode {
        Mode::Color => rows as u32 * 2,
        Mode::Ascii => rows as u32,
        Mode::Braille => rows as u32 * 4,
        Mode::Kanji => rows as u32 * cell,
    };
    let pixel_cols = match mode {
        Mode::Braille => cols as u32 * 2,
        Mode::Kanji => (cols as u32 / 2) * cell,
        _ => cols as u32,
    };
    let aspect_correction = match mode {
        Mode::Ascii => 0.5,
        _ => 1.0_f64,
    };
    let src_aspect = src_w as f64 / (src_h as f64 * aspect_correction);
    let term_aspect = pixel_cols as f64 / pixel_rows as f64;
    let (tw, th) = if src_aspect > term_aspect {
        (pixel_cols, (pixel_cols as f64 / src_aspect) as u32)
    } else {
        ((pixel_rows as f64 * src_aspect) as u32, pixel_rows)
    };
    (tw.max(1).min(pixel_cols) as u16, th.max(1).min(pixel_rows) as u16)
}

struct Lcg(u64);

impl Lcg {
    fn next(&mut self) -> u64 {
        self.0 = self.0.wrapping_mul(6364136223846793005).wrapping_add(1442695040888963407);
        self.0 >> 33
    }
}

#[test]
fn new_renderer_has_empty_output() {
    let r = Renderer::new(Mode::Ascii, " .:-=+*#%@");
    assert_eq!(r.output(), "");
}

#[test]
fn target_size_per_mode() {
    assert_eq!(Renderer::new(Mode::Color, "").target_size(80, 24), (80, 48));
    assert_eq!(Renderer::new(Mode::Ascii, "").target_size(80, 24), (80, 24));
    assert_eq!(Renderer::new(Mode::Braille, "").target_size(80, 24), (160, 96));
    assert_eq!(Renderer::new(Mode::Kanji, "").target_size(81, 24), (160, 96));
}

#[test]
fn target_size_fit_examples() {
    let r = Renderer::new(Mode::Braille, "");
    // 16:9 source on 80x24 (160x96 pixels): height-limited
    assert_eq!(r.target_size_fit(80, 24, 1920, 1080), (160, 90));
    // tall source: height-limited
    assert_eq!(r.target_size_fit(80, 24, 100, 1000), (9, 96));
    // empty source falls back to the terminal size
    assert_eq!(r.target_size_fit(80, 24, 0, 1080), (160, 96));
    let a = Renderer::new(Mode::Ascii, "");
    // ascii halves the source height
    assert_eq!(a.target_size_fit(80, 24, 100, 100), (48, 24));
    // zero terminal rows
    assert_eq!(a.target_size_fit(80, 0, 100, 100), (1, 0));
}

#[test]
fn target_size_fit_agrees_with_binary64_fit() {
    let mut g = Lcg(12345);
    for _ in 0..200_000 {
        let mode = MODES[(g.next() % 4) as usize];
        let cols = (g.next() % 400) as u16;
        let rows = (g.next() % 200) as u16;
        let src_w = match g.next() % 4 {
            0 => (g.next() % 5000) as u32,
            1 => (g.next() % 100) as u32 + 1,
            2 => g.next() as u32,
            _ => (g.next() % 4000) as u32 * 16,
        };
        let src_h = match g.next() % 4 {
            0 => (g.next() % 5000) as u32,
            1 => (g.next() % 100) as u32 + 1,
            2 => g.next() as u32,
            _ => (g.next() % 4000) as u32 * 9,
        };
        let r = Renderer::new(mode, "");
        assert_eq!(
            r.target_size_fit(cols, rows, src_w, src_h),
            fit_reference(mode, cols, rows, src_w, src_h),
            "{:?} {} {} {} {}",
            mode,
            cols,
            rows,
            src_w,
            src_h
        );
    }
}

#[test]
fn target_size_fit_exact_integer_quotients() {
    // sizes where the exact quotient is an integer but the aspect ratio is
    // not representable: the rounded result is what counts
    for mode in MODES {
        let r = Renderer::new(mode, "");
        for src_w in 1..120u32 {
            for src_h in 1..120u32 {
                for (cols, rows) in [(80u16, 24u16), (160, 45), (33, 7), (200, 60)] {
                    assert_eq!(
                        r.target_size_fit(cols, rows, src_w, src_h),
                        fit_reference(mode, cols, rows, src_w, src_h)
                    );
                }
            }
        }
    }
}

#[test]
fn ascii_frame_text() {
    let mut r = Renderer::new(Mode::Ascii, " .:-=+*#%@");
    // 2x2: black, white / red, gray
    let rgb = [0, 0, 0, 255, 255, 255, 255, 0, 0, 128, 128, 128];
    r.render_rgb_buffer(&rgb, 2, 2, 80);
    // lum: 0 -> ' ', 255 -> '@', red 77*255/256 = 76 -> idx 76*9/255 = 2 -> ':',
    // gray (128*256)/256 = 128 -> idx 128*9/255 = 4 -> '='
    assert_eq!(r.output(), " @\x1b[0K\r\n:=\x1b[0K\x1b[J");
}

#[test]
fn ascii_clips_to_columns_and_blanks_missing_pixels() {
    let mut r = Renderer::new(Mode::Ascii, "ab");
    let rgb = [255u8; 6]; // only two pixels
    r.render_rgb_buffer(&rgb, 3, 2, 2);
    assert_eq!(r.output(), "bb\x1b[0K\r\n  \x1b[0K\x1b[J");
}

#[test]
fn ascii_empty_ramp_with_no_pixels() {
    let mut r = Renderer::new(Mode::Ascii, "");
    r.render_rgb_buffer(&[], 4, 2, 80);
    assert_eq!(r.output(), "    \x1b[0K\r\n    \x1b[0K\x1b[J");
}

#[test]
fn color_frame_sets_colors_only_on_change() {
    let mut r = Renderer::new(Mode::Color, "");
    // 3x2: top row red red blue, bottom row black
    let rgb = [255, 0, 0, 255, 0, 0, 0, 0, 255, 0, 0, 0, 0, 0, 0, 0, 0, 0];
    r.render_rgb_buffer(&rgb, 3, 2, 80);
    assert_eq!(
        r.output(),
        "\x1b[38;2;255;0;0;48;2;0;0;0m\u{2580}\u{2580}\x1b[38;2;0;0;255;48;2;0;0;0m\u{2580}\x1b[0m\x1b[0K\x1b[J"
    );
}

#[test]
fn color_frame_two_lines() {
    let mut r = Renderer::new(Mode::Color, "");
    let rgb = [10u8; 3 * 4];
    r.render_rgb_buffer(&rgb, 1, 4, 80);
    assert_eq!(
        r.output(),
        "\x1b[38;2;10;10;10;48;2;10;10;10m\u{2580}\x1b[0m\x1b[0K\r\n\x1b[38;2;10;10;10;48;2;10;10;10m\u{2580}\x1b[0m\x1b[0K\x1b[J"
    );
}

#[test]
fn braille_white_cell_has_all_dots() {
    let mut r = Renderer::new(Mode::Braille, "");
    let rgb = [255u8; 2 * 4 * 3];
    r.render_rgb_buffer(&rgb, 2, 4, 80);
    assert_eq!(r.output(), "\x1b[38;2;255;255;255m\u{28FF}\x1b[0m\x1b[0K\x1b[J");
}

#[test]
fn braille_black_cells_and_reset() {
    let mut r = Renderer::new(Mode::Braille, "");
    // 4x4: left cell white, right cell black
    let mut rgb = vec![0u8; 4 * 4 * 3];
    for y in 0..4 {
        for x in 0..2 {
            let o = (y * 4 + x) * 3;
            rgb[o] = 255;
            rgb[o + 1] = 255;
            rgb[o + 2] = 255;
        }
    }
    r.render_rgb_buffer(&rgb, 4, 4, 80);
    assert_eq!(
        r.output(),
        "\x1b[38;2;255;255;255m\u{28FF}\x1b[0m\u{2800}\x1b[0m\x1b[0K\x1b[J"
    );
}

#[test]
fn braille_dithers_mid_gray() {
    let mut r = Renderer::new(Mode::Braille, "");
    let rgb = [100u8; 2 * 4 * 3];
    r.render_rgb_buffer(&rgb, 2, 4, 80);
    // lum 100 -> gamma 145; thresholds (x,y): (0,0)=0 (0,1)=192 (0,2)=48 (0,3)=240
    // (1,0)=128 (1,1)=64 (1,2)=176 (1,3)=112: lit (0,0),(0,2),(1,0),(1,1),(1,3)
    let bits = 1 + 4 + 8 + 16 + 128;
    let expected = format!(
        "\x1b[38;2;100;100;100m{}\x1b[0m\x1b[0K\x1b[J",
        char::from_u32(0x2800 + bits).unwrap()
    );
    assert_eq!(r.output(), expected);
}

#[test]
fn gamma_table_matches_single_precision_curve() {
    for i in 0..256usize {
        let v = ((i as f32 / 255.0).powf(0.6) * 255.0) as u8;
        assert_eq!(GAMMA[i], v, "entry {}", i);
        assert!(GAMMA[i] as usize >= i);
    }
}

#[test]
fn kanji_uniform_cells() {
    let mut r = Renderer::new(Mode::Kanji, "");
    // 8x4: left block black, right block white
    let mut rgb = vec![0u8; 8 * 4 * 3];
    for y in 0..4 {
        for x in 4..8 {
            let o = (y * 8 + x) * 3;
            rgb[o] = 255;
            rgb[o + 1] = 255;
            rgb[o + 2] = 255;
        }
    }
    r.render_rgb_buffer(&rgb, 8, 4, 1);
    assert_eq!(r.output(), "\u{3000}鬱\x1b[0K\x1b[J");
}

#[test]
fn kanji_vertical_edge() {
    let mut r = Renderer::new(Mode::Kanji, "");
    // 4x4 with right half white: gradient horizontal, edge vertical
    let mut rgb = vec![0u8; 4 * 4 * 3];
    for y in 0..4 {
        for x in 2..4 {
            let o = (y * 4 + x) * 3;
            rgb[o] = 255;
            rgb[o + 1] = 255;
            rgb[o + 2] = 255;
        }
    }
    r.render_rgb_buffer(&rgb, 4, 4, 80);
    // luminance sum 8 * 255 = 2040 -> level 5
    assert_eq!(r.output(), "州\x1b[0K\x1b[J");
}

#[test]
fn render_frame_uses_image_width() {
    let mut r = Renderer::new(Mode::Ascii, " @");
    let img = RgbFrame::from_raw(2, 1, vec![0, 0, 0, 255, 255, 255]).unwrap();
    r.render_frame(&img, 1);
    assert_eq!(r.output(), " @\x1b[0K\x1b[J");
}

#[test]
fn render_image_scales_to_terminal() {
    let mut r = Renderer::new(Mode::Ascii, " @");
    let img = RgbFrame::from_raw(4, 4, vec![255u8; 4 * 4 * 3]).unwrap();
    // 4x4 source, ascii: aspect 2 -> 10 columns, 5 rows on a 10x24 terminal
    r.render_image(&img, 10, 24);
    let lines: Vec<&str> = r.output().split("\r\n").collect();
    assert_eq!(lines.len(), 5);
    assert_eq!(lines[0], "@@@@@@@@@@\x1b[0K");
}

#[test]
fn output_is_replaced_by_next_frame() {
    let mut r = Renderer::new(Mode::Ascii, " @");
    r.render_rgb_buffer(&[255, 255, 255], 1, 1, 80);
    r.render_rgb_buffer(&[0, 0, 0], 1, 1, 80);
    assert_eq!(r.output(), " \x1b[0K\x1b[J");
}

#[test]
fn ramp_runs_darkest_to_brightest() {
    let ramp = "abcdefg";
    let mut prev = 0usize;
    for v in 0..=255u8 {
        let mut r = Renderer::new(Mode::Ascii, ramp);
        r.render_rgb_buffer(&[v, v, v], 1, 1, 1);
        let c = r.output().chars().next().unwrap();
        let idx = ramp.find(c).unwrap();
        assert!(idx >= prev);
        prev = idx;
        if v == 0 {
            assert_eq!(c, 'a');
        }
        if v == 255 {
            assert_eq!(c, 'g');
        }
    }
}

#[test]
fn fit_stays_within_terminal_and_fills_one_side() {
    let mut g = Lcg(99);
    for _ in 0..20_000 {
        let mode = MODES[(g.next() % 4) as usize];
        let cols = (g.next() % 300) as u16 + 1;
        let rows = (g.next() % 100) as u16 + 1;
        let src_w = (g.next() % 10_000) as u32 + 1;
        let src_h = (g.next() % 10_000) as u32 + 1;
        let r = Renderer::new(mode, "");
        let (pc, pr) = r.target_size(cols, rows);
        let (tw, th) = r.target_size_fit(cols, rows, src_w, src_h);
        assert!(tw <= pc && th <= pr);
        assert!(pc == 0 || tw >= 1);
        assert!(pr == 0 || th >= 1);
        assert!(tw == pc || th == pr);
    }
}
