use aa_media::controls::{bar_width, key_action, mode_from_name, progress_bar, resize_target, Key, KeyAction};
use aa_media::frame::RgbFrame;
use aa_media::renderer::{Mode, Renderer};

#[test]
fn mode_names() {
    assert_eq!(mode_from_name("ascii"), Mode::Ascii);
    assert_eq!(mode_from_name("braille"), Mode::Braille);
    assert_eq!(mode_from_name("kanji"), Mode::Kanji);
    assert_eq!(mode_from_name("color"), Mode::Color);
    assert_eq!(mode_from_name("tile"), Mode::Color);
    assert_eq!(mode_from_name("ASCII"), Mode::Color);
}

#[test]
fn keys() {
    assert_eq!(key_action(Key::Char('q'), false, false), KeyAction::Quit);
    assert_eq!(key_action(Key::Char('q'), true, true), KeyAction::Quit);
    assert_eq!(key_action(Key::Esc, false, false), KeyAction::Quit);
    assert_eq!(key_action(Key::Char('c'), true, false), KeyAction::Quit);
    assert_eq!(key_action(Key::Char('c'), false, false), KeyAction::Ignore);
    assert_eq!(key_action(Key::Right, false, false), KeyAction::SeekBy(5));
    assert_eq!(key_action(Key::Right, false, true), KeyAction::SeekBy(30));
    assert_eq!(key_action(Key::Left, false, false), KeyAction::SeekBy(-5));
    assert_eq!(key_action(Key::Left, true, true), KeyAction::SeekBy(-30));
    assert_eq!(key_action(Key::Other, false, false), KeyAction::Ignore);
}

#[test]
fn left_undoes_right() {
    for ctrl in [false, true] {
        for shift in [false, true] {
            match (key_action(Key::Right, ctrl, shift), key_action(Key::Left, ctrl, shift)) {
                (KeyAction::SeekBy(a), KeyAction::SeekBy(b)) => assert_eq!(a + b, 0),
                other => panic!("{:?}", other),
            }
        }
    }
}

#[test]
fn progress_line_text() {
    let cols: u16 = 40;
    let bw = bar_width(cols);
    assert_eq!(bw, 26);
    let (pos, dur) = (75u32, 3725u32);
    let filled = 5usize;
    let expected = format!(
        "\x1b[{};1H\x1b[0m {:02}:{:02} \x1b[7m{}\x1b[0m{} {:02}:{:02}",
        24,
        pos / 60,
        pos % 60,
        " ".repeat(filled.min(bw)),
        " ".repeat(bw.saturating_sub(filled)),
        dur / 60,
        dur % 60
    );
    assert_eq!(progress_bar(24, cols, pos, dur, filled), expected);
}

#[test]
fn progress_bar_narrow_and_overfull() {
    assert_eq!(bar_width(10), 0);
    assert_eq!(progress_bar(1, 10, 0, 9, 3), "\x1b[1;1H\x1b[0m 00:00 \x1b[7m\x1b[0m 00:09");
    let s = progress_bar(2, 20, 1, 2, 99);
    assert_eq!(s, "\x1b[2;1H\x1b[0m 00:01 \x1b[7m      \x1b[0m 00:02");
}

#[test]
fn resize_decision() {
    let r = Renderer::new(Mode::Braille, "");
    assert_eq!(resize_target(&r, 80, 24, 1920, 1080, 160, 90), None);
    assert_eq!(resize_target(&r, 100, 24, 1920, 1080, 160, 90), Some((170, 96)));
}

#[test]
fn frame_from_raw() {
    assert!(RgbFrame::from_raw(2, 2, vec![0; 11]).is_none());
    let f = RgbFrame::from_raw(2, 2, vec![7; 13]).unwrap();
    assert_eq!((f.width(), f.height(), f.as_raw().len()), (2, 2, 13));
    assert_eq!(f.into_raw(), vec![7; 13]);
}

#[test]
fn resize_resamples() {
    // a 2x1 black/white image halved to 1x1 averages to gray
    let f = RgbFrame::from_raw(2, 1, vec![0, 0, 0, 255, 255, 255]).unwrap();
    let g = f.resize(1, 1);
    assert_eq!((g.width(), g.height()), (1, 1));
    let p = g.as_raw();
    assert_eq!(p.len(), 3);
    assert!(p[0] > 0 && p[0] < 255, "{:?}", p);
    // upscaling keeps the size contract
    let h = f.resize(5, 3);
    assert_eq!(h.as_raw().len(), 45);
    // an empty source gives a black image
    let e = RgbFrame::from_raw(0, 0, vec![]).unwrap().resize(2, 2);
    assert_eq!(e.as_raw(), &[0u8; 12][..]);
}

#[test]
fn bar_spans_its_width() {
    for cols in [0u16, 14, 15, 40, 200] {
        for filled in [0usize, 1, 5, 26, 1000] {
            let s = progress_bar(3, cols, 61, 122, filled);
            let spaces = s.chars().filter(|&c| c == ' ').count();
            // three separators around the clocks plus the bar cells
            assert_eq!(spaces, 3 + bar_width(cols));
        }
    }
}
