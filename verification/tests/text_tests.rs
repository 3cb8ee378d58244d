use aa_media::text::{char_is_whitespace, chars_of, parse_u32_chars, push_decimal, push_decimal2, string_of, trim_chars};
use aa_media::video::{frame_len, parse_dimensions};

#[test]
fn whitespace_matches_std_for_every_char() {
    for u in 0u32..=0x10FFFF {
        if let Some(c) = char::from_u32(u) {
            assert_eq!(char_is_whitespace(c), c.is_whitespace(), "U+{:04X}", u);
        }
    }
}

#[test]
fn trim_matches_std() {
    for s in ["", "  ", " a ", "\u{3000}x y\u{2028}", "\t1920,1080\n", "abc", "\u{85}z\u{a0}"] {
        let t = trim_chars(&chars_of(s));
        assert_eq!(string_of(&t), s.trim());
    }
}

#[test]
fn parse_u32_matches_std() {
    let cases = [
        "", "0", "42", "+7", "+", "-", "-0", "-5", "007", "4294967295", "4294967296", "99999999999",
        "12a", " 1", "1 ", "١٢", "+-1", "++1", "18446744073709551616",
    ];
    for s in cases {
        assert_eq!(parse_u32_chars(&chars_of(s)), s.parse::<u32>().ok(), "{:?}", s);
    }
    for n in (0u64..=u32::MAX as u64).step_by(7919) {
        let s = n.to_string();
        assert_eq!(parse_u32_chars(&chars_of(&s)), Some(n as u32));
    }
}

#[test]
fn decimal_formatting() {
    for n in [0u32, 5, 9, 10, 59, 100, 255, 4294967295] {
        let mut s = String::new();
        push_decimal(&mut s, n);
        assert_eq!(s, format!("{}", n));
        let mut p = String::from("x");
        push_decimal2(&mut p, n);
        assert_eq!(p, format!("x{:02}", n));
    }
}

#[test]
fn probe_report_dimensions() {
    assert_eq!(parse_dimensions("1920,1080\n"), (1920, 1080));
    assert_eq!(parse_dimensions("  640,360  "), (640, 360));
    assert_eq!(parse_dimensions(""), (640, 480));
    assert_eq!(parse_dimensions("garbage"), (640, 480));
    assert_eq!(parse_dimensions("1280, 720"), (1280, 480));
    assert_eq!(parse_dimensions("x,720"), (640, 720));
    assert_eq!(parse_dimensions("1280,720,5"), (1280, 480));
    assert_eq!(parse_dimensions("+3,+4"), (3, 4));
}

#[test]
fn probe_report_roundtrip() {
    for (w, h) in [(0u32, 0u32), (1, 1), (1920, 1080), (4294967295, 7)] {
        assert_eq!(parse_dimensions(&format!("{},{}", w, h)), (w, h));
    }
}

#[test]
fn raw_frame_length() {
    assert_eq!(frame_len(0, 10), 0);
    assert_eq!(frame_len(160, 90), 160 * 90 * 3);
}
