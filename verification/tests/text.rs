use realm::text::chars_of;
use realm::text::find_char;
use realm::text::is_whitespace;
use realm::text::parse_unsigned;
use realm::text::push_decimal;
use realm::text::push_hexadecimal;
use realm::text::rfind_char;
use realm::text::trim_bounds;

fn chars(s: &str) -> Vec<char> {
    s.chars().collect()
}

fn parse(s: &str, max: u32) -> Option<u32> {
    let c = chars(s);
    parse_unsigned(&c, 0, c.len(), max)
}

#[test]
fn whitespace_is_what_std_calls_whitespace() {
    for u in 0..=0x11_0000u32 {
        if let Some(c) = char::from_u32(u) {
            assert_eq!(is_whitespace(c), c.is_whitespace(), "U+{:04X}", u);
        }
    }
}

#[test]
fn numbers_are_read_as_std_reads_them() {
    for s in ["0", "7", "255", "256", "+5", "+", "-1", "", "00012", "1 ", " 1", "1_0", "٣", "65535", "65536", "99999999999999999999"] {
        assert_eq!(parse(s, 255), s.parse::<u8>().ok().map(u32::from), "{:?} as u8", s);
        assert_eq!(parse(s, 65_535), s.parse::<u16>().ok().map(u32::from), "{:?} as u16", s);
    }
    // a part of a text
    let c = chars("ab123cd");
    assert_eq!(parse_unsigned(&c, 2, 5, 255), Some(123));
    assert_eq!(parse_unsigned(&c, 2, 6, 255), None);
    assert_eq!(parse_unsigned(&c, 2, 2, 255), None);
}

#[test]
fn trimming_is_as_std_trims() {
    for s in ["", " ", "a", "  a b \t\n", "\u{a0}x\u{2003}", "x\u{200b}", " \u{3000} "] {
        let c = chars(s);
        let (a, b) = trim_bounds(&c, 0, c.len());
        let got: String = c[a..b].iter().collect();
        assert_eq!(got, s.trim(), "{:?}", s);
    }
    let c = chars("[ ab ]");
    assert_eq!(trim_bounds(&c, 1, 5), (2, 4));
    assert_eq!(trim_bounds(&c, 1, 2), (2, 2));
}

#[test]
fn characters_are_found() {
    let c = chars("a:b:c");
    assert_eq!(find_char(&c, 0, 5, ':'), Some(1));
    assert_eq!(find_char(&c, 2, 5, ':'), Some(3));
    assert_eq!(find_char(&c, 4, 5, ':'), None);
    assert_eq!(find_char(&c, 2, 3, ':'), None);
    assert_eq!(rfind_char(&c, ':'), Some(3));
    assert_eq!(rfind_char(&c, 'a'), Some(0));
    assert_eq!(rfind_char(&c, 'x'), None);
    assert_eq!(rfind_char(&chars(""), 'x'), None);
    assert_eq!(chars_of("héllo"), chars("héllo"));
}

#[test]
fn numbers_are_written() {
    for n in [0u64, 9, 10, 255, 65_535, 1_000_000, u64::MAX] {
        let mut out = String::from(">");
        push_decimal(&mut out, n);
        assert_eq!(out, format!(">{}", n));
        let mut out = String::new();
        push_hexadecimal(&mut out, n);
        assert_eq!(out, format!("{:x}", n));
    }
}
