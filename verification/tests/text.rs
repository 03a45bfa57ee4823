use lib::text::{chars_of, parse_u16, push_decimal, split_bounds, trim_range, white_space};

fn fields(s: &str) -> Vec<String> {
    let v = chars_of(s);
    split_bounds(&v)
        .into_iter()
        .map(|(a, b)| v[a..b].iter().collect())
        .collect()
}

fn trimmed(s: &str) -> String {
    let v = chars_of(s);
    let (a, b) = trim_range(&v, 0, v.len());
    v[a..b].iter().collect()
}

#[test]
fn chars_of_keeps_every_character() {
    assert_eq!(chars_of("a\u{f3}b"), vec!['a', '\u{f3}', 'b']);
    assert_eq!(chars_of(""), Vec::<char>::new());
}

#[test]
fn split_matches_str_split() {
    for s in ["a; b; c", "", "; ", "a;b; c", ";; x", "a; ; b", "x; ", "no separator", "a;  b"] {
        let expected: Vec<String> = s.split("; ").map(|x| x.to_string()).collect();
        assert_eq!(fields(s), expected, "on {:?}", s);
    }
}

#[test]
fn trim_matches_str_trim() {
    for s in ["  a b  ", "\t\n x\r\n", "", "   ", "\u{a0}y\u{3000}", "{ name }", "\u{2003}z\u{85}"] {
        assert_eq!(trimmed(s), s.trim(), "on {:?}", s);
    }
}

#[test]
fn white_space_matches_char_is_whitespace() {
    for c in [' ', '\t', '\n', '\u{b}', '\u{c}', '\r', '\u{85}', '\u{a0}', '\u{1680}', '\u{2000}',
        '\u{200a}', '\u{2028}', '\u{2029}', '\u{202f}', '\u{205f}', '\u{3000}', 'a', '{', '\u{200b}',
        '\u{feff}', '\u{e}', '\u{1f}', '\u{1fff}']
    {
        assert_eq!(white_space(c), c.is_whitespace(), "on {:?}", c);
    }
}

#[test]
fn parse_u16_accepts_what_std_accepts() {
    for s in ["0", "1999", "+7", "65535", "00042", "65536", "", "+", "-1", "-0", " 12", "12 ", "1_0",
        "99999999999", "+-1", "++1", "2024"]
    {
        assert_eq!(parse_u16(s), s.parse::<u16>().ok(), "on {:?}", s);
    }
}

#[test]
fn parse_u16_exact_values() {
    assert_eq!(parse_u16("1950"), Some(1950));
    assert_eq!(parse_u16("+0065535"), Some(65535));
    assert_eq!(parse_u16("65536"), None);
    assert_eq!(parse_u16("abc"), None);
}

#[test]
fn push_decimal_writes_decimal_text() {
    for n in [0u16, 7, 10, 99, 100, 1950, 2024, 65535] {
        let mut out = String::from("y=");
        push_decimal(&mut out, n);
        assert_eq!(out, format!("y={}", n));
    }
}
