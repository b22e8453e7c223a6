//! Text functions agree with the standard library's.

use iris::text::{
    contains, decimal_text, ends_with, lines, lower_case, parse_u32, replace, same_text, trim, Trim,
    chars_of,
};

fn samples() -> Vec<String> {
    let mut out: Vec<String> = [
        "", " ", "a", " a b ", "\t\n x \u{a0}", "a\nb\r\nc\r", "\n\n", "\r\n", "x\n", "://", "a://b",
        "HeadlessChrome/1 HeadlessHeadlessChrome", "\u{2003}\u{e9}\u{2003}", "//a/b//", "AbC\u{c9}",
        "4294967295", "4294967296", "+7", "-7", "+", "007", "1a", "\u{b2}",
    ]
    .iter()
    .map(|s| s.to_string())
    .collect();
    let alphabet: Vec<char> = "ab \n\r/:X".chars().collect();
    let mut state: u64 = 7;
    for _ in 0..300 {
        let mut s = String::new();
        for _ in 0..(state % 9) {
            state = state.wrapping_mul(6364136223846793005).wrapping_add(1442695040888963407);
            s.push(alphabet[(state >> 33) as usize % alphabet.len()]);
        }
        state = state.wrapping_mul(6364136223846793005).wrapping_add(1442695040888963407);
        out.push(s);
    }
    out
}

#[test]
fn white_space_is_that_of_unicode() {
    for c in (0..=0x10FFFFu32).filter_map(char::from_u32) {
        assert_eq!(Trim::WhiteSpace.test(c), c.is_whitespace(), "{:?}", c);
    }
}

#[test]
fn trimming_and_lines_agree_with_std() {
    for s in samples() {
        assert_eq!(trim(&s, Trim::WhiteSpace), s.trim());
        assert_eq!(trim(&s, Trim::Slash), s.trim_matches('/'));
        let want: Vec<String> = s.lines().map(String::from).collect();
        assert_eq!(lines(&s), want, "{:?}", s);
        assert_eq!(lower_case(&s), s.to_ascii_lowercase());
    }
}

#[test]
fn searching_and_replacing_agree_with_std() {
    for s in samples() {
        for t in ["://", "a", "ab", " \n", "HeadlessChrome"] {
            assert_eq!(contains(&s, t), s.contains(t));
            assert_eq!(ends_with(&s, t), s.ends_with(t));
            assert_eq!(replace(&s, t, "Chrome"), s.replace(t, "Chrome"));
            assert_eq!(same_text(&s, t), s == t);
        }
    }
}

#[test]
fn numbers_agree_with_std() {
    for s in samples() {
        let chars = chars_of(&s);
        assert_eq!(parse_u32(&chars, 0, chars.len()), s.parse::<u32>().ok(), "{:?}", s);
    }
    for n in [0u128, 9, 10, 99, 100, 1048576, u64::MAX as u128, u128::MAX] {
        assert_eq!(decimal_text(n), n.to_string());
    }
    for n in [0u32, 7, 10, 1440, u32::MAX] {
        let digits = chars_of(&decimal_text(n as u128));
        assert_eq!(parse_u32(&digits, 0, digits.len()), Some(n));
    }
}
