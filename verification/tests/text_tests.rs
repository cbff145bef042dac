use easytier_bridge::text::{
    decimal_text, drop_white, find_chars, is_ascii_white_space, is_white_space, skip_white,
    to_chars, to_text,
};

const SAMPLES: [&str; 12] = [
    "",
    " ",
    "plain",
    "  both sides\t\n",
    "\u{3000}wide\u{2003}",
    "\u{85}next line\u{a0}",
    "inner  spaces stay",
    "a: b: c",
    "::",
    "日志 INFO 目标: 消息",
    "\u{200b}not white\u{200b}",
    "aaab",
];

#[test]
fn white_space_is_that_of_unicode() {
    for n in 0..=0x10ffffu32 {
        if let Some(c) = char::from_u32(n) {
            assert_eq!(is_white_space(c), c.is_whitespace(), "{:x}", n);
        }
    }
}

#[test]
fn ascii_white_space_is_that_of_bytes() {
    for n in 0..=0x10ffffu32 {
        if let Some(c) = char::from_u32(n) {
            assert_eq!(is_ascii_white_space(c), c.is_ascii_whitespace(), "{:x}", n);
        }
    }
}

#[test]
fn trimming_agrees_with_the_standard() {
    for s in SAMPLES {
        let chars = to_chars(s);
        let start = skip_white(&chars, 0, chars.len());
        let end = drop_white(&chars, 0, chars.len());
        assert_eq!(to_text(&chars, start, chars.len()), s.trim_start());
        assert_eq!(to_text(&chars, 0, end), s.trim_end());
    }
}

#[test]
fn searching_agrees_with_the_standard() {
    for s in SAMPLES {
        for needle in ["", " ", ": ", "INFO", "aab", "消息", "absent"] {
            let found = find_chars(&to_chars(s), &to_chars(needle));
            let expected = s.find(needle).map(|byte| s[..byte].chars().count());
            assert_eq!(found, expected, "{:?} in {:?}", needle, s);
        }
    }
}

#[test]
fn numerals_are_decimal() {
    assert_eq!(decimal_text(0), "0");
    assert_eq!(decimal_text(9), "9");
    assert_eq!(decimal_text(10), "10");
    assert_eq!(decimal_text(1020304), "1020304");
    assert_eq!(decimal_text(usize::MAX), format!("{}", usize::MAX));
}

#[test]
fn numerals_differ() {
    let all: Vec<String> = (0..1200).map(decimal_text).collect();
    for i in 0..all.len() {
        for j in 0..i {
            assert_ne!(all[i], all[j]);
        }
    }
}

#[test]
fn characters_make_the_text_again() {
    for s in SAMPLES {
        let chars = to_chars(s);
        assert_eq!(chars, s.chars().collect::<Vec<char>>());
        assert_eq!(to_text(&chars, 0, chars.len()), s);
    }
    assert_eq!(to_text(&to_chars("日志 log"), 1, 4), "志 l");
}

#[test]
fn trimming_twice_is_trimming_once() {
    for s in SAMPLES {
        let once = s.trim();
        let chars = to_chars(once);
        let start = skip_white(&chars, 0, chars.len());
        let end = drop_white(&chars, start, chars.len());
        assert_eq!(to_text(&chars, start, end), once);
    }
}
