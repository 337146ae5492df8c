use conversation_core::text::{
    char_width, includes, is_space, le, slice, sort_strings, split_at_char, split_lines, str_le,
    string_of, to_chars, trim_bounds, utf8_fit,
};

fn chars(s: &str) -> Vec<char> {
    s.chars().collect()
}

fn text(v: &[char]) -> String {
    v.iter().collect()
}

#[test]
fn white_space_is_what_unicode_calls_white_space() {
    for n in 0..=0x10FFFFu32 {
        if let Some(c) = char::from_u32(n) {
            assert_eq!(is_space(c), c.is_whitespace(), "for U+{n:04X}");
        }
    }
}

#[test]
fn the_width_of_a_character_is_its_length_in_utf8() {
    for n in 0..=0x10FFFFu32 {
        if let Some(c) = char::from_u32(n) {
            assert_eq!(char_width(c), c.len_utf8(), "for U+{n:04X}");
        }
    }
}

#[test]
fn to_chars_and_string_of_are_inverse() {
    for s in ["", "abc", "a\u{e9}\u{2026}\u{1F600}z", "\n\r\t "] {
        assert_eq!(to_chars(s), chars(s));
        assert_eq!(string_of(&to_chars(s)), s);
    }
    assert_eq!(slice(&chars("hello"), 1, 3), chars("el"));
}

#[test]
fn includes_finds_a_needle_anywhere() {
    assert!(includes(&chars("hello world"), &chars("lo w")));
    assert!(includes(&chars("hello world"), &chars("hello world")));
    assert!(includes(&chars("hello world"), &chars("")));
    assert!(includes(&chars(""), &chars("")));
    assert!(includes(&chars("aab"), &chars("ab")));
    assert!(!includes(&chars("hello world"), &chars("low")));
    assert!(!includes(&chars("ab"), &chars("abc")));
    assert!(!includes(&chars(""), &chars("a")));
}

#[test]
fn lines_are_split_as_the_standard_library_splits_them() {
    for s in [
        "", "a", "a\n", "a\nb", "a\n\nb\n", "\n", "\n\n", "a\r\nb\r\n", "a\r", "a\r\n\r",
        "\r\n", "x\ry\n", "one\ntwo\r\nthree", "\u{e9}\n\u{2026}",
    ] {
        let expected: Vec<String> = s.lines().map(|l| l.to_string()).collect();
        let got: Vec<String> = split_lines(&chars(s)).iter().map(|l| text(l)).collect();
        assert_eq!(got, expected, "for {s:?}");
    }
}

#[test]
fn trimming_is_what_the_standard_library_does() {
    for s in ["", "  ", " a ", "\t\na b\r\n", "a", "\u{a0}x\u{3000}", " \u{2026} ", "x  "] {
        let v = chars(s);
        let (a, b) = trim_bounds(&v, 0, v.len());
        assert_eq!(text(&v[a..b]), s.trim(), "for {s:?}");
    }
    let v = chars("ab  cd  ef");
    let (a, b) = trim_bounds(&v, 2, 8);
    assert_eq!(text(&v[a..b]), "cd");
}

#[test]
fn the_order_is_that_of_strings() {
    let words = ["", "a", "ab", "b", "B", "a\u{e9}", "\u{e9}", "abc", "ab ", "\u{10000}", "\u{ffff}"];
    for a in words {
        for b in words {
            assert_eq!(str_le(a, b), a <= b, "for {a:?} and {b:?}");
            assert_eq!(le(&chars(a), &chars(b)), a <= b);
        }
    }
}

#[test]
fn sorting_is_what_the_standard_library_does() {
    let input: Vec<String> = ["pear", "apple", "fig", "apple", "", "Fig", "\u{e9}clair", "figs"]
        .iter()
        .map(|s| s.to_string())
        .collect();
    let mut expected = input.clone();
    expected.sort();
    assert_eq!(sort_strings(&input), expected);
    assert_eq!(sort_strings(&Vec::new()), Vec::<String>::new());
}

#[test]
fn splitting_gives_the_pieces_between_the_separators() {
    for s in ["", "a", "/", "a/b", "/a//b/", "//"] {
        let expected: Vec<String> = s.split('/').map(|p| p.to_string()).collect();
        let got: Vec<String> = split_at_char(&chars(s), '/').iter().map(|p| text(p)).collect();
        assert_eq!(got, expected, "for {s:?}");
    }
}

#[test]
fn utf8_fit_counts_the_characters_that_fit() {
    assert_eq!(utf8_fit(&chars("abcdef"), 4), 4);
    assert_eq!(utf8_fit(&chars("abc"), 4), 3);
    assert_eq!(utf8_fit(&chars("a\u{e9}\u{e9}"), 4), 2);
    assert_eq!(utf8_fit(&chars("\u{1F600}"), 3), 0);
    assert_eq!(utf8_fit(&chars(""), 0), 0);
}
