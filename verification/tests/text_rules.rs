use shoehorn::text::{
    begins_with, chars_of, find, find_from, find_last, reads, reads_ignoring_case, same_chars,
    split_lines, split_once, text_of, to_lower, to_lower_char, to_upper, to_upper_char, trimmed,
    trimmed_end, trimmed_start, white_space,
};

const SAMPLES: [&str; 9] = [
    "",
    " ",
    "plain",
    "  both sides\t\r\n",
    "\u{a0}\u{3000}wide\u{2028}",
    "caf\u{e9} \u{1f600} end ",
    "\u{feff}mark",
    "a=b=c",
    "trailing\r",
];

#[test]
fn white_space_is_that_of_the_standard_library() {
    for n in 0..=0x10ffffu32 {
        if let Some(c) = char::from_u32(n) {
            assert_eq!(white_space(c), c.is_whitespace(), "{:x}", n);
        }
    }
}

#[test]
fn case_is_that_of_the_standard_library() {
    for n in 0..=0x10ffffu32 {
        if let Some(c) = char::from_u32(n) {
            assert_eq!(to_lower_char(c), c.to_ascii_lowercase(), "{:x}", n);
            assert_eq!(to_upper_char(c), c.to_ascii_uppercase(), "{:x}", n);
        }
    }
    let s = chars_of("MiXed \u{c4} 42");
    assert_eq!(text_of(&to_lower(&s)), "mixed \u{c4} 42");
    assert_eq!(text_of(&to_upper(&s)), "MIXED \u{c4} 42");
}

#[test]
fn text_comes_back_from_its_characters() {
    for s in SAMPLES {
        assert_eq!(chars_of(s), s.chars().collect::<Vec<char>>());
        assert_eq!(text_of(&chars_of(s)), s);
    }
}

#[test]
fn trimming_is_that_of_the_standard_library() {
    for s in SAMPLES {
        let c = chars_of(s);
        assert_eq!(text_of(trimmed(&c)), s.trim());
        assert_eq!(text_of(trimmed_start(&c)), s.trim_start());
        assert_eq!(text_of(trimmed_end(&c)), s.trim_end());
    }
}

#[test]
fn lines_are_those_of_the_standard_library() {
    let texts = [
        "", "\n", "a", "a\n", "a\nb", "a\r\nb\r\n", "\r\n\r\n", "a\r", "a\r\r\nb", "\n\nx\n\n", "\r",
        "\u{e9}\n\u{1f600}\r\n",
    ];
    for s in texts {
        let c = chars_of(s);
        let got: Vec<String> = split_lines(&c).iter().map(|l| text_of(l)).collect();
        let want: Vec<String> = s.lines().map(|l| l.to_string()).collect();
        assert_eq!(got, want, "{:?}", s);
    }
}

#[test]
fn searching_finds_the_first_and_the_last() {
    let c = chars_of("a:b:c");
    assert_eq!(find(&c, ':'), 1);
    assert_eq!(find(&c, 'x'), 5);
    assert_eq!(find_from(&c, 2, ':'), 3);
    assert_eq!(find_from(&c, 4, ':'), 5);
    assert_eq!(find_last(&c, ':'), Some(3));
    assert_eq!(find_last(&c, 'x'), None);
    assert_eq!(find_last(&chars_of(""), 'x'), None);
}

#[test]
fn splitting_is_that_of_the_standard_library() {
    for s in SAMPLES {
        let c = chars_of(s);
        let got = split_once(&c, '=').map(|(a, b)| (text_of(a), text_of(b)));
        let want = s.split_once('=').map(|(a, b)| (a.to_string(), b.to_string()));
        assert_eq!(got, want);
    }
}

#[test]
fn comparing_respects_or_ignores_case() {
    let c = chars_of("Close");
    assert!(reads(&c, "Close"));
    assert!(!reads(&c, "close"));
    assert!(!reads(&c, "Clos"));
    assert!(reads_ignoring_case(&c, "cLOSE"));
    assert!(!reads_ignoring_case(&c, "closed"));
    assert!(!reads_ignoring_case(&chars_of("\u{e9}"), "\u{c9}"));
    assert!(same_chars(&c, &chars_of("Close")));
    assert!(begins_with(&c, "Clo"));
    assert!(begins_with(&c, ""));
    assert!(!begins_with(&c, "clo"));
    assert!(!begins_with(&c, "Closed"));
}
