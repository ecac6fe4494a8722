use streamwm::text::{
    contains, decimal_text, lower_contains, lower_same, parse_number, split, split_once,
    split_words, trim, white_space,
};

#[test]
fn white_space_is_that_of_unicode() {
    for c in '\0'..=char::MAX {
        assert_eq!(white_space(c), c.is_whitespace(), "{c:?}");
    }
}

#[test]
fn strings_are_cut_up_as_the_standard_library_does() {
    let samples = [
        "", " ", "a", " a b ", "a,b+c", ",,", "\u{a0}x\u{3000}", "one two\tthree\n", ":", "a:b:c",
        "x\u{b}y", "\u{c}p q\r",
    ];
    for s in samples {
        assert_eq!(trim(s), s.trim());
        assert_eq!(split(s, ',', '+'), s.split([',', '+']).collect::<Vec<_>>());
        assert_eq!(split_words(s), s.split_ascii_whitespace().collect::<Vec<_>>());
        assert_eq!(split_once(s, ':'), s.split_once(':'));
        for part in ["", "a", "b", "a:", "two", "xyz"] {
            assert_eq!(contains(s, part), s.contains(part));
        }
    }
}

#[test]
fn numbers_are_read_as_the_standard_library_does() {
    let samples = [
        "", "+", "-1", "0", "+7", "12", "007", "18446744073709551615", "18446744073709551616",
        "1a", " 1", "4294967296", "++1", "９",
    ];
    for s in samples {
        assert_eq!(parse_number(s, 10, u64::MAX), s.parse::<u64>().ok(), "{s:?}");
        assert_eq!(
            parse_number(s, 16, u32::MAX as u64),
            u32::from_str_radix(s, 16).ok().map(|v| v as u64),
            "{s:?}"
        );
    }
    for n in [0usize, 9, 10, 409, usize::MAX] {
        assert_eq!(decimal_text(n), n.to_string());
    }
}

#[test]
fn case_is_ignored_for_ascii_letters_only() {
    assert!(lower_same("SHIFT", "shift"));
    assert!(!lower_same("SHIFTÄ", "shiftä"));
    assert!(lower_contains("state:      CLOSED\n", "closed"));
    assert!(!lower_contains("state: open", "closed"));
}
