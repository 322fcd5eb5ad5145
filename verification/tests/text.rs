use open_flow::number::{parse_i32, parse_u32, u64_to_text};
use open_flow::single::{abs, greater, INFINITY, NEG_INFINITY};
use open_flow::text::{chars_of, collapse_whitespace, contains, ends_with};
use open_flow::text::{is_whitespace, matches_at, replace_char, replace_text, same_text};
use open_flow::text::{starts_with, string_of, trim};

#[test]
fn whitespace_is_unicode_whitespace() {
    for c in '\u{0}'..=char::MAX {
        assert_eq!(is_whitespace(c), c.is_whitespace(), "{:?}", c);
    }
}

#[test]
fn trimming() {
    for s in ["", " ", "a", " a ", "\u{3000}\t a b \n", "\u{200b}a", "\u{a0}x"] {
        assert_eq!(trim(s), s.trim());
    }
}

#[test]
fn collapsing_whitespace() {
    for s in ["", "  ", "a", " a  b ", "\na\u{2003}\t\u{85}b c"] {
        let words: Vec<&str> = s.split_whitespace().collect();
        assert_eq!(collapse_whitespace(&chars_of(s)), words.join(" "));
    }
}

#[test]
fn searching() {
    for (hay, needle) in [
        ("", ""),
        ("abc", ""),
        ("", "a"),
        ("abc", "abc"),
        ("abc", "abcd"),
        ("aab", "ab"),
        ("你好", "好"),
        ("ababac", "abac"),
    ] {
        assert_eq!(contains(hay, needle), hay.contains(needle), "{:?} {:?}", hay, needle);
        assert_eq!(starts_with(hay, needle), hay.starts_with(needle));
        assert_eq!(ends_with(hay, needle), hay.ends_with(needle));
        assert_eq!(same_text(hay, needle), hay == needle);
        assert_eq!(open_flow::text::concat(hay, needle), format!("{}{}", hay, needle));
    }
    assert!(matches_at(&chars_of("xab"), &chars_of("ab"), 1));
    assert!(!matches_at(&chars_of("xab"), &chars_of("ab"), 2));
}

#[test]
fn replacing() {
    let text = |cs: &Vec<char>| string_of(cs, 0, cs.len());
    assert_eq!(text(&replace_char(&chars_of("a▁▁b"), '▁', ' ')), "a  b");
    for s in ["", "<space>", "a<space><space>b", "<spa<space>ce>", "<<space>"] {
        let replaced = replace_text(&chars_of(s), &chars_of("<space>"), ' ');
        assert_eq!(text(&replaced), s.replace("<space>", " "));
    }
    // Occurrences are taken from the left and do not overlap.
    let replaced = replace_text(&chars_of("aaaaa"), &chars_of("aa"), 'x');
    assert_eq!(text(&replaced), "xxa");
    assert_eq!(string_of(&chars_of("abc"), 1, 2), "b");
}

#[test]
fn reading_numbers() {
    for s in [
        "", "+", "-", "0", "7", "+7", "-7", "00012", "4294967295", "4294967296", "2147483647",
        "2147483648", "-2147483648", "-2147483649", "99999999999999999999999", "1 ", " 1", "1_0",
        "++1", "+-1", "0x10", "\u{0661}", "1a", "-0",
    ] {
        assert_eq!(parse_u32(s), s.parse::<u32>().ok(), "{:?}", s);
        assert_eq!(parse_i32(s), s.parse::<i32>().ok(), "{:?}", s);
    }
}

#[test]
fn writing_numbers() {
    for n in [0u64, 9, 10, 101, 65535, u32::MAX as u64, u64::MAX] {
        assert_eq!(u64_to_text(n), n.to_string());
    }
    assert_eq!(parse_u32(&u64_to_text(4294967295)), Some(4294967295));
}

#[test]
fn comparing_single_precision_numbers() {
    assert_eq!(NEG_INFINITY, f32::NEG_INFINITY.to_bits());
    assert_eq!(INFINITY, f32::INFINITY.to_bits());
    let numbers = [
        0.0f32,
        -0.0,
        1.0,
        -1.0,
        0.001,
        f32::MIN_POSITIVE,
        f32::MAX,
        f32::MIN,
        f32::INFINITY,
        f32::NEG_INFINITY,
        f32::NAN,
        -f32::NAN,
        f32::from_bits(1),
        f32::from_bits(0x8000_0001),
    ];
    for a in numbers {
        assert_eq!(abs(a.to_bits()), a.abs().to_bits());
        for b in numbers {
            assert_eq!(greater(a.to_bits(), b.to_bits()), a > b, "{} {}", a, b);
        }
    }
}
