use aeroshell::encoding::{char_width, order_of_bytes, order_of_text, Order};
use aeroshell::text::{
    char_is_whitespace, find_from, from_chars, has_match_at, replace, same_text, split_on,
    starts_with, to_chars, trimmed,
};

fn chars(s: &str) -> Vec<char> {
    s.chars().collect()
}

fn text(v: Vec<char>) -> String {
    v.into_iter().collect()
}

#[test]
fn chars_round_trip() {
    for s in ["", "a", "héllo wörld", "日本語", "\x1B[0m"] {
        assert_eq!(to_chars(s), chars(s));
        assert_eq!(from_chars(&chars(s)), s);
    }
}

#[test]
fn whitespace_is_what_the_standard_library_says() {
    for code in 0..=0x10FFFFu32 {
        if let Some(c) = char::from_u32(code) {
            assert_eq!(char_is_whitespace(c), c.is_whitespace(), "U+{:04X}", code);
        }
    }
}

#[test]
fn width_is_what_the_standard_library_says() {
    for code in 0..=0x10FFFFu32 {
        if let Some(c) = char::from_u32(code) {
            assert_eq!(char_width(c), c.len_utf8(), "U+{:04X}", code);
        }
    }
}

#[test]
fn replace_agrees_with_the_standard_library() {
    let cases = [
        ("Hello %username%", "%username%", "testuser"),
        ("%x%%x%", "%x%", "y"),
        ("aaaa", "aa", "b"),
        ("aaa", "aa", "b"),
        ("abc", "abc", ""),
        ("abc", "abcd", "x"),
        ("", "a", "b"),
        ("a%time%b%time%", "%time%", "%time%"),
        ("%%time%", "%time%", "12:00:00"),
        ("%ti%time%me%", "%time%", "X"),
        ("ééé", "é", "e"),
    ];
    for (s, from, to) in cases {
        assert_eq!(text(replace(&chars(s), &chars(from), &chars(to))), s.replace(from, to));
    }
}

#[test]
fn empty_pattern_replaces_nothing() {
    assert_eq!(text(replace(&chars("abc"), &chars(""), &chars("x"))), "abc");
}

#[test]
fn trim_agrees_with_the_standard_library() {
    for s in ["", " ", "  a  ", "a", "\t a b \n", "\u{3000}x\u{a0}", "a \u{2003}", " \u{200b} "] {
        assert_eq!(text(trimmed(&chars(s))), s.trim());
    }
}

#[test]
fn split_agrees_with_the_standard_library() {
    for s in ["", ",", "a", "a,b", "a,,b", ",a,", "bold, blue ,", ",,"] {
        let got: Vec<String> = split_on(&chars(s), ',').into_iter().map(text).collect();
        let expected: Vec<String> = s.split(',').map(|p| p.to_string()).collect();
        assert_eq!(got, expected);
    }
}

#[test]
fn matching_and_finding() {
    let s = chars("hello");
    assert!(has_match_at(&s, 0, &chars("he")));
    assert!(has_match_at(&s, 3, &chars("lo")));
    assert!(has_match_at(&s, 5, &chars("")));
    assert!(!has_match_at(&s, 4, &chars("lo")));
    assert!(!has_match_at(&s, 6, &chars("")));
    assert!(!has_match_at(&s, usize::MAX, &chars("a")));
    assert!(starts_with(&s, &chars("")));
    assert!(starts_with(&s, &chars("hello")));
    assert!(!starts_with(&s, &chars("hello!")));
    assert_eq!(find_from(&s, 0, 'l'), 2);
    assert_eq!(find_from(&s, 3, 'l'), 3);
    assert_eq!(find_from(&s, 4, 'l'), 5);
    assert_eq!(find_from(&s, 5, 'h'), 5);
    assert!(same_text("é", "é"));
    assert!(!same_text("e", "é"));
}

#[test]
fn byte_order_agrees_with_the_standard_library() {
    let words = ["", "a", "ab", "b", "B", "é", "e", "z", "zz", "日本", "~", "a\u{0}", "\u{10FFFF}"];
    for a in words {
        for b in words {
            let expected = match a.cmp(b) {
                std::cmp::Ordering::Less => Order::Less,
                std::cmp::Ordering::Equal => Order::Equal,
                std::cmp::Ordering::Greater => Order::Greater,
            };
            assert_eq!(order_of_text(a, b), expected, "{:?} and {:?}", a, b);
            assert_eq!(order_of_bytes(a.as_bytes(), b.as_bytes()), expected);
        }
    }
}
