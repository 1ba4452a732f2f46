use ren_desktop::text::{
    chars_of, decimal_chars, is_whitespace, lowercase_equals, split_lines, split_once_char, split_words,
    trim_chars,
};

fn chars(s: &str) -> Vec<char> {
    s.chars().collect()
}

fn strings(v: Vec<Vec<char>>) -> Vec<String> {
    v.into_iter().map(|l| l.into_iter().collect()).collect()
}

const SAMPLES: &[&str] = &[
    "",
    "\n",
    "\n\n",
    "a",
    "a\n",
    "a\r\nb",
    "a\rb\r",
    "a\r\n\r\nb\r\n",
    "  x  y\t\tz \u{3000}w\u{85}",
    "\u{a0}\u{2009} lead and trail \u{2029}",
    "GET /v1/x HTTP/1.1\r\nHost: h\r\n\r\nbody",
];

#[test]
fn whitespace_matches_std_for_every_char() {
    for u in 0..=0x10FFFFu32 {
        if let Some(c) = char::from_u32(u) {
            assert_eq!(is_whitespace(c), c.is_whitespace(), "{:?}", c);
        }
    }
}

#[test]
fn lines_match_std() {
    for s in SAMPLES {
        let expected: Vec<String> = s.lines().map(|l| l.to_string()).collect();
        assert_eq!(strings(split_lines(&chars(s))), expected, "{:?}", s);
    }
}

#[test]
fn words_match_std() {
    for s in SAMPLES {
        let expected: Vec<String> = s.split_whitespace().map(|l| l.to_string()).collect();
        assert_eq!(strings(split_words(&chars(s))), expected, "{:?}", s);
    }
}

#[test]
fn trim_matches_std() {
    for s in SAMPLES {
        let t: String = trim_chars(&chars(s)).into_iter().collect();
        assert_eq!(t, s.trim(), "{:?}", s);
    }
}

#[test]
fn split_once_matches_std() {
    for s in ["k: v", "no colon", ":", "a:b:c", ""] {
        let got = split_once_char(&chars(s), ':')
            .map(|(a, b)| (a.into_iter().collect::<String>(), b.into_iter().collect::<String>()));
        let expected = s.split_once(':').map(|(a, b)| (a.to_string(), b.to_string()));
        assert_eq!(got, expected);
    }
}

#[test]
fn decimal_matches_display() {
    for n in [0u64, 7, 10, 99, 100, 404, 65535, u64::MAX] {
        assert_eq!(decimal_chars(n).into_iter().collect::<String>(), n.to_string());
    }
}

#[test]
fn chars_of_keeps_all_characters() {
    assert_eq!(chars_of("añ🔑"), vec!['a', 'ñ', '🔑']);
}

/// Lower-casing a name and comparing it with one of the dropped header names
/// gives what the ASCII comparison gives: no other character lower-cases to
/// text that could complete one of those names.
#[test]
fn ascii_lowercase_comparison_matches_to_lowercase() {
    let names = ["host", "connection", "transfer-encoding", "authorization"];
    for u in 0x80..=0x10FFFFu32 {
        if let Some(c) = char::from_u32(u) {
            let lower: String = c.to_lowercase().collect();
            if lower.chars().all(|l| l.is_ascii()) {
                assert!(!names.iter().any(|n| n.contains(&lower)), "{:?}", c);
            }
        }
    }
    for n in names {
        assert!(lowercase_equals(&chars(&n.to_uppercase()), &chars(n)));
        assert!(!lowercase_equals(&chars(&format!("{}s", n)), &chars(n)));
    }
}
