use invar::text::{
    char_is_whitespace, count_matches, decimal_string, find_from, from_chars, hex16_string, join2, join3,
    join_strings, sorted_copy, split_lines, split_spans, split_words, str_contains, str_eq,
    str_order, str_starts_with, to_chars, trim_matches_span, trim_span, Precedence,
};

fn chars(s: &str) -> Vec<char> {
    s.chars().collect()
}

fn pieces(s: &str, spans: &[(usize, usize)]) -> Vec<String> {
    let c = chars(s);
    spans.iter().map(|(a, b)| c[*a..*b].iter().collect()).collect()
}

#[test]
fn strings_are_ordered_by_their_bytes() {
    assert_eq!(str_order("a", "b"), Precedence::Before);
    assert_eq!(str_order("b", "a"), Precedence::After);
    assert_eq!(str_order("", ""), Precedence::Same);
    assert_eq!(str_order("", "a"), Precedence::Before);
    assert_eq!(str_order("ab", "a"), Precedence::After);
    assert_eq!(str_order("Z", "a"), Precedence::Before);
    assert_eq!(str_order("é", "z"), Precedence::After);
    assert_eq!(str_order("日本", "日本"), Precedence::Same);
    assert!(str_eq("x", "x") && !str_eq("x", "X"));
    for (a, b) in [("apple", "apricot"), ("é", "e"), ("a\u{10000}", "a\u{ffff}"), ("", "\0")] {
        let expected = match a.cmp(b) {
            std::cmp::Ordering::Less => Precedence::Before,
            std::cmp::Ordering::Equal => Precedence::Same,
            std::cmp::Ordering::Greater => Precedence::After,
        };
        assert_eq!(str_order(a, b), expected);
    }
}

#[test]
fn sorting_agrees_with_the_standard_sort() {
    let items: Vec<String> =
        ["pear", "Apple", "", "é", "apple", "pear", "a\u{10000}", "a\u{ffff}", "~"]
            .iter()
            .map(|s| s.to_string())
            .collect();
    let mut expected = items.clone();
    expected.sort();
    assert_eq!(sorted_copy(&items), expected);
    assert_eq!(sorted_copy(&[]), Vec::<String>::new());
}

#[test]
fn substrings_are_found() {
    assert!(str_contains("hello world", "o w"));
    assert!(str_contains("hello", ""));
    assert!(str_contains("", ""));
    assert!(!str_contains("", "a"));
    assert!(!str_contains("hello", "hellos"));
    assert!(str_contains("naïve café", "ïve c"));
    assert!(str_starts_with("file_handle", "file_"));
    assert!(!str_starts_with("profile_", "file_"));
    assert!(str_starts_with("x", ""));
    assert_eq!(find_from(&chars("abcabc"), &chars("bc"), 0), Some(1));
    assert_eq!(find_from(&chars("abcabc"), &chars("bc"), 2), Some(4));
    assert_eq!(find_from(&chars("abcabc"), &chars("bc"), 5), None);
    assert_eq!(find_from(&chars("abc"), &chars(""), 3), Some(3));
    assert_eq!(find_from(&chars("abc"), &chars(""), 4), None);
    assert_eq!(count_matches(&chars("aaaa"), &chars("aa")), 2);
    assert_eq!(count_matches(&chars("abcabcab"), &chars("abc")), 2);
    assert_eq!(count_matches(&chars(""), &chars("a")), 0);
}

#[test]
fn numbers_are_written_in_base_ten_and_sixteen() {
    assert_eq!(decimal_string(0), "0");
    assert_eq!(decimal_string(9), "9");
    assert_eq!(decimal_string(10), "10");
    assert_eq!(decimal_string(u128::MAX), u128::MAX.to_string());
    assert_eq!(hex16_string(0), "0000000000000000");
    assert_eq!(hex16_string(0xabc), "0000000000000abc");
    assert_eq!(hex16_string(u64::MAX), "ffffffffffffffff");
    assert_eq!(hex16_string(0x0123_4567_89ab_cdef), "0123456789abcdef");
    assert_eq!(hex16_string(0x8000_0000_0000_0000), format!("{:016x}", 1u64 << 63));
}

#[test]
fn strings_are_joined_and_converted() {
    assert_eq!(join2("a", "b"), "ab");
    assert_eq!(join3("a", "::", "b"), "a::b");
    assert_eq!(join_strings(&["x".to_string(), "y".to_string(), "z".to_string()], ", "), "x, y, z");
    assert_eq!(join_strings(&["x".to_string()], ", "), "x");
    assert_eq!(join_strings(&[], ", "), "");
    assert_eq!(to_chars("añ日"), vec!['a', 'ñ', '日']);
    assert_eq!(from_chars(&chars("hello"), 1, 3), "el");
}

#[test]
fn lines_end_at_line_feeds() {
    let lines = |s: &str| -> Vec<String> {
        split_lines(&chars(s)).into_iter().map(|l| l.into_iter().collect()).collect()
    };
    for s in ["", "a", "a\n", "a\n\n", "\n", "a\r\nb", "a\rb\n", "a\r", "a\r\n", "\r\n\r\n", "a\n\rb", "x\r\r\ny"]
    {
        let expected: Vec<String> = s.lines().map(str::to_string).collect();
        assert_eq!(lines(s), expected, "{:?}", s);
    }
}

#[test]
fn texts_are_split_and_trimmed() {
    for s in ["", ",", "a,b", ",a,,b,", "no commas"] {
        let expected: Vec<String> = s.split(',').map(str::to_string).collect();
        assert_eq!(pieces(s, &split_spans(&chars(s), ',')), expected, "{:?}", s);
    }
    for s in ["", "  ", "one", "  two  words\t\nthree\u{2003}four ", "\u{a0}x"] {
        let expected: Vec<String> = s.split_whitespace().map(str::to_string).collect();
        assert_eq!(pieces(s, &split_words(&chars(s))), expected, "{:?}", s);
    }
    for s in ["", " ", " a b ", "\t\n x \r\n", "\u{3000}wide\u{2028}", "x"] {
        let c = chars(s);
        let span = trim_span(&c, 0, c.len());
        assert_eq!(pieces(s, &[span]), vec![s.trim().to_string()], "{:?}", s);
    }
    for s in ["", "\"", "\"\"a\"b\"", "a\"", "\"\"\""] {
        let c = chars(s);
        let span = trim_matches_span(&c, 0, c.len(), '"');
        assert_eq!(pieces(s, &[span]), vec![s.trim_matches('"').to_string()], "{:?}", s);
    }
}

#[test]
fn white_space_is_what_the_standard_library_calls_white_space() {
    for n in 0..=0x10ffffu32 {
        if let Some(c) = char::from_u32(n) {
            assert_eq!(char_is_whitespace(c), c.is_whitespace(), "U+{:04X}", n);
        }
    }
    assert!(char_is_whitespace(' ') && char_is_whitespace('\t') && char_is_whitespace('\u{3000}'));
    assert!(!char_is_whitespace('a') && !char_is_whitespace('\u{200b}'));
}
