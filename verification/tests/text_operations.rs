use lings::text::{
    eq_ignoring_case, eq_text, find, find_last, is_white_space, to_chars, to_decimal, to_lower,
    to_text, trim_end_char, trim_text,
};

fn chars(s: &str) -> Vec<char> {
    to_chars(s)
}

#[test]
fn white_space_is_that_of_the_standard_library() {
    for n in 0..=0x10ffffu32 {
        if let Some(c) = char::from_u32(n) {
            assert_eq!(is_white_space(c), c.is_whitespace(), "{:x}", n);
        }
    }
}

#[test]
fn trimming_is_that_of_the_standard_library() {
    for s in ["", " ", "  a b \t\n", "\u{3000}x\u{a0}", "plain", "\u{85}\u{2028}"] {
        let v = chars(s);
        assert_eq!(trim_text(&v, 0, v.len()), s.trim());
    }
    assert_eq!(trim_end_char("xml\0\0", '\0'), "xml");
    assert_eq!(trim_end_char("\0\0", '\0'), "");
    assert_eq!(trim_end_char("a\0b", '\0'), "a\0b");
}

#[test]
fn searches_find_the_first_and_the_last_occurrence() {
    let s = chars("abcabc");
    assert_eq!(find(&s, &chars("bc"), 0), Some(1));
    assert_eq!(find(&s, &chars("bc"), 2), Some(4));
    assert_eq!(find(&s, &chars("bc"), 5), None);
    assert_eq!(find(&s, &chars(""), 6), Some(6));
    assert_eq!(find(&s, &chars(""), 7), None);
    assert_eq!(find_last(&s, &chars("bc")), Some(4));
    assert_eq!(find_last(&s, &chars("")), Some(6));
    assert_eq!(find_last(&s, &chars("x")), None);
}

#[test]
fn case_is_folded_for_ascii_letters_only() {
    let v = to_lower(&chars("AZaz09ÄÉ[@"));
    assert_eq!(to_text(&v, 0, v.len()), "azaz09ÄÉ[@");
    assert!(eq_ignoring_case("Cat_ID", "cat_id"));
    assert!(!eq_ignoring_case("Ä", "ä"));
    assert!(!eq_ignoring_case("cat", "cat_id"));
    assert!(eq_text("é", "é"));
    assert!(!eq_text("é", "e"));
}

#[test]
fn numbers_are_written_in_decimal() {
    for n in [0u64, 9, 10, 99, 100, 800, 2024, u64::MAX] {
        assert_eq!(to_decimal(n), n.to_string());
    }
}
