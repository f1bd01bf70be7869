use boppo::text::{
    between, chars_of, contains, decimal_of, lines_of, pad_left, parse_u64, starts_with, str_eq,
    string_of, trim, white_space, words_of,
};

#[test]
fn strings_compare_by_their_characters() {
    assert!(str_eq("", ""));
    assert!(str_eq("grün", "grün"));
    assert!(!str_eq("a", "b"));
    assert!(!str_eq("a", "ab"));
}

#[test]
fn characters_make_strings() {
    let v = chars_of("añb");
    assert_eq!(v, ['a', 'ñ', 'b']);
    assert_eq!(string_of(&v, 1, 3), "ñb");
}

#[test]
fn trimming_takes_unicode_white_space() {
    assert_eq!(trim(" \t a b\u{2003}\n"), "a b");
    assert_eq!(trim("\u{3000}"), "");
    assert_eq!(trim("x"), "x");
}

#[test]
fn white_space_is_that_of_the_standard_library() {
    for c in '\0'..='\u{ffff}' {
        assert_eq!(white_space(c), c.is_whitespace());
    }
}

#[test]
fn searching_finds_substrings() {
    assert!(contains("The Boppo Tablet", "Boppo"));
    assert!(contains("x", ""));
    assert!(!contains("boppo", "Boppo"));
    assert!(!contains("Bop", "Boppo"));
    assert!(starts_with("total 3", "total"));
    assert!(!starts_with("tot", "total"));
}

#[test]
fn prefix_and_suffix_are_cut() {
    assert_eq!(between("boppo-12.local.", "boppo-", ".local."), Some("12".to_owned()));
    assert_eq!(between("boppo-.local", "boppo-", ".local."), None);
    assert_eq!(between("x-12.local.", "boppo-", ".local."), None);
    assert_eq!(between("aba", "ab", "ba"), None);
}

#[test]
fn numbers_are_written_and_read_in_decimal() {
    for n in [0, 7, 10, 105, 18446744073709551615] {
        assert_eq!(decimal_of(n), n.to_string());
        assert_eq!(parse_u64(&decimal_of(n)), Some(n));
    }
    for s in ["", "+", "-1", "1x", " 1", "18446744073709551616", "007", "+42", "++1"] {
        assert_eq!(parse_u64(s), s.parse::<u64>().ok());
    }
}

#[test]
fn words_are_separated_by_ascii_blanks() {
    for s in ["", "  ", "a b", "\ta\u{b}b\n c\u{c}d\r", "one", "x\u{a0}y z"] {
        let expected: Vec<&str> = s.split_ascii_whitespace().collect();
        assert_eq!(words_of(s), expected);
    }
}

#[test]
fn lines_end_with_line_feeds() {
    for s in ["", "\n", "a", "a\nb", "a\r\nb\r", "\r\n\r\n", "a\n\nb\n", "x\r\r\ny"] {
        let expected: Vec<&str> = s.lines().collect();
        assert_eq!(lines_of(s), expected);
    }
}

#[test]
fn padding_aligns_to_the_right() {
    assert_eq!(pad_left("12", 5), "   12");
    assert_eq!(pad_left("123456", 5), "123456");
    assert_eq!(pad_left("", 2), "  ");
}
