use pack_preferences::discovery::{parse_char_file, parse_user_file};
use pack_preferences::numerals::{parse_decimal, u64_to_text};
use pack_preferences::text::{chars_of, ends_with, lex_le_exec, starts_with};

fn chars(s: &str) -> Vec<char> {
    s.chars().collect()
}

#[test]
fn numbers_are_written_without_leading_zeros() {
    assert_eq!(u64_to_text(0), "0");
    assert_eq!(u64_to_text(7), "7");
    assert_eq!(u64_to_text(10), "10");
    assert_eq!(u64_to_text(1234567890), "1234567890");
    assert_eq!(u64_to_text(u64::MAX), "18446744073709551615");
}

#[test]
fn numerals_are_read_within_their_bounds() {
    let s = chars("ab0042cd");
    assert_eq!(parse_decimal(&s, 2, 6), Some(42));
    assert_eq!(parse_decimal(&s, 2, 2), Some(0));
    assert_eq!(parse_decimal(&s, 1, 6), None);
    assert_eq!(parse_decimal(&s, 2, 7), None);
    let big = chars("18446744073709551615");
    assert_eq!(parse_decimal(&big, 0, 20), Some(u64::MAX));
    let over = chars("18446744073709551616");
    assert_eq!(parse_decimal(&over, 0, 20), None);
    assert_eq!(parse_decimal(&chars("+5"), 0, 2), None);
    assert_eq!(parse_decimal(&chars("٣"), 0, 1), None);
}

#[test]
fn written_identity_is_read_back() {
    for n in [0u64, 1, 9, 10, 99, 100, 123456789, u64::MAX - 1, u64::MAX] {
        let text = u64_to_text(n);
        assert_eq!(parse_char_file(&format!("core_char_{}.dat", text)), Some((n, false)));
        assert_eq!(parse_user_file(&format!("core_user_{}.dat", text)), Some((n, false)));
    }
}

#[test]
fn text_is_taken_character_by_character() {
    assert_eq!(chars_of("añ€𝄞"), vec!['a', 'ñ', '€', '𝄞']);
    assert_eq!(chars_of(""), Vec::<char>::new());
    assert!(starts_with(&chars("core_char_1"), &chars("core_")));
    assert!(starts_with(&chars("abc"), &chars("")));
    assert!(starts_with(&chars("abc"), &chars("abc")));
    assert!(!starts_with(&chars("abc"), &chars("abcd")));
    assert!(!starts_with(&chars("abc"), &chars("b")));
    assert!(ends_with(&chars("x.dat"), &chars(".dat")));
    assert!(ends_with(&chars("x"), &chars("")));
    assert!(!ends_with(&chars("dat"), &chars(".dat")));
    assert!(!ends_with(&chars("x.dafs"), &chars(".dat")));
}

#[test]
fn dictionary_order_is_that_of_strings() {
    let samples = ["", "a", "ab", "abc", "b", "B", "a_backup_1", "a_backup_10", "é", "z"];
    for a in samples {
        for b in samples {
            assert_eq!(lex_le_exec(&chars(a), &chars(b)), a <= b, "{:?} {:?}", a, b);
        }
    }
}
