use corinth::fs::{file_exists, queues_folder};
use corinth::order::{sort_texts, text_less};
use corinth::text::{flag_is_on, parse_u32, parse_u64, parse_u8, parse_unsigned_text, text_eq};

#[test]
fn parse_u8_reads_plain_and_plus_signed_numbers() {
    assert_eq!(parse_u8("0"), Some(0));
    assert_eq!(parse_u8("1"), Some(1));
    assert_eq!(parse_u8("+12"), Some(12));
    assert_eq!(parse_u8("255"), Some(255));
    assert_eq!(parse_u8("007"), Some(7));
}

#[test]
fn parse_u8_refuses_what_str_parse_refuses() {
    assert_eq!(parse_u8("256"), None);
    assert_eq!(parse_u8(""), None);
    assert_eq!(parse_u8("+"), None);
    assert_eq!(parse_u8("-1"), None);
    assert_eq!(parse_u8("1a"), None);
    assert_eq!(parse_u8(" 1"), None);
    assert_eq!(parse_u8("++1"), None);
}

#[test]
fn parsers_agree_with_std() {
    for s in ["0", "+0", "255", "256", "65536", "4294967295", "4294967296", "18446744073709551615", "18446744073709551616", "", "+", "-0", "x", "12x", "٣"] {
        assert_eq!(parse_u8(s), s.parse::<u8>().ok(), "u8 {}", s);
        assert_eq!(parse_u32(s), s.parse::<u32>().ok(), "u32 {}", s);
        assert_eq!(parse_u64(s), s.parse::<u64>().ok(), "u64 {}", s);
    }
}

#[test]
fn parse_unsigned_text_respects_the_bound() {
    assert_eq!(parse_unsigned_text("10", 10), Some(10));
    assert_eq!(parse_unsigned_text("11", 10), None);
    assert_eq!(parse_unsigned_text("0", 0), Some(0));
}

#[test]
fn flags_are_on_only_for_true() {
    assert!(flag_is_on(Some("true")));
    assert!(!flag_is_on(Some("TRUE")));
    assert!(!flag_is_on(Some("false")));
    assert!(!flag_is_on(Some("")));
    assert!(!flag_is_on(None));
}

#[test]
fn text_eq_compares_characters() {
    assert!(text_eq("abc", "abc"));
    assert!(!text_eq("abc", "abd"));
    assert!(!text_eq("abc", "ab"));
}

#[test]
fn text_less_orders_as_string_ord() {
    let words = ["", "a", "ab", "b", "B", "é", "z", "aa", "ä"];
    for x in words {
        for y in words {
            assert_eq!(text_less(x, y), x < y, "{} {}", x, y);
        }
    }
}

#[test]
fn sort_texts_sorts_as_vec_sort() {
    let names: Vec<String> = vec!["orders".to_string(), "alpha".to_string(), "Zed".to_string(), "beta".to_string(), "al".to_string()];
    let mut expected = names.clone();
    expected.sort();
    assert_eq!(sort_texts(names), expected);
    assert_eq!(sort_texts(Vec::new()), Vec::<String>::new());
}

#[test]
fn queues_folder_is_under_the_data_folder() {
    assert_eq!(queues_folder("data"), "data/queues");
    assert_eq!(queues_folder(""), "/queues");
}

#[test]
fn file_exists_sees_the_disk() {
    assert!(file_exists(&"/".to_string()));
    assert!(!file_exists(&"/no/such/path/for/corinth".to_string()));
}
