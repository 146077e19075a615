//! The ground that the other modules stand on.
use myriad::json;
use myriad::json::{Json, Number};
use myriad::sort;
use myriad::text;

#[test]
fn trimming_and_splitting() {
    assert_eq!(text::trim(" \u{3000}a b\n"), "a b");
    assert_eq!(text::split_words(" a  b\tc "), vec!["a", "b", "c"]);
    assert_eq!(text::split("a::b", ':'), vec!["a", "", "b"]);
    assert_eq!(text::collapse("  a \n b "), "a b");
}

#[test]
fn cutting_keeps_whole_characters() {
    assert_eq!(text::truncate_str("aé中", 3), "aé");
    assert_eq!(text::truncate_str("aé中", 5), "aé");
    assert_eq!(text::truncate_str("aé中", 6), "aé中");
    assert_eq!(text::take_chars("aé中", 2), "aé");
}

#[test]
fn numbers_are_read_as_they_are_written() {
    for n in [0i64, 7, -1, 1200, i64::MAX, i64::MIN] {
        let shown = text::i64_text(n);
        assert_eq!(shown, n.to_string());
        assert_eq!(text::parse_i64(&shown), Some(n));
    }
    assert_eq!(text::parse_i64("+5"), Some(5));
    assert_eq!(text::parse_i64("9223372036854775808"), None);
    assert_eq!(text::parse_i64(""), None);
    assert_eq!(text::parse_i32("2147483648"), None);
    assert_eq!(text::parse_usize("+12"), Some(12));
    assert_eq!(text::parse_usize("-1"), None);
}

#[test]
fn an_entry_is_written_over_in_place() {
    let mut entries = vec![("a".to_string(), json::number(1))];
    json::set(&mut entries, "b", json::number(2));
    json::set(&mut entries, "a", json::number(-3));
    assert_eq!(entries.len(), 2);
    assert_eq!(json::field(&entries, "a"), Some(&json::number(-3)));
    assert_eq!(json::take(&mut entries, "a"), Some(json::number(-3)));
    assert_eq!(json::field(&entries, "a"), None);
    let o = json::object().with("b", json::number(2));
    assert_eq!(o, Json::Object(entries));
    assert_eq!(Json::Number(Number::Fraction(1.5f64.to_bits())).as_i64(), None);
}

#[test]
fn equal_keys_keep_their_order() {
    assert_eq!(sort::order_of(&vec![(2, 0), (1, 5), (2, -1), (1, 5)]), vec![1, 3, 2, 0]);
}
