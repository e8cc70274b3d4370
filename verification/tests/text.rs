use hekla::hash::{hex_text, sha256_hex};
use hekla::json::Json;
use hekla::list::distinct_texts;
use hekla::order::sort_texts;
use hekla::text::{
    contains, is_before, join, lines, number, parse_i64, signed_number, trim, trim_end,
    wide_number,
};

fn owned(list: &[&str]) -> Vec<String> {
    list.iter().map(|text| (*text).to_owned()).collect()
}

#[test]
fn numbers_are_written_in_decimal() {
    assert_eq!(number(0), "0");
    assert_eq!(number(u64::MAX), "18446744073709551615");
    assert_eq!(signed_number(i64::MIN), "-9223372036854775808");
    assert_eq!(wide_number(i128::MIN), "-170141183460469231731687303715884105728");
}

#[test]
fn numbers_are_read_as_they_are_parsed() {
    for text in ["0", "-1", "+7", "007", "9223372036854775807", "-9223372036854775808"] {
        assert_eq!(parse_i64(text), text.parse::<i64>().ok(), "{text}");
    }
    for text in ["", "-", "+", "1 ", "9223372036854775808", "-9223372036854775809", "x", "١"] {
        assert_eq!(parse_i64(text), None, "{text}");
        assert!(text.parse::<i64>().is_err());
    }
}

#[test]
fn texts_are_trimmed_as_std_trims_them() {
    for text in ["", "  a b \t\n", "\u{a0}x\u{3000}", "plain", "\u{200b}x"] {
        assert_eq!(trim(text), text.trim());
        assert_eq!(trim_end(text), text.trim_end());
    }
}

#[test]
fn lines_are_those_of_std() {
    for text in ["", "a", "a\nb", "a\n", "\n", "a\r\nb\r\n", "a\n\nb"] {
        let std: Vec<String> = text.lines().map(str::to_owned).collect();
        assert_eq!(lines(text), std, "{text:?}");
    }
}

#[test]
fn texts_order_as_std_orders_them() {
    for (a, b) in [("", "a"), ("a", "b"), ("a", "ab"), ("b", "ab"), ("é", "z"), ("a", "a")] {
        assert_eq!(is_before(a, b), a < b, "{a} {b}");
    }
    assert_eq!(sort_texts(owned(&["b", "a", "c", "a"])), owned(&["a", "a", "b", "c"]));
    assert_eq!(distinct_texts(&owned(&["b", "a", "b"])), owned(&["b", "a"]));
    assert_eq!(join(&owned(&["a", "b"]), ", "), "a, b");
    assert!(contains("abc", "bc"));
    assert!(!contains("abc", "ca"));
}

#[test]
fn a_digest_is_that_of_the_algorithm() {
    assert_eq!(
        sha256_hex("abc"),
        "ba7816bf8f01cfea414140de5dae2223b00361a396177a9cb410ff61f20015ad"
    );
    assert_eq!(hex_text(&vec![0, 255, 16]), "00ff10");
}

#[test]
fn a_later_member_stands_in_for_an_earlier_one() {
    let object = Json::object().with("a", Json::Int(1)).with("a", Json::Int(2));
    assert!(matches!(object.get("a"), Some(Json::Int(2))));
    assert!(object.get("b").is_none());
    let without = object.without("a");
    assert!(without.get("a").is_none());
    let list = Json::array().item(Json::Null).copy();
    assert!(matches!(list, Json::Array(items) if items.len() == 1));
}
