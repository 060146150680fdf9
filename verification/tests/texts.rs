use coordinator::decimal::{decimal_text, parse_i64, parse_u16, parse_u64, signed_decimal_text};
use coordinator::string_map::StringMap;
use coordinator::text::{join_texts, same_text, split_text, text_before, text_from};

fn owned(texts: &[&str]) -> Vec<String> {
    texts.iter().map(|text| text.to_string()).collect()
}

#[test]
fn texts_are_told_apart() {
    assert!(same_text("", ""));
    assert!(same_text("bot", "bot"));
    assert!(!same_text("bot", "bots"));
    assert!(!same_text("bot", "bet"));
}

#[test]
fn texts_are_cut_at_bytes() {
    assert_eq!(text_before("0b", 1), "0");
    assert_eq!(text_from("0b", 1), "b");
    assert_eq!(text_before("é!", 2), "é");
    assert_eq!(text_from("é!", 2), "!");
    assert_eq!(text_from("ab", 2), "");
}

#[test]
fn splitting_keeps_empty_pieces() {
    assert_eq!(split_text("a:b:c", ':'), owned(&["a", "b", "c"]));
    assert_eq!(split_text("", ':'), owned(&[""]));
    assert_eq!(split_text(":", ':'), owned(&["", ""]));
    assert_eq!(split_text("a::", ':'), owned(&["a", "", ""]));
    assert_eq!(split_text("héé:ü", ':'), owned(&["héé", "ü"]));
}

#[test]
fn splitting_agrees_with_the_standard_library() {
    for text in ["", ":", "a", "a:b", "::x::", "bot:17:é:"] {
        let expected: Vec<String> = text.split(':').map(|piece| piece.to_string()).collect();
        assert_eq!(split_text(text, ':'), expected);
    }
}

#[test]
fn splitting_undoes_joining() {
    let parts = owned(&["7", "12", "", "x"]);
    let joined = join_texts(&parts, ",");
    assert_eq!(joined, "7,12,,x");
    assert_eq!(split_text(&joined, ','), parts);
    assert_eq!(join_texts(&owned(&[]), ","), "");
    assert_eq!(join_texts(&owned(&["only"]), ","), "only");
}

#[test]
fn numbers_are_read() {
    assert_eq!(parse_u64("0"), Some(0));
    assert_eq!(parse_u64("+5"), Some(5));
    assert_eq!(parse_u64("007"), Some(7));
    assert_eq!(parse_u64("18446744073709551615"), Some(u64::MAX));
    assert_eq!(parse_u64("18446744073709551616"), None);
    assert_eq!(parse_u64(""), None);
    assert_eq!(parse_u64("+"), None);
    assert_eq!(parse_u64("-1"), None);
    assert_eq!(parse_u64("1 "), None);
    assert_eq!(parse_u16("65535"), Some(65535));
    assert_eq!(parse_u16("65536"), None);
    assert_eq!(parse_i64("-9223372036854775808"), Some(i64::MIN));
    assert_eq!(parse_i64("9223372036854775807"), Some(i64::MAX));
    assert_eq!(parse_i64("9223372036854775808"), None);
    assert_eq!(parse_i64("--1"), None);
    assert_eq!(parse_i64("-"), None);
}

#[test]
fn numbers_are_read_as_the_standard_library_reads_them() {
    for text in ["", "+", "-", "0", "-0", "+0", "00", "42", "-42", "4x", "１", "99999999999999999999"] {
        assert_eq!(parse_u64(text), text.parse::<u64>().ok());
        assert_eq!(parse_u16(text), text.parse::<u16>().ok());
        assert_eq!(parse_i64(text), text.parse::<i64>().ok());
    }
}

#[test]
fn numbers_are_written_and_read_back() {
    for n in [0, 7, 10, 6000, u64::MAX] {
        assert_eq!(decimal_text(n), n.to_string());
        assert_eq!(parse_u64(&decimal_text(n)), Some(n));
    }
    for n in [0, -1, 10, -6000, i64::MIN, i64::MAX] {
        assert_eq!(signed_decimal_text(n), n.to_string());
        assert_eq!(parse_i64(&signed_decimal_text(n)), Some(n));
    }
}

#[test]
fn a_map_holds_one_value_per_key() {
    let mut map: StringMap<u32> = StringMap::new();
    assert_eq!(map.len(), 0);
    map.insert("a".to_string(), 1);
    map.insert("b".to_string(), 2);
    map.insert("a".to_string(), 3);
    assert_eq!(map.len(), 2);
    assert_eq!(map.get("a"), Some(&3));
    assert_eq!(map.get("c"), None);
    assert!(map.contains_key("b"));
    assert_eq!(map.position("b"), Some(1));
    assert_eq!(map.position("c"), None);
    if let Some(value) = map.get_mut("b") {
        *value += 10;
    }
    assert_eq!(map.get_mut("c"), None);
    assert_eq!(map.key_at(1), "b");
    assert_eq!(*map.value_at(1), 12);
    assert_eq!(map.remove("a"), Some(3));
    assert_eq!(map.remove("a"), None);
    assert_eq!(map.remove_at(0), ("b".to_string(), 12));
    assert_eq!(map.len(), 0);
}
