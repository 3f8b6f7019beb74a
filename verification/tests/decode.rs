//! Decoding and normalizing the parts of a request.
use rust_waf::decode::{
    decode_base64_text, decode_html_entities, decode_single_html_entity, hex_value, looks_like_base64, lossy_text_of,
    readable_text_of, recursive_url_decode, url_decode_once,
};
use rust_waf::normalize::{
    dedup_non_empty, extract_base64_candidates, holds_text, normalize_body, normalize_body_text, normalize_header_name,
    normalize_header_text, normalize_header_value, normalize_method, normalize_path_or_query,
    normalize_signature_headers, normalize_text, should_attempt_base64_decode,
};
use rust_waf::number::{append_padded, decimal_text, hex_text, parse_signed, parse_unsigned};
use rust_waf::text::{
    blank_text, contains_text, ends_with_text, lower_text, replace_char, starts_with_text, trim_text, upper_text,
};
use rust_waf::text_map::{precedence, Precedence, TextMap};
use rust_waf::words::{collapse_whitespace, join_texts, segments_of, words_of};

fn strings(list: &[&str]) -> Vec<String> {
    list.iter().map(|s| s.to_string()).collect()
}

fn percent(text: &str) -> String {
    text.bytes().map(|b| format!("%{b:02X}")).collect()
}

#[test]
fn percent_layers_come_off_one_by_one() {
    let text = "' union select ü";
    let one = percent(text);
    let two = percent(&one);
    let three = percent(&two);
    assert_eq!(url_decode_once(&one), text);
    assert_eq!(recursive_url_decode(&three, 3), text);
    assert_eq!(recursive_url_decode(&three, 2), one);
    assert_eq!(recursive_url_decode(&one, 0), one);
    assert_eq!(normalize_path_or_query(&three), text);
}

#[test]
fn broken_escapes_stay() {
    assert_eq!(url_decode_once("100%"), "100%");
    assert_eq!(url_decode_once("%2"), "%2");
    assert_eq!(url_decode_once("%zz%41"), "%zzA");
    assert_eq!(url_decode_once("a+b"), "a b");
    assert_eq!(url_decode_once("%ff"), "\u{fffd}");
    assert_eq!(url_decode_once("plain ü"), "plain ü");
}

#[test]
fn hex_digits_have_values() {
    assert_eq!(hex_value(b'0'), Some(0));
    assert_eq!(hex_value(b'f'), Some(15));
    assert_eq!(hex_value(b'A'), Some(10));
    assert_eq!(hex_value(b'g'), None);
}

#[test]
fn references_are_read() {
    assert_eq!(decode_single_html_entity("amp"), Some('&'));
    assert_eq!(decode_single_html_entity("quot"), Some('"'));
    assert_eq!(decode_single_html_entity("apos"), Some('\''));
    assert_eq!(decode_single_html_entity("nbsp"), Some(' '));
    assert_eq!(decode_single_html_entity("#x1F600"), Some('\u{1F600}'));
    assert_eq!(decode_single_html_entity("#X41"), Some('A'));
    assert_eq!(decode_single_html_entity("#65"), Some('A'));
    assert_eq!(decode_single_html_entity("#xD800"), None);
    assert_eq!(decode_single_html_entity("#"), None);
    assert_eq!(decode_single_html_entity("AMP"), None);
}

#[test]
fn unknown_references_stay() {
    assert_eq!(decode_html_entities("a & b; &foo; &#99999999999;"), "a & b; &foo; &#99999999999;");
    assert_eq!(decode_html_entities("no references"), "no references");
    let all: String = "<ü>".chars().map(|c| format!("&#{};", c as u32)).collect();
    assert_eq!(decode_html_entities(&all), "<ü>");
    assert_eq!(normalize_body_text(&all), "<ü>");
}

#[test]
fn base64_is_recognized_by_its_shape() {
    assert!(looks_like_base64(" U0VMRUNU "));
    assert!(!looks_like_base64("U0VMRUN"));
    assert!(!looks_like_base64("U0VM"));
    assert!(!looks_like_base64("U0VM RUNU"));
    assert_eq!(decode_base64_text("U0VMRUNU").as_deref(), Some("SELECT"));
    assert_eq!(decode_base64_text("ICAgICAg"), None);
    assert_eq!(decode_base64_text("////////"), None);
    assert_eq!(decode_base64_text("U0VM===="), None);
    assert_eq!(readable_text_of(vec![104, 105]).as_deref(), Some("hi"));
    assert_eq!(readable_text_of(vec![255]), None);
    assert_eq!(readable_text_of(vec![32]), None);
    assert_eq!(lossy_text_of(&[104, 255]), "h\u{fffd}");
}

#[test]
fn forms_are_settled() {
    for text in [" A  b\tC ", "", "x", "ÄÖ ü", " \u{a0} "] {
        let form = normalize_text(text);
        assert_eq!(normalize_text(&form), form);
        let method = normalize_method(text);
        assert_eq!(normalize_method(&method), method);
        let name = normalize_header_name(text);
        assert_eq!(normalize_header_name(&name), name);
    }
    assert_eq!(normalize_header_text(" A  b\tC "), "a b c");
    assert_eq!(normalize_text("SELECT"), normalize_text("select"));
}

#[test]
fn distinct_texts_are_kept_once() {
    let unique = dedup_non_empty(strings(&["a", " ", "b", "a", "", "c", "b"]));
    assert_eq!(unique, strings(&["a", "b", "c"]));
    assert_eq!(dedup_non_empty(unique.clone()), unique);
    assert!(holds_text(&unique, "b") && !holds_text(&unique, "d"));
}

#[test]
fn header_values_are_decoded_where_they_carry_secrets() {
    assert!(should_attempt_base64_decode("authorization"));
    assert!(should_attempt_base64_decode("x-client-secret"));
    assert!(should_attempt_base64_decode("proxy-authorization"));
    assert!(!should_attempt_base64_decode("accept"));
    assert_eq!(extract_base64_candidates(" Basic U0VMRUNU "), strings(&["Basic U0VMRUNU", "U0VMRUNU"]));
    assert_eq!(extract_base64_candidates("one"), strings(&["one"]));
    assert!(extract_base64_candidates("  ").is_empty());
    assert_eq!(normalize_header_value("authorization", "Basic U0VMRUNU"), strings(&["basic u0vmrunu", "select"]));
    assert_eq!(normalize_header_value("accept", "U0VMRUNU"), strings(&["u0vmrunu"]));
}

#[test]
fn bodies_take_both_forms() {
    assert_eq!(normalize_body("U0VMRUNU"), strings(&["u0vmrunu", "select"]));
    assert_eq!(normalize_body("%3CSCRIPT%3E"), strings(&["<script>"]));
    assert!(normalize_body("+").is_empty());
}

#[test]
fn last_header_of_one_form_counts() {
    let headers = TextMap::from_pairs(vec![
        ("X-A".to_string(), "one".to_string()),
        ("x-a".to_string(), "TWO".to_string()),
    ]);
    let forms = normalize_signature_headers(&headers);
    assert_eq!(forms.len(), 1);
    assert_eq!(forms.get("x-a"), Some(&strings(&["two"])));
}

#[test]
fn texts_are_cut_and_compared() {
    assert_eq!(trim_text("\u{2003} a b \n"), "a b");
    assert!(blank_text("\u{3000}") && !blank_text("x"));
    assert_eq!(lower_text("AbÄ"), "abÄ");
    assert_eq!(upper_text("abä"), "ABä");
    assert!(contains_text("abc", "bc") && contains_text("abc", "") && !contains_text("abc", "cb"));
    assert!(starts_with_text("abc", "ab") && !starts_with_text("a", "ab"));
    assert!(ends_with_text("abc", "bc") && !ends_with_text("c", "bc"));
    assert_eq!(replace_char("a\"b\"", '"', "''"), "a''b''");
}

#[test]
fn words_and_segments() {
    assert_eq!(words_of(" a\tbc  d "), strings(&["a", "bc", "d"]));
    assert!(words_of(" ").is_empty());
    assert_eq!(segments_of("a&&b&", '&'), strings(&["a", "", "b", ""]));
    assert_eq!(segments_of("", '&'), strings(&[""]));
    assert_eq!(join_texts(&strings(&["a", "b"]), ", "), "a, b");
    assert_eq!(join_texts(&strings(&[]), ", "), "");
    let once = collapse_whitespace(" a \n b ");
    assert_eq!(once, "a b");
    assert_eq!(collapse_whitespace(&once), once);
}

#[test]
fn numbers_are_read_and_written() {
    assert_eq!(parse_unsigned("42", 10, 100), Some(42));
    assert_eq!(parse_unsigned("+42", 10, 100), Some(42));
    assert_eq!(parse_unsigned("ff", 16, 255), Some(255));
    assert_eq!(parse_unsigned("100", 16, 255), None);
    assert_eq!(parse_unsigned("+", 10, 100), None);
    assert_eq!(parse_unsigned("-0", 10, 100), None);
    assert_eq!(parse_signed("-0"), Some(0));
    assert_eq!(parse_signed("9223372036854775807"), Some(i64::MAX));
    assert_eq!(parse_signed("--1"), None);
    for n in [0, 9, 10, 12345, u64::MAX] {
        assert_eq!(decimal_text(n), n.to_string());
        assert_eq!(parse_unsigned(&decimal_text(n), 10, u64::MAX), Some(n));
    }
    let mut text = "x".to_string();
    append_padded(&mut text, 42, 5);
    append_padded(&mut text, 123, 2);
    assert_eq!(text, "x00042123");
    assert_eq!(hex_text(&vec![0, 171, 255]), "00abff");
}

#[test]
fn maps_are_sorted_by_their_keys() {
    let mut map = TextMap::new();
    map.insert("b".to_string(), 1);
    map.insert("a".to_string(), 2);
    map.insert("b".to_string(), 3);
    map.insert("ab".to_string(), 4);
    assert_eq!(map.len(), 3);
    let entries: Vec<(&str, i32)> = (0..map.len()).map(|i| (map.key_at(i), *map.value_at(i))).collect();
    assert_eq!(entries, vec![("a", 2), ("ab", 4), ("b", 3)]);
    assert_eq!(map.get("b"), Some(&3));
    assert!(map.contains_key("ab") && !map.contains_key("c"));
    assert_eq!(map.clone().len(), 3);
    assert!(matches!(precedence("a", "b"), Precedence::Before));
    assert!(matches!(precedence("b", "a"), Precedence::After));
    assert!(matches!(precedence("ä", "ä"), Precedence::Same));
    assert!(matches!(precedence("z", "ä"), Precedence::Before));
}
