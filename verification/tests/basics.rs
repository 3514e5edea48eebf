use deskd::crypto::{hex_encode, random_token, token_of};
use deskd::json::{parse_json, render_json, Json, JsonNumber, ObjectBuilder};
use deskd::text::{
    format_i64, format_padded, head_within, lines, parse_i64, split_inclusive, text_from_utf8, trim,
};
use deskd::text_map::TextMap;
use deskd::yaml::{parse_yaml, Yaml};

#[test]
fn json_is_read_and_written() {
    let text = r#"{"b":[1,-2,0.5,true,null],"a":"x\ny"}"#;
    let v = parse_json(text).unwrap();
    assert_eq!(render_json(&v), r#"{"a":"x\ny","b":[1,-2,0.5,true,null]}"#);
    assert!(parse_json("").is_none());
    assert!(parse_json("{} x").is_none());
    assert_eq!(v.get("a").and_then(|a| a.as_str()), Some("x\ny"));
    assert_eq!(v.get("b").and_then(|b| b.as_array()).map(|b| b.len()), Some(5));
    assert!(matches!(parse_json("18446744073709551615"), Some(Json::Number(JsonNumber::Natural(u64::MAX)))));
    assert!(matches!(parse_json("-3"), Some(Json::Number(JsonNumber::Negative(-3)))));
    assert!(matches!(parse_json("1.0"), Some(Json::Number(JsonNumber::Decimal(_)))));
}

#[test]
fn members_keep_their_order() {
    let b = ObjectBuilder::new().with_text("z", "1").with("a", Json::Bool(true));
    assert_eq!(b.text(), r#"{"z":"1","a":true}"#);
    assert_eq!(ObjectBuilder::new().text(), "{}");
}

#[test]
fn yaml_is_read() {
    match parse_yaml("a: b\n") {
        Some(Yaml::Mapping(entries)) => {
            assert_eq!(entries.len(), 1);
            assert_eq!(entries[0].1.as_str(), Some("b"));
        }
        _ => panic!("expected a mapping"),
    }
    assert!(parse_yaml("a: [").is_none());
}

#[test]
fn texts() {
    assert_eq!(lines("a\r\nb\n\nc"), vec!["a", "b", "", "c"]);
    assert_eq!(split_inclusive("a\nb"), vec!["a\n", "b"]);
    assert_eq!(trim(" \t x \u{a0}"), "x");
    assert_eq!(format_i64(i64::MIN), "-9223372036854775808");
    assert_eq!(parse_i64("-9223372036854775808"), Some(i64::MIN));
    assert_eq!(parse_i64("+7"), Some(7));
    assert_eq!(parse_i64("9223372036854775808"), None);
    assert_eq!(parse_i64(""), None);
    assert_eq!(format_padded(7, 3), "007");
    assert_eq!(head_within("héllo", 2), "h");
    assert_eq!(text_from_utf8(vec![0xc3, 0xa9]), Some("é".to_string()));
    assert_eq!(text_from_utf8(vec![0xc3]), None);
}

#[test]
fn maps_keyed_by_text() {
    let mut m: TextMap<u32> = TextMap::new();
    m.insert("a".into(), 1);
    m.insert("b".into(), 2);
    m.insert("a".into(), 3);
    assert_eq!(m.len(), 2);
    assert_eq!(m.get("a"), Some(&3));
    assert_eq!(m.remove("a"), Some(3));
    assert!(!m.contains_key("a"));
    assert_eq!(m.keys(), vec!["b"]);
}

#[test]
fn bytes_as_text() {
    assert_eq!(hex_encode(&[0x00, 0xab, 0x1f]), "00ab1f");
    let a = random_token().unwrap();
    assert_ne!(Some(a), random_token());
}

#[test]
fn tokens_of_given_bytes() {
    assert_eq!(token_of(Some(vec![0; 32])).unwrap(), "A".repeat(43));
    assert_eq!(token_of(Some(vec![0xfb, 0xff])).unwrap(), "-_8");
    assert!(token_of(None).is_none());
}
