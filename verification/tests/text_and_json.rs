use rust_request::json::{get_member, JsonValue};
use rust_request::request::UserTracks;

fn parse_json(text: &str) -> Result<JsonValue, String> {
    UserTracks::read_page(Some(text.to_string()))
}
use rust_request::text::{i32_text, parse_u64, u64_text};

#[test]
fn renders_unsigned_numbers() {
    assert_eq!(u64_text(0), "0");
    assert_eq!(u64_text(7), "7");
    assert_eq!(u64_text(12345), "12345");
    assert_eq!(u64_text(u64::MAX), "18446744073709551615");
}

#[test]
fn renders_signed_numbers() {
    assert_eq!(i32_text(0), "0");
    assert_eq!(i32_text(-42), "-42");
    assert_eq!(i32_text(i32::MIN), "-2147483648");
    assert_eq!(i32_text(i32::MAX), "2147483647");
}

#[test]
fn parses_unsigned_numbers_like_std() {
    for s in ["0", "123", "+5", "", "+", "-1", "12a", " 1", "18446744073709551615", "18446744073709551616", "007"] {
        assert_eq!(parse_u64(s), s.parse::<u64>().ok(), "input {:?}", s);
    }
    assert_eq!(parse_u64("1700000000"), Some(1700000000));
}

#[test]
fn parses_json_documents() {
    let v = parse_json(r#"{"total": 120, "name": "x", "f": 1.5, "big": 18446744073709551615, "list": [null, true]}"#).unwrap();
    assert!(matches!(get_member(&v, "total"), Some(JsonValue::Number(Some(120)))));
    assert!(matches!(get_member(&v, "name"), Some(JsonValue::Str(s)) if s == "x"));
    assert!(matches!(get_member(&v, "f"), Some(JsonValue::Number(None))));
    assert!(matches!(get_member(&v, "big"), Some(JsonValue::Number(None))));
    match get_member(&v, "list") {
        Some(JsonValue::Array(items)) => {
            assert_eq!(items.len(), 2);
            assert!(matches!(items[0], JsonValue::Null));
            assert!(matches!(items[1], JsonValue::Bool(true)));
        }
        _ => panic!("list expected"),
    }
    assert!(get_member(&v, "missing").is_none());
    assert!(get_member(&JsonValue::Null, "total").is_none());
}

#[test]
fn reports_json_syntax_errors() {
    let e = parse_json("{not json").err().unwrap();
    assert!(!e.is_empty());
}

#[test]
fn member_lookup_takes_the_first_match() {
    let obj = JsonValue::Object(vec![
        ("k".to_string(), JsonValue::Number(Some(1))),
        ("k".to_string(), JsonValue::Number(Some(2))),
    ]);
    assert!(matches!(get_member(&obj, "k"), Some(JsonValue::Number(Some(1)))));
}
