use govdoc::json::{parse_json_opt, Json, JsonNumber};

#[test]
fn values_are_read_back_from_their_text() {
    for text in [
        "null",
        "true",
        "[]",
        "{}",
        "[1,-2,\"ก\",null,{\"a\":[false]}]",
        "{\"a\":1,\"b\":{\"c\":\"x\\\"y\"}}",
    ] {
        let value = Json::parse(text).unwrap();
        assert_eq!(value.to_text(), text);
        assert_eq!(value.copy().to_text(), text);
        assert_eq!(Json::parse(&value.to_pretty_text()).unwrap().to_text(), text);
    }
}

#[test]
fn numbers_keep_their_form() {
    assert!(matches!(
        Json::parse("18446744073709551615").unwrap(),
        Json::Number(JsonNumber::Unsigned(u64::MAX))
    ));
    assert!(matches!(
        Json::parse("-3").unwrap(),
        Json::Number(JsonNumber::Negative(-3))
    ));
    match Json::parse("0.25").unwrap() {
        Json::Number(JsonNumber::Decimal(text)) => assert_eq!(text, "0.25"),
        other => panic!("{other:?}"),
    }
    assert_eq!(Json::parse("0.25").unwrap().to_text(), "0.25");
}

#[test]
fn what_is_not_json_is_refused() {
    assert!(Json::parse("").is_err());
    assert!(Json::parse("{").is_err());
    assert!(Json::parse("{} x").is_err());
    assert!(parse_json_opt(None).is_none());
    assert!(parse_json_opt(Some("{")).is_none());
    assert_eq!(parse_json_opt(Some("[1]")).unwrap().to_text(), "[1]");
}

#[test]
fn nesting_is_read_up_to_its_limit() {
    let nested = |n: usize| format!("{}{}", "[".repeat(n), "]".repeat(n));
    assert!(Json::parse(&nested(127)).is_ok());
    assert!(Json::parse(&nested(128)).is_err());
}

#[test]
fn members_are_found_and_replaced() {
    let mut object = Json::object()
        .with("a", Json::text("1"))
        .with("b", Json::texts(&vec!["x".to_string()]));
    assert_eq!(object.get("a").unwrap().as_str(), Some("1"));
    assert!(object.get("c").is_none());
    object.insert("a", Json::unsigned(2));
    assert_eq!(object.to_text(), "{\"a\":2,\"b\":[\"x\"]}");
    assert_eq!(object.get("b").unwrap().at(0).unwrap().as_str(), Some("x"));
    assert!(object.get("b").unwrap().at(1).is_none());
    assert!(object.is_object());
    assert!(Json::Null.get("a").is_none());
    assert_eq!(Json::text_or_null(None).to_text(), "null");
    assert_eq!(Json::Bool(true).as_bool(), Some(true));
}
