use rpsee::json::{parse, parse_bytes, Json, Numeric};

fn json(text: &str) -> Json {
    parse(text).unwrap()
}

#[test]
fn texts_are_read_and_written() {
    let value = json(r#"{"b": [1, -2, "x\ny", null, true], "a": {"c": 18446744073709551615}}"#);
    assert_eq!(
        value.to_text(),
        r#"{"a":{"c":18446744073709551615},"b":[1,-2,"x\ny",null,true]}"#
    );
    assert_eq!(json(&value.to_text()).to_text(), value.to_text());
    assert_eq!(
        parse_bytes(value.to_text().into_bytes()).unwrap().to_text(),
        value.to_text()
    );
}

#[test]
fn malformed_texts_are_refused() {
    for text in ["{", "", "not JSON", "[1,]"] {
        assert!(parse(text).is_none());
        assert!(parse_bytes(text.as_bytes().to_vec()).is_none());
    }
    assert!(parse_bytes(b"\xff".to_vec()).is_none());
}

#[test]
fn deep_values_are_read_up_to_the_limit_of_each_reader() {
    let nested = |levels: usize| format!("{}{}", "[".repeat(levels), "]".repeat(levels));
    assert!(parse(&nested(127)).is_some());
    assert!(parse(&nested(128)).is_none());
    assert!(parse_bytes(nested(1024).into_bytes()).is_some());
    assert!(parse_bytes(nested(1025).into_bytes()).is_none());
}

#[test]
fn the_last_entry_of_a_key_counts() {
    let doubled = Json::Object(vec![
        ("a".to_string(), Json::unsigned(1)),
        ("b".to_string(), Json::unsigned(2)),
        ("a".to_string(), Json::unsigned(3)),
    ]);
    assert_eq!(doubled.get("a").unwrap().as_u64(), Some(3));
    assert_eq!(doubled.to_text(), r#"{"a":3,"b":2}"#);
    assert_eq!(json(r#"{"a":1,"a":2}"#).to_text(), r#"{"a":2}"#);
}

#[test]
fn entries_are_read_and_replaced() {
    let mut value = json(r#"{"id":1,"params":["x",2]}"#);
    assert_eq!(value.member("params").at(0).unwrap().as_str(), Some("x"));
    assert_eq!(value.member("params").at(1).unwrap().as_u64(), Some(2));
    assert!(value.member("params").at(2).is_none());
    assert!(value.get("missing").is_none());
    assert!(value.member("missing").is_null());
    value.insert("id", Json::integer(-7));
    value.insert("new", Json::text("quoted \""));
    assert_eq!(
        value.to_text(),
        r#"{"id":-7,"new":"quoted \"","params":["x",2]}"#
    );
    assert_eq!(value.clone().to_text(), value.to_text());
    let mut text = Json::text("x");
    text.insert("id", Json::Null);
    assert_eq!(text.to_text(), r#""x""#);
}

#[test]
fn integers_are_told_apart() {
    assert!(matches!(json("5"), Json::Number(Numeric::Unsigned(5))));
    assert!(matches!(json("-5"), Json::Number(Numeric::Negative(-5))));
    assert!(matches!(json("5.5"), Json::Number(Numeric::Fraction(_))));
    assert_eq!(json("-5").as_u64(), None);
    assert_eq!(Json::integer(5).as_u64(), Some(5));
    assert_eq!(Json::integer(5).to_text(), "5");
    assert_eq!(json("5.5").to_text(), "5.5");
}

#[test]
fn fractions_come_to_a_whole_part_and_a_text() {
    for (text, whole, written) in [
        ("5.0", 5, "5"),
        ("5.75", 5, "5.75"),
        ("-3.5", 0, "-3.5"),
        ("1e300", u64::MAX, ""),
    ] {
        match json(text) {
            Json::Number(Numeric::Fraction(number)) => {
                let (found, shown) = number.size().unwrap();
                assert_eq!(found, whole);
                if !written.is_empty() {
                    assert_eq!(shown, written);
                }
            }
            _ => panic!("a fraction was expected"),
        }
    }
}
