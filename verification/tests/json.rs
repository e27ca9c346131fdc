use evm_assets::json::Json;
use evm_assets::text;

fn json(text: &str) -> Json {
    Json::parse(text).unwrap()
}

#[test]
fn texts_read_and_write() {
    for text in [
        "null",
        "true",
        "0",
        "18446744073709551615",
        "-9223372036854775808",
        r#""a\n\"é""#,
        "[]",
        r#"[1,[2,{"a":null}],"x"]"#,
        r#"{"a":{"b":[false]},"c":-1}"#,
    ] {
        assert_eq!(json(text).to_text(), text);
        assert_eq!(json(&json(text).to_text()), json(text));
    }
}

#[test]
fn keys_are_written_in_order_and_the_last_one_counts() {
    assert_eq!(json(r#"{"b":1,"a":2,"b":3}"#).to_text(), r#"{"a":2,"b":3}"#);
    let twice = Json::Object(vec![("k".into(), Json::Unsigned(1)), ("k".into(), Json::Null)]);
    assert_eq!(twice.get("k"), Some(&Json::Null));
    assert_eq!(twice.to_text(), r#"{"k":null}"#);
}

#[test]
fn numbers_are_told_apart() {
    assert_eq!(json("1").as_u64(), Some(1));
    assert_eq!(json("-1").as_u64(), None);
    assert_eq!(json("1.5").as_u64(), None);
    assert_eq!(json("1.0").as_u64(), None);
    assert_eq!(json("18446744073709551616").as_u64(), None);
    assert_eq!(Json::Signed(7).as_u64(), Some(7));
    assert_eq!(Json::Signed(7).to_text(), "7");
    assert_eq!(Json::Float(serde_json::Number::from(7u64)).as_u64(), Some(7));
    assert_eq!(Json::Float(serde_json::Number::from(-7i64)).as_u64(), None);
    assert_eq!(json("1.5").to_text(), "1.5");
    assert_eq!(json("1.5").clone(), json("1.5"));
}

#[test]
fn values_of_the_wrong_kind_are_not_there() {
    let v = json(r#"{"s":"x","n":300,"b":true,"l":[1]}"#);
    assert_eq!(v.get_str("s"), Some("x"));
    assert_eq!(v.get_str("n"), None);
    assert_eq!(v.get_u64("n"), Some(300));
    assert_eq!(v.get_u8("n"), None);
    assert_eq!(v.get_bool("b"), Some(true));
    assert_eq!(v.get_bool("s"), None);
    assert_eq!(v.get_array("l").unwrap().len(), 1);
    assert!(v.get_array("s").is_none());
    assert!(v.get("missing").is_none() && json("[]").get("s").is_none());
    assert!(v.is_object() && !v.is_null() && json("null").is_null());
    assert_eq!(v.keys().len(), 4);
    assert!(json("[]").keys().is_empty());
}

#[test]
fn writing_and_taking_away() {
    let mut v = Json::Null;
    v.set("a", Json::Bool(true));
    v.set("b", Json::text("x"));
    v.set("a", Json::Unsigned(2));
    assert_eq!(v.to_text(), r#"{"a":2,"b":"x"}"#);
    v.remove("a");
    v.remove("a");
    assert_eq!(v.to_text(), r#"{"b":"x"}"#);
    let mut list = json("[1]");
    list.remove("a");
    assert_eq!(list, json("[1]"));
}

#[test]
fn texts_that_are_no_json_are_refused_with_a_message() {
    let message = Json::parse("{").unwrap_err();
    assert_eq!(message, serde_json::from_str::<serde_json::Value>("{").unwrap_err().to_string());
}

#[test]
fn depth_is_bounded() {
    let nested = |n: usize| format!("{}{}", "[".repeat(n), "]".repeat(n));
    assert_eq!(json(&nested(127)).to_text(), nested(127));
    assert!(Json::parse(&nested(128)).is_err());
}

#[test]
fn trees_carry_over() {
    let text = r#"{"a":[1,-2,2.5,"x",null,true]}"#;
    let tree: serde_json::Value = serde_json::from_str(text).unwrap();
    assert_eq!(Json::from_value(tree), json(text));
}

#[test]
fn white_space_is_that_of_the_language() {
    for n in 0..=0x10ffffu32 {
        if let Some(c) = char::from_u32(n) {
            assert_eq!(text::is_white_space(c), c.is_whitespace(), "{n:x}");
            assert_eq!(text::fold(c), c.to_ascii_lowercase(), "{n:x}");
        }
    }
}

#[test]
fn texts_are_trimmed_folded_and_ordered() {
    for s in ["", " ", "\u{a0}x\u{2003}", " a b ", "\t\nÄb\u{85}"] {
        assert_eq!(text::trim(s), s.trim());
        assert_eq!(text::to_lower(s), s.to_ascii_lowercase());
    }
    for a in ["", "a", "ab", "b", "Z", "é", "\u{10000}", "\u{ffff}"] {
        for b in ["", "a", "ab", "b", "Z", "é", "\u{10000}", "\u{ffff}"] {
            assert_eq!(text::is_before(a, b), a < b, "{a} {b}");
            assert_eq!(text::same(a, b), a == b);
            assert_eq!(text::same_folded(a, b), a.eq_ignore_ascii_case(b));
        }
    }
    for s in ["", "0x", "0x12", "0x0x12", "0X12", "12", "00x1"] {
        assert_eq!(text::strip_0x(s), s.trim_start_matches("0x"));
    }
}

#[test]
fn what_is_written_reads_as_the_same_but_for_floats() {
    let mut numbers = vec![
        f64::MAX,
        f64::MIN,
        f64::MIN_POSITIVE,
        5e-324,
        -0.0,
        0.0,
        5.0,
        0.1,
        1e15,
        1e16,
        1e17,
        1e22,
        123456789012345680.0,
        18446744073709551616.0,
        -9223372036854775808.0,
        1.7976931348623155e308,
        2.2250738585072011e-308,
    ];
    let mut bits = f64::MAX.to_bits();
    for _ in 0..1000 {
        bits -= 1;
        numbers.push(f64::from_bits(bits));
    }
    // Every exponent, with a few significands each.
    for exponent in 0..2047u64 {
        for significand in [0, 1, 0x5555555555555, 0xfffffffffffff] {
            numbers.push(f64::from_bits(exponent << 52 | significand));
        }
    }
    for number in numbers {
        let v = Json::Array(vec![
            Json::Float(serde_json::Number::from_f64(number).unwrap()),
            Json::text("beside"),
        ]);
        let read = json(&v.to_text());
        let items = read.as_array().unwrap();
        assert_eq!(items.len(), 2);
        assert!(matches!(&items[0], Json::Float(n) if n.is_f64()), "{number:e}");
        assert_eq!(items[1], Json::text("beside"));
    }
}
