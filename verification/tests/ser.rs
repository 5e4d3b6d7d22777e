use huml_rs::serde::ser::{is_valid_unquoted_key, Error, Serializer};
use huml_rs::serde::{from_str, round_trip, to_string};
use huml_rs::{HumlDict, HumlNumber, HumlValue};

fn text(s: &str) -> HumlValue {
    HumlValue::String(s.to_string())
}

fn integer(i: i64) -> HumlValue {
    HumlValue::Number(HumlNumber::Integer(i))
}

fn float(v: f64) -> HumlValue {
    HumlValue::Number(if v.is_nan() {
        HumlNumber::Nan
    } else if v.is_infinite() {
        HumlNumber::Infinity(v.is_sign_positive())
    } else {
        HumlNumber::Float(v.to_string())
    })
}

fn list(items: Vec<HumlValue>) -> HumlValue {
    HumlValue::List(items)
}

fn dict(entries: Vec<(&str, HumlValue)>) -> HumlValue {
    let mut d = HumlDict::new();
    for (k, v) in entries {
        d.insert(k.to_string(), v);
    }
    HumlValue::Dict(d)
}

fn integers(items: &[i64]) -> HumlValue {
    list(items.iter().map(|i| integer(*i)).collect())
}

fn written(write: impl FnOnce(&mut Serializer) -> Result<(), Error>) -> String {
    let mut ser = Serializer::new();
    write(&mut ser).unwrap();
    ser.into_string()
}

#[test]
fn test_serialize_simple_struct() {
    let person = dict(vec![
        ("name", text("Alice")),
        ("age", integer(30)),
        ("active", HumlValue::Boolean(true)),
    ]);

    let huml = to_string(&person).unwrap();
    println!("Serialized: {}", huml);

    assert!(huml.contains("name: \"Alice\""));
    assert!(huml.contains("age: 30"));
    assert!(huml.contains("active: true"));
}

#[test]
fn test_serialize_with_list() {
    let person = dict(vec![
        ("name", text("Bob")),
        ("hobbies", list(vec![text("reading"), text("coding")])),
    ]);

    let huml = to_string(&person).unwrap();
    println!("Serialized: {}", huml);

    assert!(huml.contains("name: \"Bob\""));
    assert!(huml.contains("hobbies:: \"reading\", \"coding\""));
}

#[test]
fn test_serialize_enum_variants() {
    let huml = written(|ser| ser.serialize_unit_variant("Active"));
    assert_eq!(huml, "\"Active\"");

    let huml = written(|ser| {
        let mut fields = ser.serialize_struct_variant("Inactive")?;
        fields.serialize_field(ser, "reason");
        ser.serialize_str("maintenance")?;
        fields.end(ser)
    });
    assert!(huml.contains("Inactive::"));
    assert!(huml.contains("reason: \"maintenance\""));

    let huml = written(|ser| {
        ser.serialize_newtype_variant("Pending")?;
        ser.serialize_u32(42)
    });
    assert!(huml.contains("Pending: 42"));
}

#[test]
fn test_serialize_primitive_types() {
    assert_eq!(to_string(&text("hello")).unwrap(), "\"hello\"");
    assert_eq!(to_string(&integer(42)).unwrap(), "42");
    assert_eq!(to_string(&float(3.14)).unwrap(), "3.14");
    assert_eq!(to_string(&HumlValue::Boolean(true)).unwrap(), "true");
    assert_eq!(to_string(&HumlValue::Boolean(false)).unwrap(), "false");

    let empty_list = integers(&[]);
    assert_eq!(to_string(&empty_list).unwrap(), "[]");

    let list = integers(&[1, 2, 3]);
    assert_eq!(to_string(&list).unwrap(), "1, 2, 3");
}

#[test]
fn test_serialize_special_numbers() {
    assert_eq!(to_string(&float(f64::NAN)).unwrap(), "nan");
    assert_eq!(to_string(&float(f64::INFINITY)).unwrap(), "inf");
    assert_eq!(to_string(&float(f64::NEG_INFINITY)).unwrap(), "-inf");
}

#[test]
fn test_serialize_empty_containers() {
    let empty_map = dict(vec![]);
    assert_eq!(to_string(&empty_map).unwrap(), "{}");

    let empty_vec = list(vec![]);
    assert_eq!(to_string(&empty_vec).unwrap(), "[]");
}

#[test]
fn test_unquoted_keys() {
    assert!(is_valid_unquoted_key("simple"));
    assert!(is_valid_unquoted_key("with_underscore"));
    assert!(is_valid_unquoted_key("with-hyphen"));
    assert!(is_valid_unquoted_key("_starts_with_underscore"));
    assert!(is_valid_unquoted_key("key123"));

    assert!(!is_valid_unquoted_key(""));
    assert!(!is_valid_unquoted_key("123key"));
    assert!(!is_valid_unquoted_key("with spaces"));
    assert!(!is_valid_unquoted_key("with.dot"));
    assert!(!is_valid_unquoted_key("with:colon"));
}

#[test]
fn test_serialize_hashmap() {
    let map = dict(vec![("key1", text("value1")), ("key2", text("value2"))]);

    let result = to_string(&map).unwrap();
    println!("HashMap serialized: {}", result);

    assert!(result.contains("key1"));
    assert!(result.contains("key2"));
    assert!(result.contains("value1"));
    assert!(result.contains("value2"));
}

#[test]
fn test_canonical_huml_formatting() {
    let data = dict(vec![
        ("name", text("test")),
        ("scores", integers(&[1, 2, 3])),
        (
            "config",
            dict(vec![("enabled", HumlValue::Boolean(true)), ("timeout", integer(30))]),
        ),
    ]);

    let huml = to_string(&data).unwrap();

    println!("=== CANONICAL HUML FORMAT ===");
    println!("{}", huml);

    let result = from_str(&huml).unwrap();
    let fields = match &result {
        HumlValue::Dict(fields) => fields,
        _ => panic!("expected dict"),
    };
    assert_eq!(fields.get("name"), Some(&text("test")));
    assert_eq!(fields.get("scores"), Some(&integers(&[1, 2, 3])));
    let config = match fields.get("config") {
        Some(HumlValue::Dict(config)) => config,
        _ => panic!("expected dict"),
    };
    assert_eq!(config.get("enabled"), Some(&HumlValue::Boolean(true)));
    assert_eq!(config.get("timeout"), Some(&integer(30)));

    assert!(huml.contains("scores:: "));
    assert!(huml.contains("config::\n"));
    assert!(huml.contains("  enabled: true"));
    assert!(huml.contains("  timeout: 30"));
}

#[test]
fn test_round_trip_serialization() {
    let metadata = dict(vec![("role", text("admin")), ("department", text("engineering"))]);

    let original = dict(vec![
        ("name", text("Alice")),
        ("age", integer(30)),
        ("active", HumlValue::Boolean(true)),
        ("scores", integers(&[85, 92, 78])),
        ("metadata", metadata),
    ]);

    let serialized = to_string(&original).unwrap();
    println!("Serialized:\n{}", serialized);

    let deserialized = from_str(&serialized).unwrap();
    println!("Original metadata: {:?}", original);
    println!("Deserialized metadata: {:?}", deserialized);

    assert_eq!(original, deserialized);
    assert_eq!(round_trip(&original).unwrap(), original);
}

#[test]
fn test_serialization_then_manual_deserialization() {
    let original = dict(vec![
        ("name", text("Bob")),
        ("age", integer(25)),
        ("active", HumlValue::Boolean(false)),
        ("scores", integers(&[90, 88])),
        ("metadata", dict(vec![])),
    ]);

    let huml = to_string(&original).unwrap();
    println!("Serialized HUML:\n{}", huml);

    let deserialized = from_str(&huml).unwrap();
    assert_eq!(original, deserialized);
}

#[test]
fn exact_text_of_a_nested_value() {
    let value = dict(vec![
        ("name", text("test")),
        ("scores", integers(&[1, 2, 3])),
        (
            "config",
            dict(vec![
                ("enabled", HumlValue::Boolean(true)),
                ("inner", dict(vec![("deep", integer(-5))])),
            ]),
        ),
        ("needs quotes", HumlValue::Null),
        ("empty", list(vec![])),
    ]);
    assert_eq!(
        to_string(&value).unwrap(),
        "name: \"test\"\nscores:: 1, 2, 3\nconfig::\n  enabled: true\n  inner: deep: -5\n\"needs quotes\": null\nempty: []"
    );
}

#[test]
fn strings_are_escaped() {
    assert_eq!(
        to_string(&text("a\"b\\c\nd\te\rf\u{8}g\u{c}h/i\u{1}j\u{7f}k\u{e9}")).unwrap(),
        "\"a\\\"b\\\\c\\nd\\te\\rf\\bg\\fh\\/i\\u0001j\\u007fk\u{e9}\""
    );
    assert_eq!(written(|ser| ser.serialize_char('\n')), "\"\\n\"");
    assert_eq!(written(|ser| ser.write_string("x")), "\"x\"");
}

#[test]
fn numbers_in_decimal() {
    assert_eq!(written(|ser| ser.serialize_i64(i64::MIN)), "-9223372036854775808");
    assert_eq!(written(|ser| ser.serialize_i64(0)), "0");
    assert_eq!(written(|ser| ser.serialize_i8(-100)), "-100");
    assert_eq!(written(|ser| ser.serialize_i16(1234)), "1234");
    assert_eq!(written(|ser| ser.serialize_i32(-70000)), "-70000");
    assert_eq!(written(|ser| ser.serialize_u64(u64::MAX)), "18446744073709551615");
    assert_eq!(written(|ser| ser.serialize_u8(255)), "255");
    assert_eq!(written(|ser| ser.serialize_u16(10)), "10");
    assert_eq!(written(|ser| ser.serialize_bytes(&[1, 20, 255])), "1, 20, 255");
    assert_eq!(written(|ser| ser.serialize_bytes(&[])), "[]");
    assert_eq!(written(|ser| ser.serialize_none()), "null");
    assert_eq!(written(|ser| ser.serialize_unit_struct()), "null");
}

#[test]
fn sequences_and_variants_by_hand() {
    let huml = written(|ser| {
        let mut seq = ser.serialize_tuple(2)?;
        assert!(seq.serialize_element(ser));
        ser.serialize_bool(true)?;
        assert!(seq.serialize_field(ser));
        ser.serialize_str("x")?;
        seq.end()
    });
    assert_eq!(huml, "true, \"x\"");
    let huml = written(|ser| {
        let mut seq = ser.serialize_tuple_struct(0)?;
        assert!(!seq.serialize_element(ser));
        seq.end()
    });
    assert_eq!(huml, "[]");
    let huml = written(|ser| {
        let mut fields = ser.serialize_tuple_variant("Point")?;
        fields.serialize_field(ser);
        ser.serialize_i32(1)?;
        fields.serialize_field(ser);
        ser.serialize_i32(2)?;
        fields.end()
    });
    assert_eq!(huml, "Point: 1, 2");
    let huml = written(|ser| {
        let mut fields = ser.serialize_struct_variant("Inactive")?;
        fields.serialize_field(ser, "reason");
        ser.serialize_str("maintenance")?;
        fields.serialize_field(ser, "days");
        ser.serialize_u8(3)?;
        fields.end(ser)
    });
    assert_eq!(huml, "Inactive::\n  reason: \"maintenance\"\n  days: 3");
}

#[test]
fn maps_by_hand() {
    let huml = written(|ser| {
        let mut map = ser.serialize_struct(2)?;
        let start = map.serialize_key(ser).unwrap();
        ser.serialize_str("plain")?;
        map.finish_key(ser, start);
        let start = map.serialize_value(ser).unwrap();
        ser.serialize_str("a, b")?;
        map.finish_value(ser, start);
        let start = map.serialize_key(ser).unwrap();
        ser.serialize_i64(7)?;
        map.finish_key(ser, start);
        let start = map.serialize_value(ser).unwrap();
        ser.serialize_newtype_variant("{x")?;
        ser.serialize_str("a, b")?;
        map.finish_value(ser, start);
        map.end()
    });
    assert_eq!(huml, "plain:: \"a, b\"\n7: {x: \"a, b\"");
    let huml = written(|ser| {
        let mut map = ser.serialize_map(Some(0))?;
        assert!(map.serialize_key(ser).is_none());
        assert!(map.serialize_value(ser).is_none());
        map.end()
    });
    assert_eq!(huml, "{}");
}

#[test]
fn indentation_levels() {
    let mut ser = Serializer::default();
    assert_eq!(ser.indent(), "");
    ser.decrease_indent();
    assert_eq!(ser.indent(), "");
    ser.increase_indent();
    ser.increase_indent();
    assert_eq!(ser.indent(), "    ");
    ser.decrease_indent();
    assert_eq!(ser.indent(), "  ");
    ser.newline();
    assert_eq!(ser.position(), 1);
    assert_eq!(ser.into_string(), "\n");
}

#[test]
fn errors_as_text() {
    assert_eq!(Error::Message("plain".to_string()).to_string(), "plain");
    assert_eq!(Error::Io("closed".to_string()).to_string(), "IO error: closed");
    assert_eq!(Error::UnsupportedType("u128").to_string(), "Unsupported type: u128");
    let e = huml_rs::serde::Error::from(Error::Io("closed".to_string()));
    assert_eq!(e.to_string(), "Serialization error: IO error: closed");
    let e = huml_rs::serde::Error::from(huml_rs::serde::de::Error::MissingField("x".to_string()));
    assert_eq!(e.to_string(), "Deserialization error: Missing field: x");
}

#[test]
fn round_trip_of_scalars() {
    for value in [
        text("plain"),
        text("with \"quotes\" and\nlines"),
        integer(-12),
        float(2.5),
        float(f64::NAN),
        float(f64::NEG_INFINITY),
        HumlValue::Boolean(false),
        HumlValue::Null,
        list(vec![]),
        dict(vec![]),
        integers(&[1, 2]),
    ] {
        assert_eq!(round_trip(&value).unwrap(), value);
    }
}

#[test]
fn floats_that_are_no_finite_literal_are_not_written() {
    for literal in ["abc", "", "1e999", "inf", "1.5x", "1_0.5"] {
        let value = list(vec![
            integer(1),
            dict(vec![("x", HumlValue::Number(HumlNumber::Float(literal.to_string())))]),
            HumlValue::Number(HumlNumber::Float("also bad".to_string())),
        ]);
        match to_string(&value) {
            Err(Error::Message(m)) => assert_eq!(m, format!("invalid float literal '{}'", literal)),
            other => panic!("expected a failure, got {:?}", other),
        }
        match round_trip(&value) {
            Err(huml_rs::serde::Error::Ser(Error::Message(m))) => {
                assert_eq!(m, format!("invalid float literal '{}'", literal))
            }
            other => panic!("expected a failure, got {:?}", other),
        }
        let mut ser = Serializer::new();
        ser.serialize_str("kept").unwrap();
        assert!(ser.serialize_number(&HumlNumber::Float(literal.to_string())).is_err());
        assert_eq!(ser.into_string(), "\"kept\"");
    }
    for literal in ["1.5", "-2e10", "1.7976931348623158e308", "1", "+0.5"] {
        let value = HumlValue::Number(HumlNumber::Float(literal.to_string()));
        assert_eq!(to_string(&value).unwrap(), literal);
    }
}
