use huml_rs::serde::de::{Deserializer, Error, MapDeserializer, Payload, SeqDeserializer};
use huml_rs::serde::from_str;
use huml_rs::{HumlNumber, HumlValue};
use std::collections::HashMap;

type Result<T> = std::result::Result<T, Error>;

/// A type that can be built from a value that is being read.
trait Read: Sized {
    fn read(d: Deserializer) -> Result<Self>;

    fn missing(field: &str) -> Result<Self> {
        Err(Error::MissingField(field.to_string()))
    }
}

fn read_str<T: Read>(input: &str) -> Result<T> {
    T::read(Deserializer::from_str(input)?)
}

impl Read for String {
    fn read(d: Deserializer) -> Result<Self> {
        match d.deserialize_string()? {
            Payload::Text(t) => Ok(t),
            _ => unreachable!(),
        }
    }
}

impl Read for bool {
    fn read(d: Deserializer) -> Result<Self> {
        match d.deserialize_bool()? {
            Payload::Bool(b) => Ok(b),
            _ => unreachable!(),
        }
    }
}

impl Read for i32 {
    fn read(d: Deserializer) -> Result<Self> {
        match d.deserialize_i32()? {
            Payload::I64(i) => Ok(i as i32),
            Payload::FloatAsI64(t) => Ok(t.parse::<f64>().unwrap() as i32),
            _ => unreachable!(),
        }
    }
}

impl Read for u32 {
    fn read(d: Deserializer) -> Result<Self> {
        match d.deserialize_u32()? {
            Payload::U64(i) => Ok(i as u32),
            Payload::FloatAsU64(t) => Ok(t.parse::<f64>().unwrap() as u32),
            _ => unreachable!(),
        }
    }
}

impl Read for u16 {
    fn read(d: Deserializer) -> Result<Self> {
        match d.deserialize_u16()? {
            Payload::U64(i) => Ok(i as u16),
            Payload::FloatAsU64(t) => Ok(t.parse::<f64>().unwrap() as u16),
            _ => unreachable!(),
        }
    }
}

impl Read for f64 {
    fn read(d: Deserializer) -> Result<Self> {
        match d.deserialize_f64()? {
            Payload::Float(t) => Ok(t.parse::<f64>().unwrap()),
            Payload::IntegerAsFloat(i) => Ok(i as f64),
            Payload::Nan => Ok(f64::NAN),
            Payload::Infinity(true) => Ok(f64::INFINITY),
            Payload::Infinity(false) => Ok(f64::NEG_INFINITY),
            _ => unreachable!(),
        }
    }
}

impl<T: Read> Read for Option<T> {
    fn read(d: Deserializer) -> Result<Self> {
        match d.deserialize_option()? {
            Payload::Absent => Ok(None),
            Payload::Present(inner) => Ok(Some(T::read(inner)?)),
            _ => unreachable!(),
        }
    }

    fn missing(_field: &str) -> Result<Self> {
        Ok(None)
    }
}

fn read_items<T: Read>(mut seq: SeqDeserializer) -> Result<Vec<T>> {
    let mut out = Vec::new();
    while let Some(item) = seq.next_element() {
        out.push(T::read(item)?);
    }
    Ok(out)
}

impl<T: Read> Read for Vec<T> {
    fn read(d: Deserializer) -> Result<Self> {
        match d.deserialize_seq()? {
            Payload::List(seq) => read_items(seq),
            _ => unreachable!(),
        }
    }
}

fn read_entries(mut map: MapDeserializer) -> Result<Vec<(String, Deserializer)>> {
    let mut out = Vec::new();
    while let Some(key) = map.next_key() {
        let name = match key.deserialize_identifier()? {
            Payload::Text(t) => t,
            _ => unreachable!(),
        };
        out.push((name, map.next_value()?));
    }
    Ok(out)
}

impl<T: Read> Read for HashMap<String, T> {
    fn read(d: Deserializer) -> Result<Self> {
        match d.deserialize_map()? {
            Payload::Dict(map) => {
                let mut out = HashMap::new();
                for (k, v) in read_entries(map)? {
                    out.insert(k, T::read(v)?);
                }
                Ok(out)
            }
            _ => unreachable!(),
        }
    }
}

/// The fields of a struct that is being read.
struct Fields(Vec<(String, Deserializer)>);

impl Fields {
    fn of(d: Deserializer) -> Result<Self> {
        match d.deserialize_struct()? {
            Payload::Dict(map) => Ok(Fields(read_entries(map)?)),
            _ => unreachable!(),
        }
    }

    fn field<T: Read>(&mut self, name: &str) -> Result<T> {
        match self.0.iter().position(|(k, _)| k == name) {
            Some(i) => T::read(self.0.remove(i).1),
            None => T::missing(name),
        }
    }
}

#[derive(Debug, PartialEq)]
struct Person {
    name: String,
    age: u32,
    active: bool,
}

impl Read for Person {
    fn read(d: Deserializer) -> Result<Self> {
        let mut f = Fields::of(d)?;
        Ok(Person { name: f.field("name")?, age: f.field("age")?, active: f.field("active")? })
    }
}

#[derive(Debug, PartialEq)]
struct PersonWithOptional {
    name: String,
    age: Option<u32>,
    email: Option<String>,
}

impl Read for PersonWithOptional {
    fn read(d: Deserializer) -> Result<Self> {
        let mut f = Fields::of(d)?;
        Ok(PersonWithOptional {
            name: f.field("name")?,
            age: f.field("age")?,
            email: f.field("email")?,
        })
    }
}

#[derive(Debug, PartialEq)]
struct PersonWithList {
    name: String,
    hobbies: Vec<String>,
}

impl Read for PersonWithList {
    fn read(d: Deserializer) -> Result<Self> {
        let mut f = Fields::of(d)?;
        Ok(PersonWithList { name: f.field("name")?, hobbies: f.field("hobbies")? })
    }
}

#[derive(Debug, PartialEq)]
struct Nested {
    person: Person,
    metadata: HashMap<String, String>,
}

impl Read for Nested {
    fn read(d: Deserializer) -> Result<Self> {
        let mut f = Fields::of(d)?;
        Ok(Nested { person: f.field("person")?, metadata: f.field("metadata")? })
    }
}

#[derive(Debug, PartialEq)]
enum Status {
    Active,
    Inactive { reason: String },
    Pending(u32),
}

impl Read for Status {
    fn read(d: Deserializer) -> Result<Self> {
        match d.deserialize_enum()? {
            Payload::VariantName(name) => match name.as_str() {
                "Active" => Ok(Status::Active),
                other => Err(Error::Message(format!("unknown variant {}", other))),
            },
            Payload::Variant(e) => {
                let (name, content) = e.variant_seed();
                let name = match name.deserialize_identifier()? {
                    Payload::Text(t) => t,
                    _ => unreachable!(),
                };
                match name.as_str() {
                    "Active" => {
                        content.unit_variant()?;
                        Ok(Status::Active)
                    }
                    "Inactive" => {
                        let mut f = Fields(read_entries(content.struct_variant()?)?);
                        Ok(Status::Inactive { reason: f.field("reason")? })
                    }
                    "Pending" => Ok(Status::Pending(u32::read(content.newtype_variant_seed())?)),
                    other => Err(Error::Message(format!("unknown variant {}", other))),
                }
            }
            _ => unreachable!(),
        }
    }
}

#[test]
fn test_deserialize_simple_struct() {
    let huml = r#"
name: "Alice"
age: 30
active: true
"#;

    let person: Person = read_str(huml).unwrap();
    assert_eq!(
        person,
        Person {
            name: "Alice".to_string(),
            age: 30,
            active: true,
        }
    );
}

#[test]
fn test_deserialize_with_optional() {
    let huml = r#"
name: "Bob"
age: 25
"#;

    let person: PersonWithOptional = read_str(huml).unwrap();
    assert_eq!(
        person,
        PersonWithOptional {
            name: "Bob".to_string(),
            age: Some(25),
            email: None,
        }
    );
}

#[test]
fn test_deserialize_with_list() {
    let huml = r#"
name: "Charlie"
hobbies:: "reading", "coding", "gaming"
"#;

    let person: PersonWithList = read_str(huml).unwrap();
    assert_eq!(
        person,
        PersonWithList {
            name: "Charlie".to_string(),
            hobbies: vec![
                "reading".to_string(),
                "coding".to_string(),
                "gaming".to_string()
            ],
        }
    );
}

#[test]
fn test_deserialize_nested() {
    let huml = r#"
person:: name: "David", age: 35, active: false
metadata:: role: "admin", department: "engineering"
"#;

    let nested: Nested = read_str(huml).unwrap();
    let mut expected_metadata = HashMap::new();
    expected_metadata.insert("role".to_string(), "admin".to_string());
    expected_metadata.insert("department".to_string(), "engineering".to_string());

    assert_eq!(
        nested,
        Nested {
            person: Person {
                name: "David".to_string(),
                age: 35,
                active: false,
            },
            metadata: expected_metadata,
        }
    );
}

#[test]
fn test_deserialize_enum_unit_variant() {
    let huml = r#""Active""#;
    let status: Status = read_str(huml).unwrap();
    assert_eq!(status, Status::Active);
}

#[test]
fn test_deserialize_enum_struct_variant() {
    let huml = r#"
Inactive:: reason: "maintenance"
"#;
    let status: Status = read_str(huml).unwrap();
    assert_eq!(
        status,
        Status::Inactive {
            reason: "maintenance".to_string()
        }
    );
}

#[test]
fn test_deserialize_enum_tuple_variant() {
    let huml = r#"
Pending: 42
"#;
    let status: Status = read_str(huml).unwrap();
    assert_eq!(status, Status::Pending(42));
}

#[test]
fn test_deserialize_primitive_types() {
    let s: String = read_str(r#""hello""#).unwrap();
    assert_eq!(s, "hello");

    let i: i32 = read_str("42").unwrap();
    assert_eq!(i, 42);

    let f: f64 = read_str("3.14").unwrap();
    assert_eq!(f, 3.14);

    let b: bool = read_str("true").unwrap();
    assert_eq!(b, true);

    let list: Vec<i32> = read_str("1, 2, 3").unwrap();
    assert_eq!(list, vec![1, 2, 3]);
}

#[test]
fn test_deserialize_error_cases() {
    let result: Result<i32> = read_str(r#""not a number""#);
    assert!(result.is_err());

    let result: Result<Person> = read_str(r#"name: "Alice""#);
    assert!(result.is_err());

    let result: Result<Person> = read_str(r#"invalid huml syntax {"#);
    assert!(result.is_err());
}

#[test]
fn test_serde_integration_example() {
    #[derive(Debug, PartialEq)]
    struct Config {
        app_name: String,
        port: u16,
        debug: bool,
        features: Vec<String>,
    }

    impl Read for Config {
        fn read(d: Deserializer) -> Result<Self> {
            let mut f = Fields::of(d)?;
            Ok(Config {
                app_name: f.field("app_name")?,
                port: f.field("port")?,
                debug: f.field("debug")?,
                features: f.field("features")?,
            })
        }
    }

    let huml = r#"
app_name: "My App"
port: 8080
debug: true
features:: "auth", "logging", "metrics"
"#;

    let config: Config = read_str(huml).unwrap();

    assert_eq!(config.app_name, "My App");
    assert_eq!(config.port, 8080);
    assert_eq!(config.debug, true);
    assert_eq!(config.features, vec!["auth", "logging", "metrics"]);
}

#[test]
fn from_str_gives_the_value_tree() {
    assert_eq!(from_str("  42  ").unwrap(), HumlValue::Number(HumlNumber::Integer(42)));
    assert_eq!(from_str("[]").unwrap(), HumlValue::List(vec![]));
    assert_eq!(
        from_str("%HUML v0.1.0\n- 1\n- 2\n").unwrap(),
        HumlValue::List(vec![
            HumlValue::Number(HumlNumber::Integer(1)),
            HumlValue::Number(HumlNumber::Integer(2)),
        ])
    );
    match from_str(" a: [ ") {
        Err(Error::ParseError(m)) => assert_eq!(m, "Unable to parse HUML content: a: ["),
        other => panic!("expected a parse error, got {:?}", other),
    }
}

#[test]
fn payloads_and_type_errors() {
    fn invalid(r: Result<Payload>) -> String {
        match r {
            Err(Error::InvalidType(m)) => m,
            _ => panic!("expected an invalid type"),
        }
    }
    let reader = |s: &str| Deserializer::from_str(s).unwrap();
    assert_eq!(invalid(reader("1").deserialize_bool()), "Expected boolean");
    assert_eq!(invalid(reader("true").deserialize_i64()), "Expected integer");
    assert_eq!(invalid(reader("-1").deserialize_u64()), "Expected positive integer");
    assert_eq!(invalid(reader("true").deserialize_u64()), "Expected unsigned integer");
    assert_eq!(invalid(reader("true").deserialize_f64()), "Expected float");
    assert_eq!(invalid(reader("\"ab\"").deserialize_char()), "Expected single character");
    assert_eq!(invalid(reader("1").deserialize_char()), "Expected string");
    assert_eq!(invalid(reader("1").deserialize_str()), "Expected string");
    assert_eq!(invalid(reader("1").deserialize_bytes()), "Expected string");
    assert_eq!(invalid(reader("1").deserialize_unit()), "Expected null");
    assert_eq!(invalid(reader("1").deserialize_seq()), "Expected list");
    assert_eq!(invalid(reader("1").deserialize_map()), "Expected dict");
    assert_eq!(invalid(reader("1").deserialize_enum()), "Expected string or dict for enum");
    assert_eq!(
        invalid(reader("a: 1, b: 2").deserialize_enum()),
        "Expected single-key dict for enum"
    );
    assert!(matches!(reader("\"\u{e9}\"").deserialize_char(), Ok(Payload::Char('\u{e9}'))));
    match reader("\"\u{e9}\"").deserialize_bytes() {
        Ok(Payload::Bytes(b)) => assert_eq!(b, vec![0xc3, 0xa9]),
        _ => panic!("expected bytes"),
    }
    assert!(matches!(reader("null").deserialize_option(), Ok(Payload::Absent)));
    assert!(matches!(reader("1").deserialize_option(), Ok(Payload::Present(_))));
    assert!(matches!(reader("7").deserialize_u64(), Ok(Payload::U64(7))));
    assert!(matches!(reader("7").deserialize_f64(), Ok(Payload::IntegerAsFloat(7))));
    assert!(matches!(reader("nan").deserialize_any(), Ok(Payload::Nan)));
    assert!(matches!(reader("-inf").deserialize_f64(), Ok(Payload::Infinity(false))));
    match reader("1.5").deserialize_i64() {
        Ok(Payload::FloatAsI64(t)) => assert_eq!(t, "1.5"),
        _ => panic!("expected a float"),
    }
    assert_eq!(
        Error::InvalidType("Expected list".to_string()).to_string(),
        "Invalid type: Expected list"
    );
    assert_eq!(Error::MissingField("age".to_string()).to_string(), "Missing field: age");
    assert_eq!(Error::UnknownField("x".to_string()).to_string(), "Unknown field: x");
    assert_eq!(Error::ParseError("bad".to_string()).to_string(), "Parse error: bad");
    assert_eq!(Error::Message("plain".to_string()).to_string(), "plain");
}

#[test]
fn map_values_come_after_their_keys() {
    let mut map = match Deserializer::from_str("a: 1, b: 2").unwrap().deserialize_map() {
        Ok(Payload::Dict(map)) => map,
        _ => panic!("expected a dict"),
    };
    assert!(matches!(map.next_value(), Err(Error::InvalidType(m)) if m == "Value is missing"));
    let key = map.next_key().unwrap();
    assert_eq!(key.into_value(), HumlValue::String("a".to_string()));
    assert_eq!(
        map.next_value().unwrap().into_value(),
        HumlValue::Number(HumlNumber::Integer(1))
    );
    assert!(map.next_value().is_err());
    assert!(map.next_key().is_some());
    assert!(map.next_key().is_none());
}

#[test]
fn variants_check_their_content() {
    fn variant(input: &str) -> huml_rs::serde::de::VariantDeserializer {
        match Deserializer::from_str(input).unwrap().deserialize_enum() {
            Ok(Payload::Variant(e)) => e.variant_seed().1,
            _ => panic!("expected a variant"),
        }
    }
    assert!(variant("A: null").unit_variant().is_ok());
    assert!(matches!(
        variant("A: 1").unit_variant(),
        Err(Error::InvalidType(m)) if m == "Expected null for unit variant"
    ));
    assert!(matches!(
        variant("A: 1").tuple_variant(),
        Err(Error::InvalidType(m)) if m == "Expected list for tuple variant"
    ));
    assert!(matches!(
        variant("A: 1").struct_variant(),
        Err(Error::InvalidType(m)) if m == "Expected dict for struct variant"
    ));
    let mut items = variant("A:: 1, 2").tuple_variant().unwrap();
    assert_eq!(
        items.next_element().unwrap().into_value(),
        HumlValue::Number(HumlNumber::Integer(1))
    );
    assert_eq!(
        items.next_element().unwrap().into_value(),
        HumlValue::Number(HumlNumber::Integer(2))
    );
    assert!(items.next_element().is_none());
    let mut fields = variant("A:: x: true").struct_variant().unwrap();
    assert_eq!(fields.next_key().unwrap().into_value(), HumlValue::String("x".to_string()));
    assert_eq!(fields.next_value().unwrap().into_value(), HumlValue::Boolean(true));
    assert_eq!(
        variant("A: \"b\"").newtype_variant_seed().into_value(),
        HumlValue::String("b".to_string())
    );
}
