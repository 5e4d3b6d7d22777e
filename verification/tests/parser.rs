use huml_rs::parser::numbers::is_finite_float_literal;
use huml_rs::text::{
    char_digit_value, char_is_alpha, char_is_control, char_is_digit, char_is_key_char,
    char_is_whitespace, char_lead_byte, char_utf8_len, digit_to_char, hex_digit_to_char,
    push_chars, push_decimal, string_of, to_chars, trim_bounds, trim_str,
};
use huml_rs::{
    MAX_NESTING,
    parse_document_root, parse_empty_dict, parse_empty_list, parse_huml, parse_inline_dict,
    parse_inline_list, parse_scalar, HumlDict, HumlNumber, HumlValue, ParseError,
};

fn text(s: &str) -> HumlValue {
    HumlValue::String(s.to_string())
}

fn integer(i: i64) -> HumlValue {
    HumlValue::Number(HumlNumber::Integer(i))
}

fn dict(entries: Vec<(&str, HumlValue)>) -> HumlValue {
    let mut d = HumlDict::new();
    for (k, v) in entries {
        d.insert(k.to_string(), v);
    }
    HumlValue::Dict(d)
}

fn root(input: &str) -> HumlValue {
    parse_huml(input).expect("should parse").1.root
}

fn failure(input: &str) -> ParseError {
    parse_huml(input).expect_err("should fail")
}

#[test]
fn parses_simple_scalar_document() {
    let (_, doc) = parse_huml("\"hello\"").expect("should parse");
    assert_eq!(doc.root, HumlValue::String("hello".into()));
}

#[test]
fn parses_inline_list() {
    if let HumlValue::List(values) = parse_inline_list("1, 2, 3").unwrap().1 {
        assert_eq!(values.len(), 3);
    } else {
        panic!("expected list");
    }
}

#[test]
fn parses_multiline_dict_document() {
    let input = r#"
key1: "value"
key2::
  nested: 1
"#;
    let (_, doc) = parse_huml(input).expect("should parse");
    if let HumlValue::Dict(map) = doc.root {
        assert!(map.contains_key("key1"));
        assert!(map.contains_key("key2"));
    } else {
        panic!("expected dict");
    }
}

#[test]
fn multiline_string_with_backticks_preserves_dedented() {
    let input = r#"text: ```
  line one
  line two
  line three
```"#;
    let (_, doc) = parse_huml(input).expect("should parse");
    if let HumlValue::Dict(map) = doc.root {
        if let Some(HumlValue::String(s)) = map.get("text") {
            assert_eq!(s, "line one\nline two\nline three");
        } else {
            panic!("expected string value");
        }
    } else {
        panic!("expected dict");
    }
}

#[test]
fn multiline_string_with_quotes_trims() {
    let input = r#"text: """
    line one
    line two
    line three
""""#;
    let (_, doc) = parse_huml(input).expect("should parse");
    if let HumlValue::Dict(map) = doc.root {
        if let Some(HumlValue::String(s)) = map.get("text") {
            assert_eq!(s, "line one\nline two\nline three");
        } else {
            panic!("expected string value");
        }
    } else {
        panic!("expected dict");
    }
}

#[test]
fn multiline_string_backticks_preserves_extra_spaces() {
    let input = r#"text: ```
    line with extra spaces
  line with minimal spaces
      line with many spaces
```"#;
    let (_, doc) = parse_huml(input).expect("should parse");
    if let HumlValue::Dict(map) = doc.root {
        if let Some(HumlValue::String(s)) = map.get("text") {
            assert_eq!(
                s,
                "  line with extra spaces\nline with minimal spaces\n    line with many spaces"
            );
        } else {
            panic!("expected string value");
        }
    } else {
        panic!("expected dict");
    }
}

#[test]
fn multiline_string_backticks_with_empty_lines() {
    let input = r#"text: ```
  first line

  third line
```"#;
    let (_, doc) = parse_huml(input).expect("should parse");
    if let HumlValue::Dict(map) = doc.root {
        if let Some(HumlValue::String(s)) = map.get("text") {
            assert_eq!(s, "first line\n\nthird line");
        } else {
            panic!("expected string value");
        }
    } else {
        panic!("expected dict");
    }
}

#[test]
fn multiline_string_minimal_indent() {
    let input = r#"x: ```
first
second
```"#;
    let (_, doc) = parse_huml(input).expect("should parse");
    if let HumlValue::Dict(map) = doc.root {
        if let Some(HumlValue::String(s)) = map.get("x") {
            assert_eq!(s, "first\nsecond");
        } else {
            panic!("expected string value");
        }
    } else {
        panic!("expected dict");
    }
}

#[test]
fn duplicate_key_error_before_malformed_value() {
    let input = r#"
key: "first"
key: [this is malformed
"#;
    let result = parse_huml(input);
    assert!(result.is_err());
    let err_msg = result.unwrap_err().to_string();
    assert!(err_msg.contains("duplicate key"));
}

#[test]
fn duplicate_key_is_located_after_the_key() {
    let err = failure("key: \"first\"\nkey: [this is malformed\n");
    assert_eq!(err.line, 2);
    assert_eq!(err.column, 4);
    assert_eq!(err.message, "duplicate key 'key' in dict");
    assert_eq!(err.to_string(), "line 2:4 duplicate key 'key' in dict");
}

#[test]
fn duplicate_key_in_inline_dict_wins_over_malformed_value() {
    let err = parse_inline_dict("a: 1, a: [oops").expect_err("should fail");
    assert_eq!(err.message, "duplicate key 'a' in dict");
    let err = failure("k:: a: 1, a: 2");
    assert_eq!(err.message, "duplicate key 'a' in dict");
}

#[test]
fn parsing_twice_gives_equal_trees() {
    let input = "a:: x: 1, y: 2\nb::\n  - 1\n  - \"two\"\nc: ```\n  text\n```\n";
    assert_eq!(parse_huml(input), parse_huml(input));
    assert_eq!(parse_huml("a: ["), parse_huml("a: ["));
}

#[test]
fn numeric_literals() {
    assert_eq!(parse_scalar("0xDEADBEEF").unwrap().1, integer(3735928559));
    assert_eq!(parse_scalar("0b1010101").unwrap().1, integer(85));
    assert_eq!(parse_scalar("0o777").unwrap().1, integer(511));
    assert_eq!(parse_scalar("1_000_000").unwrap().1, integer(1000000));
    assert_eq!(parse_scalar("nan").unwrap().1, HumlValue::Number(HumlNumber::Nan));
    assert_eq!(parse_scalar("-inf").unwrap().1, HumlValue::Number(HumlNumber::Infinity(false)));
    assert_eq!(parse_scalar("+inf").unwrap().1, HumlValue::Number(HumlNumber::Infinity(true)));
    assert_eq!(parse_scalar("inf").unwrap().1, HumlValue::Number(HumlNumber::Infinity(true)));
    match parse_scalar("3.14").unwrap().1 {
        HumlValue::Number(HumlNumber::Float(literal)) => {
            assert_eq!(literal, "3.14");
            assert_eq!(literal.parse::<f64>().unwrap(), 3.14);
        }
        other => panic!("expected a float, got {:?}", other),
    }
}

#[test]
fn integer_limits_and_signs() {
    assert_eq!(parse_scalar("9223372036854775807").unwrap().1, integer(i64::MAX));
    assert_eq!(parse_scalar("-9223372036854775808").unwrap().1, integer(i64::MIN));
    assert_eq!(parse_scalar("+42").unwrap().1, integer(42));
    assert_eq!(parse_scalar("-0x10").unwrap().1, integer(-16));
    assert_eq!(parse_scalar("0x7fffffffffffffff").unwrap().1, integer(i64::MAX));
    assert_eq!(parse_scalar("0xff_ff").unwrap().1, integer(65535));
    assert_eq!(
        parse_scalar("9223372036854775808").unwrap_err().message,
        "invalid integer literal"
    );
    assert_eq!(
        parse_scalar("0x8000000000000000").unwrap_err().message,
        "invalid digits for number literal"
    );
    assert_eq!(parse_scalar("0x_").unwrap_err().message, "invalid digits for number literal");
    assert_eq!(
        parse_scalar("0x").unwrap_err().message,
        "invalid number literal, requires digits after prefix"
    );
    assert_eq!(parse_scalar("+x").unwrap_err().message, "invalid character after '+'");
    assert_eq!(parse_scalar("-").unwrap_err().message, "invalid character after '-'");
}

#[test]
fn float_literals_agree_with_the_float_parser() {
    let cases = [
        "1.5", "1e5", "1E5", "1.5e+3", "1.5e-3", "1.", "1.e3", "1_0.2_5", "-2.5", "+2.5", "1e999",
        "1.2.3", "1e", "1e+", "1ee5", "1e5.3", "1.5e", "1..2", "1e5e5", "1e-", "12.e", "1_e5",
    ];
    for case in cases {
        let expected: String = case.chars().filter(|c| *c != '_').collect();
        match parse_scalar(case) {
            Ok((rest, HumlValue::Number(HumlNumber::Float(literal)))) => {
                assert_eq!(rest, "");
                assert_eq!(literal, expected);
                assert!(literal.parse::<f64>().unwrap().is_finite(), "{} accepted", case);
            }
            Ok(other) => panic!("{} gave {:?}", case, other),
            Err(e) => {
                assert_eq!(e.message, "invalid float literal");
                assert!(
                    !expected.parse::<f64>().map_or(false, f64::is_finite),
                    "{} refused",
                    case
                );
            }
        }
    }
}

#[test]
fn empty_input_is_rejected() {
    let err = failure("");
    assert_eq!(err.message, "empty document is undefined");
    assert_eq!((err.line, err.column), (1, 1));
    assert_eq!(failure("\n\n# only a comment\n").message, "empty document is undefined");
}

#[test]
fn trailing_content_is_rejected() {
    let err = failure("\"a\"\n\"b\"\n");
    assert_eq!(err.message, "unexpected content after document root");
    assert_eq!((err.line, err.column), (2, 1));
    let err = parse_document_root("1\n2").expect_err("should fail");
    assert_eq!(err.message, "unexpected content after document root");
    assert!(parse_huml("\"a\"\n\n# the end\n").is_ok());
}

#[test]
fn multiline_string_dedent_policies() {
    let backticks = root("text: ```\n    one\n    two\n```\n");
    assert_eq!(backticks, dict(vec![("text", text("  one\n  two"))]));
    let quotes = root("text: \"\"\"\n    one\n    two\n\"\"\"\n");
    assert_eq!(quotes, dict(vec![("text", text("one\ntwo"))]));
}

#[test]
fn multiline_string_in_nested_dict_closes_at_key_indentation() {
    let value = root("a::\n  text: ```\n      deep\n    flat\n   short\n  ```\n");
    assert_eq!(
        value,
        dict(vec![("a", dict(vec![("text", text("  deep\nflat\n   short"))]))])
    );
    let err = failure("a::\n  text: ```\n    x\n```\n");
    assert_eq!(
        err.message,
        "multiline closing delimiter must be at same indentation as the key (2 spaces)"
    );
    assert_eq!(failure("text: ```\n  never closed\n").message, "unclosed multiline string");
}

#[test]
fn inline_and_multiline_dicts() {
    let inline = root("a:: x: 1, y: 2");
    assert_eq!(inline, dict(vec![("a", dict(vec![("x", integer(1)), ("y", integer(2))]))]));
    let multiline = root("a::\n  x: 1\n");
    assert_eq!(multiline, dict(vec![("a", dict(vec![("x", integer(1))]))]));
}

#[test]
fn indentation_law() {
    let value = root("a::\n  b: 1\n  c: 2\nd: 3\n");
    assert_eq!(
        value,
        dict(vec![("a", dict(vec![("b", integer(1)), ("c", integer(2))])), ("d", integer(3))])
    );
    let err = failure("a::\n  b: 1\n   c: 2\n");
    assert_eq!(err.message, "bad indent 3, expected 2");
    assert_eq!((err.line, err.column), (3, 4));
    let err = failure("a::\n  b: 1\n    c: 2\n");
    assert_eq!(err.message, "bad indent 4, expected 2");
    let err = failure("a::\n   b: 1\n");
    assert_eq!(err.message, "bad indent 3 for vector, expected 2");
    let err = failure("a::\n    - 1\n");
    assert_eq!(err.message, "bad indent 4 for vector, expected 2");
}

#[test]
fn ambiguous_empty_vector() {
    assert_eq!(failure("a::").message, "ambiguous empty vector after '::'. Use [] or {}.");
    assert_eq!(failure("a::\n").message, "ambiguous empty vector after '::'. Use [] or {}.");
    assert_eq!(
        failure("a::\nb: 1\n").message,
        "ambiguous empty vector after '::'. Use [] or {}."
    );
    assert_eq!(root("a:: []\nb:: {}\n"), dict(vec![
        ("a", HumlValue::List(vec![])),
        ("b", HumlValue::Dict(HumlDict::new())),
    ]));
}

#[test]
fn multiline_lists() {
    let value = root("- 1\n- \"two\"\n- ::\n  - 3\n  - 4\n- :: a: 1, b: 2\n- :: 5, 6\n");
    assert_eq!(
        value,
        HumlValue::List(vec![
            integer(1),
            text("two"),
            HumlValue::List(vec![integer(3), integer(4)]),
            dict(vec![("a", integer(1)), ("b", integer(2))]),
            HumlValue::List(vec![integer(5), integer(6)]),
        ])
    );
    assert_eq!(failure("-  1\n").message, "expected single space after '-', found multiple");
    assert_eq!(failure("-1x\n").message, "expected single space after '-'");
    assert_eq!(failure("- 1x\n").message, "unexpected content at end of line");
}

#[test]
fn version_header() {
    let (_, doc) = parse_huml("%HUML v0.1.0\n\"x\"\n").unwrap();
    assert_eq!(doc.version, Some("0.1.0".to_string()));
    assert_eq!(doc.root, text("x"));
    let (_, doc) = parse_huml("%HUML\n\"x\"\n").unwrap();
    assert_eq!(doc.version, None);
    let err = failure("%HUML v0.2.0\n\"x\"\n");
    assert_eq!(err.message, "unsupported version 'v0.2.0'. expected 'v0.1.0'");
    assert_eq!((err.line, err.column), (1, 13));
    assert_eq!(failure("%HUML 0.1.0\n\"x\"\n").message, "invalid version token");
    assert_eq!(
        parse_document_root("%HUML v0.1.0\n\"x\"\n").unwrap_err().message,
        "version directive not allowed in this context"
    );
    assert_eq!(failure("%HUML v0.1.0\n").message, "empty document is undefined");
}

#[test]
fn root_restrictions() {
    assert_eq!(failure(":: 1, 2").message, "'::' indicator not allowed at document root");
    assert_eq!(failure(": 1").message, "':' indicator not allowed at document root");
    assert_eq!(failure("  a: 1").message, "root element must not be indented");
}

#[test]
fn root_forms() {
    assert_eq!(root("[]"), HumlValue::List(vec![]));
    assert_eq!(root("{}"), HumlValue::Dict(HumlDict::new()));
    assert_eq!(root("1, 2, 3"), HumlValue::List(vec![integer(1), integer(2), integer(3)]));
    assert_eq!(root("a: 1, b: 2"), dict(vec![("a", integer(1)), ("b", integer(2))]));
    assert_eq!(root("true # yes"), HumlValue::Boolean(true));
    assert_eq!(root("null"), HumlValue::Null);
    assert_eq!(root("\"quoted key\": 1"), dict(vec![("quoted key", integer(1))]));
}

#[test]
fn whitespace_policy() {
    assert_eq!(failure("a: 1 \n").message, "trailing spaces are not allowed");
    assert_eq!(failure("a: 1\n  \n").message, "trailing spaces are not allowed");
    assert_eq!(failure("a:  1\n").message, "expected single space after ':', found multiple");
    assert_eq!(failure("a:1\n").message, "expected single space after ':'");
    assert_eq!(failure("a: 1#c\n").message, "a value must be separated from an inline comment by a space");
    assert_eq!(failure("a: 1 #c\n").message, "comment hash '#' must be followed by a space");
    assert_eq!(failure("a: 1 # c \n").message, "trailing spaces are not allowed");
    assert_eq!(failure("a:: 1 , 2\n").message, "no spaces allowed before comma");
    assert_eq!(failure("a:: 1,2\n").message, "expected single space after comma");
    assert_eq!(failure("a:: 1,  2\n").message, "expected single space after comma, found multiple");
    assert_eq!(failure("a:: 1 2\n").message, "unexpected content at end of line");
    assert_eq!(failure("a:: 1x, 2\n").message, "expected a comma in inline collection");
    assert_eq!(failure("a::  1, 2\n").message, "expected single space after '::', found multiple");
    assert!(parse_huml("# comment\na: 1 # trailing comment\n").is_ok());
}

#[test]
fn strings_and_escapes() {
    assert_eq!(
        parse_scalar(r#""a\"b\\c\/d\b\f\n\r\t\v\u0041\u00e9""#).unwrap().1,
        text("a\"b\\c/d\u{8}\u{c}\n\r\t\u{b}A\u{e9}")
    );
    assert_eq!(parse_scalar("\"h\u{e9}llo \u{1F600}\"").unwrap().1, text("h\u{e9}llo \u{1F600}"));
    assert_eq!(parse_scalar("\"abc").unwrap_err().message, "unclosed string");
    assert_eq!(
        parse_scalar("\"a\nb\"").unwrap_err().message,
        "newlines not allowed in single-line strings"
    );
    assert_eq!(parse_scalar("\"a\\").unwrap_err().message, "incomplete escape sequence");
    assert_eq!(parse_scalar("\"\\x\"").unwrap_err().message, "invalid escape character '\\x'");
    assert_eq!(parse_scalar("\"\\u12\"").unwrap_err().message, "incomplete unicode escape");
    assert_eq!(parse_scalar("\"\\u12\u{e9}\"").unwrap_err().message, "invalid unicode escape digits");
    assert_eq!(parse_scalar("\"\\u12zz\"").unwrap_err().message, "invalid unicode escape digits");
    assert_eq!(parse_scalar("\"\\ud800\"").unwrap_err().message, "invalid unicode scalar value");
}

#[test]
fn scalar_leaves_the_rest() {
    let (rest, value) = parse_scalar("true, false").unwrap();
    assert_eq!(value, HumlValue::Boolean(true));
    assert_eq!(rest, ", false");
    let (rest, value) = parse_scalar("\"\u{e9}\" \u{e9}").unwrap();
    assert_eq!(value, text("\u{e9}"));
    assert_eq!(rest, " \u{e9}");
    assert_eq!(parse_scalar("").unwrap_err().message, "unexpected end of input, expected a value");
    assert_eq!(parse_scalar("@").unwrap_err().message, "unexpected character '@' when parsing value");
    assert_eq!(
        parse_scalar("\u{e9}").unwrap_err().message,
        "unexpected character '\u{c3}' when parsing value"
    );
    assert_eq!(parse_scalar("tru").unwrap_err().message, "unexpected character 't' when parsing value");
}

#[test]
fn empty_shorthands() {
    assert_eq!(parse_empty_list("  [] x").unwrap(), (" x", HumlValue::List(vec![])));
    assert_eq!(parse_empty_dict("\n{}").unwrap(), ("", HumlValue::Dict(HumlDict::new())));
    let err = parse_empty_list("{}").unwrap_err();
    assert_eq!((err.line, err.column, err.message.as_str()), (1, 1, "expected []"));
    let err = parse_empty_dict("[]").unwrap_err();
    assert_eq!((err.line, err.column, err.message.as_str()), (1, 1, "expected {}"));
}

#[test]
fn inline_collections_leave_the_next_line() {
    let (rest, value) = parse_inline_list("1, \"a\", true\nnext").unwrap();
    assert_eq!(value, HumlValue::List(vec![integer(1), text("a"), HumlValue::Boolean(true)]));
    assert_eq!(rest, "next");
    let (rest, value) = parse_inline_dict("a: 1, \"b c\": null # done\nnext").unwrap();
    assert_eq!(value, dict(vec![("a", integer(1)), ("b c", HumlValue::Null)]));
    assert_eq!(rest, "next");
    assert_eq!(parse_inline_dict("a 1").unwrap_err().message, "expected ':' in inline dict");
    assert_eq!(parse_inline_dict("a:1").unwrap_err().message, "expected single space in inline dict");
    assert_eq!(parse_inline_dict(": 1").unwrap_err().message, "expected a key");
}

#[test]
fn columns_count_bytes() {
    let err = failure("a: \"\u{e9}\u{e9}\" x\n");
    assert_eq!(err.message, "unexpected content at end of line");
    assert_eq!((err.line, err.column), (1, 11));
    assert_eq!(err.to_string(), "line 1:11 unexpected content at end of line");
}

#[test]
fn key_errors() {
    assert_eq!(failure("a::\n  1: 2\n").message, "expected key");
    assert_eq!(failure("a b\n").message, "unexpected character 'a' when parsing value");
    assert_eq!(failure("1 b\n").message, "unexpected content at end of line");
    assert_eq!(failure("a::\n  b\n").message, "expected ':' or '::' after key");
}

#[test]
fn dict_lookup() {
    let mut d = HumlDict::new();
    assert!(d.is_empty());
    d.insert("a".to_string(), integer(1));
    d.insert("b".to_string(), integer(2));
    d.insert("a".to_string(), integer(3));
    assert_eq!(d.len(), 2);
    assert_eq!(d.get("a"), Some(&integer(3)));
    assert_eq!(d.get("b"), Some(&integer(2)));
    assert_eq!(d.get("c"), None);
    assert!(d.contains_key("b"));
    assert!(!d.contains_key("c"));
    assert_eq!(d.key_at(1), "b");
    assert_eq!(d.value_at(0), &integer(3));
}

#[test]
fn dicts_are_equal_whatever_their_order() {
    let a = dict(vec![("x", integer(1)), ("y", HumlValue::List(vec![text("a")]))]);
    let b = dict(vec![("y", HumlValue::List(vec![text("a")])), ("x", integer(1))]);
    assert_eq!(a, b);
    assert_eq!(dict(vec![("outer", a.clone())]), dict(vec![("outer", b.clone())]));
    assert_ne!(a, dict(vec![("x", integer(1)), ("y", HumlValue::List(vec![text("b")]))]));
    assert_ne!(a, dict(vec![("x", integer(1)), ("z", HumlValue::List(vec![text("a")]))]));
    assert_ne!(a, dict(vec![("x", integer(1))]));
    assert_ne!(dict(vec![]), HumlValue::List(vec![]));
    assert_ne!(HumlValue::Null, HumlValue::Boolean(false));
    assert_ne!(
        HumlValue::Number(HumlNumber::Float("1.0".to_string())),
        HumlValue::Number(HumlNumber::Integer(1))
    );
}

#[test]
fn clones_are_equal() {
    let (_, doc) = parse_huml("%HUML v0.1.0\na:: 1, 2.5, nan\nb::\n  c: \"d\"\n  e: null\n").unwrap();
    let copy = doc.clone();
    assert_eq!(copy, doc);
    assert_eq!(copy.version, Some("0.1.0".to_string()));
    let err = failure("a: [");
    assert_eq!(err.clone(), err);
}

#[test]
fn character_classes_agree_with_std() {
    for code in 0..=0x10FFFFu32 {
        let c = match char::from_u32(code) {
            Some(c) => c,
            None => continue,
        };
        assert_eq!(char_is_whitespace(c), c.is_whitespace(), "{:?}", c);
        assert_eq!(char_is_control(c), c.is_control(), "{:?}", c);
        assert_eq!(char_is_digit(c), c.is_ascii_digit(), "{:?}", c);
        assert_eq!(char_is_alpha(c), c.is_ascii_alphabetic(), "{:?}", c);
        assert_eq!(
            char_is_key_char(c),
            c.is_ascii_alphanumeric() || c == '-' || c == '_',
            "{:?}",
            c
        );
        assert_eq!(char_utf8_len(c), c.len_utf8(), "{:?}", c);
        let mut buffer = [0u8; 4];
        assert_eq!(char_lead_byte(c), c.encode_utf8(&mut buffer).as_bytes()[0] as char);
        for base in [2u32, 8, 10, 16] {
            assert_eq!(char_digit_value(c, base), c.to_digit(base), "{:?} in {}", c, base);
        }
    }
    for d in 0..10u8 {
        assert_eq!(digit_to_char(d), char::from_digit(d as u32, 10).unwrap());
    }
    for d in 0..16u8 {
        assert_eq!(hex_digit_to_char(d), char::from_digit(d as u32, 16).unwrap());
    }
}

#[test]
fn text_helpers() {
    let chars = to_chars("h\u{e9}llo");
    assert_eq!(chars, vec!['h', '\u{e9}', 'l', 'l', 'o']);
    assert_eq!(string_of(&chars, 1, 4), "\u{e9}ll");
    let mut out = String::from("x");
    push_chars(&mut out, &chars, 0, 2);
    assert_eq!(out, "xh\u{e9}");
    for n in [0u64, 7, 10, 99, 100, 12345, u64::MAX] {
        let mut text = String::new();
        push_decimal(&mut text, n);
        assert_eq!(text, n.to_string());
    }
    for s in ["", " ", " a ", "\u{a0}a b\u{3000}\n", "\t\r\n", "a", "  \u{2003}x"] {
        assert_eq!(trim_str(s), s.trim(), "{:?}", s);
        let chars = to_chars(s);
        let (a, b) = trim_bounds(&chars, 0, chars.len());
        assert_eq!(string_of(&chars, a, b), s.trim());
    }
}

#[test]
fn leading_whitespace_of_any_kind_before_a_shorthand() {
    assert_eq!(parse_empty_list("\u{a0}\t[]").unwrap().0, "");
    assert_eq!(parse_empty_dict("\u{2003}{}rest").unwrap().0, "rest");
}

#[test]
fn triple_quoted_lines_lose_all_white_space() {
    let value = root("text: \"\"\"\n  \u{a0}one\t\n\ttwo \u{3000}\n\"\"\"\n");
    assert_eq!(value, dict(vec![("text", text("one\ntwo"))]));
    let value = root("text: ```\n  \u{a0}one\t\n\ttwo \u{3000}\n```\n");
    assert_eq!(value, dict(vec![("text", text("\u{a0}one\t\n\ttwo \u{3000}"))]));
}

fn nested(levels: usize) -> String {
    let mut doc = String::new();
    for level in 0..levels {
        doc.push_str(&" ".repeat(2 * level));
        doc.push_str("k::\n");
    }
    doc.push_str(&" ".repeat(2 * levels));
    doc.push_str("k: 1\n");
    doc
}

#[test]
fn nesting_is_bounded() {
    let mut value = &root(&nested(MAX_NESTING));
    let mut depth = 0;
    while let HumlValue::Dict(d) = value {
        value = d.get("k").unwrap();
        depth += 1;
    }
    assert_eq!(depth, MAX_NESTING + 1);
    assert_eq!(value, &integer(1));
    let err = failure(&nested(MAX_NESTING + 1));
    assert_eq!(err.message, "nesting deeper than 128 levels");
    assert_eq!((err.line, err.column), (MAX_NESTING + 1, 2 * MAX_NESTING + 4));
}

const LEAST_INFINITE: &str = "179769313486231580793728971405303415079934132710037826936173778980444968292764750946649017977587207096330286416692887910946555547851940402630657488671505820681908902000708383676273854845817711531764475730270069855571366959622842914819860834936475292719074168444365510704342711559699508093042880177904174497792";

fn is_finite_double(literal: &str) -> bool {
    literal.parse::<f64>().map_or(false, f64::is_finite)
}

fn accepted_as_float(literal: &str) -> bool {
    let chars: Vec<char> = literal.chars().collect();
    let accepted = is_finite_float_literal(&chars);
    match parse_scalar(literal) {
        Ok((rest, HumlValue::Number(HumlNumber::Float(text)))) => {
            assert!(accepted, "{}", literal);
            assert_eq!(rest, "");
            assert_eq!(text, literal);
        }
        Ok(other) => panic!("{} gave {:?}", literal, other),
        Err(e) => {
            assert!(!accepted, "{}", literal);
            assert_eq!(e.message, "invalid float literal");
        }
    }
    accepted
}

#[test]
fn floats_beyond_the_double_range_are_refused() {
    assert_eq!(parse_scalar("1e999").unwrap_err().message, "invalid float literal");
    assert_eq!(parse_scalar("-1e999").unwrap_err().message, "invalid float literal");
    assert_eq!(failure("a: 1e309\n").message, "invalid float literal");
    assert!(accepted_as_float("1.7976931348623157e308"));
    assert!(accepted_as_float("1.7976931348623158e308"));
    assert!(!accepted_as_float("1.7976931348623159e308"));
    assert!(accepted_as_float("1e308"));
    assert!(!accepted_as_float("1e309"));
    assert!(accepted_as_float("0e999"));
    assert!(accepted_as_float("0.000e99999999999999999999999999999999999999999999"));
    assert!(accepted_as_float("1e-99999999999999999999999999999999999999999999"));
    assert!(!accepted_as_float("0.001e99999999999999999999999999999999999999999999"));
    assert!(!accepted_as_float("1e18446744073709551616"));
    assert!(accepted_as_float("1e-18446744073709551616"));
}

#[test]
fn the_least_infinite_number_is_the_bound() {
    let below = {
        let mut digits: Vec<u8> = LEAST_INFINITE.bytes().collect();
        let last = digits.len() - 1;
        digits[last] -= 1;
        String::from_utf8(digits).unwrap()
    };
    assert_eq!(LEAST_INFINITE.len(), 309);
    assert!(!is_finite_double(LEAST_INFINITE));
    assert!(is_finite_double(&below));
    for (digits, finite) in [(LEAST_INFINITE, false), (below.as_str(), true)] {
        for literal in [
            format!("{}.0", digits),
            format!("{}e0", digits),
            format!("{}.{}", &digits[..1], &digits[1..]) + "e308",
            format!("0.{}e309", digits),
            format!("0.000{}e312", digits),
            format!("000{}.000", digits),
            format!("{}000e-3", digits),
            format!("{}.{}e+300", &digits[..9], &digits[9..]),
            format!("{}0000000000.0e-10", digits),
            format!("-{}.", digits),
        ] {
            assert_eq!(is_finite_double(&literal), finite, "{}", literal);
            assert_eq!(accepted_as_float(&literal), finite, "{}", literal);
        }
        let more = format!("{}.000000001", digits);
        assert_eq!(accepted_as_float(&more), is_finite_double(&more), "{}", more);
    }
}

#[test]
fn float_range_agrees_with_the_float_parser() {
    let mut state: u64 = 0x2545F4914F6CDD1D;
    let mut next = move |bound: u64| {
        state ^= state << 13;
        state ^= state >> 7;
        state ^= state << 17;
        state % bound
    };
    let mut refused = 0;
    for _ in 0..4000 {
        let from_bound = next(2) == 0;
        let mut digits: String = if from_bound {
            LEAST_INFINITE[..(1 + next(309) as usize)].to_string()
        } else {
            (0..1 + next(25)).map(|_| char::from(b'0' + next(10) as u8)).collect()
        };
        if from_bound && next(2) == 0 {
            let last = digits.pop().unwrap();
            digits.push(char::from(b'0' + ((last as u8 - b'0' + 1 + next(9) as u8) % 10)));
        }
        for _ in 0..next(3) {
            digits.insert(0, '0');
        }
        let point = next(digits.len() as u64 + 1) as usize;
        let zeros = digits.bytes().take_while(|b| *b == b'0').count();
        let magnitude = 306 + next(6) as i64;
        let exponent = magnitude - (point as i64 - zeros as i64);
        let literal = format!("{}.{}e{}", &digits[..point], &digits[point..], exponent);
        let literal = if point == 0 { format!("0{}", literal) } else { literal };
        let finite = is_finite_double(&literal);
        assert_eq!(accepted_as_float(&literal), finite, "{}", literal);
        if !finite {
            refused += 1;
        }
    }
    assert!(refused > 500 && refused < 3500, "{}", refused);
}

#[test]
fn version_token_is_exact() {
    let err = failure("%HUML vv0.1.0\na: 1");
    assert_eq!(err.message, "unsupported version 'vv0.1.0'. expected 'v0.1.0'");
    assert_eq!((err.line, err.column), (1, 14));
    assert_eq!(failure("%HUML v\na: 1").message, "unsupported version 'v'. expected 'v0.1.0'");
    assert_eq!(
        failure("%HUML v0.1.0v\na: 1").message,
        "unsupported version 'v0.1.0v'. expected 'v0.1.0'"
    );
}

#[test]
fn no_space_before_the_end_of_a_line() {
    assert_eq!(failure("a: 1\n# ").message, "trailing spaces are not allowed");
    assert_eq!(failure("# \na: 1\n").message, "trailing spaces are not allowed");
    assert_eq!(failure("a: 1 # \n").message, "trailing spaces are not allowed");
    assert_eq!(failure("a: 1 #  \n").message, "trailing spaces are not allowed");
    assert!(parse_huml("#\na: 1 #\n# x\n#").is_ok());
    let err = failure("%HUML \na: 1\n");
    assert_eq!(err.message, "trailing spaces are not allowed");
    assert_eq!((err.line, err.column), (1, 7));
    assert_eq!(failure("%HUML ").message, "trailing spaces are not allowed");
    assert!(parse_huml("%HUML\na: 1\n").is_ok());
    assert!(parse_huml("%HUML v0.1.0 # the version\na: 1\n").is_ok());
}
