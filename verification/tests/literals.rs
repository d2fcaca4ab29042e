use dev_console::literal::{is_float, parse_bool, parse_int};
use dev_console::text::{chars_of, is_whitespace, string_of};
use dev_console::token::{command_name, tokenize};
use dev_console::value::{FloatLiteral, ParamKind, Value};

fn chars(s: &str) -> Vec<char> {
    s.chars().collect()
}

#[test]
fn splits_on_runs_of_whitespace() {
    assert_eq!(tokenize("  four 1.0\t2.0  3.0 "), vec!["four", "1.0", "2.0", "3.0"]);
    assert_eq!(tokenize("foo x=5.0 z=-1.2"), vec!["foo", "x=5.0", "z=-1.2"]);
    assert_eq!(tokenize("a\u{a0}b\u{3000}c\nd"), vec!["a", "b", "c", "d"]);
    assert!(tokenize("").is_empty());
    assert!(tokenize(" \t\r\n").is_empty());
    assert_eq!(tokenize("single"), vec!["single"]);
}

#[test]
fn command_name_is_the_first_token() {
    assert_eq!(command_name("four 1.0 2.0 3.0"), Some("four".to_string()));
    assert_eq!(command_name("  foo_window\ttrue"), Some("foo_window".to_string()));
    assert_eq!(command_name("x=1"), Some("x=1".to_string()));
    assert_eq!(command_name(""), None);
    assert_eq!(command_name(" \n "), None);
}

#[test]
fn tokens_agree_with_split_whitespace() {
    for s in ["a b", " a  b ", "x=1 y = 2", "\u{2003}wide\u{2009}thin", "caf\u{e9} \u{1f600} z"] {
        let expected: Vec<String> = s.split_whitespace().map(|t| t.to_string()).collect();
        assert_eq!(tokenize(s), expected);
    }
}

#[test]
fn whitespace_is_what_unicode_calls_white_space() {
    for code in 0..=0x10ffffu32 {
        if let Some(c) = char::from_u32(code) {
            assert_eq!(is_whitespace(c), c.is_whitespace(), "U+{:04X}", code);
        }
    }
}

#[test]
fn chars_and_strings_convert_both_ways() {
    assert_eq!(chars_of("a\u{e9}\u{1f600}"), vec!['a', '\u{e9}', '\u{1f600}']);
    assert_eq!(string_of(&['m', 'a', 'n', 'y']), "many");
    assert_eq!(string_of(&[]), "");
}

#[test]
fn integers_parse_as_the_standard_library_does() {
    for s in [
        "0", "7", "-7", "+7", "0042", "-0", "9223372036854775807", "9223372036854775808",
        "-9223372036854775808", "-9223372036854775809", "18446744073709551616",
        "000000000000000000000000000001", "99999999999999999999999999999", "", "+", "-", "--1",
        "+-1", "1+", "1_000", "12a", "a12", "1.0", " 1", "1 ", "\u{661}",
    ] {
        assert_eq!(parse_int(&chars(s)), s.parse::<i64>().ok(), "{:?}", s);
    }
    assert_eq!(parse_int(&chars("-9223372036854775808")), Some(i64::MIN));
    assert_eq!(parse_int(&chars("9223372036854775807")), Some(i64::MAX));
    assert_eq!(parse_int(&chars("123")), Some(123));
}

#[test]
fn floats_are_recognised_as_the_standard_library_does() {
    for s in [
        "0", "1", "1.0", "-1.2", "+3.5", "5", ".5", "5.", ".", "", "+", "-", "+.", "1e5", "1E5",
        "1e+5", "1e-5", "1e", "1e+", "e5", ".e5", "1.e5", ".5e5", "1.5e", "1e5.0", "1e5e5", "1..0",
        "1.0.0", "inf", "INF", "Inf", "-inf", "+inf", "infinity", "INFINITY", "-Infinity",
        "infinit", "infinityy", "nan", "NaN", "-nan", "+NAN", "nana", "na", "abc", "1a", "a1",
        "0x10", "1_0", "1,0", "1 ", " 1", "--1", "+-1", "1-", "1e1+1", "\u{661}", "1\u{e9}",
        "123456789012345678901234567890.123456789e-400", "i", "in", "infi", "1f", "1.0f32",
    ] {
        assert_eq!(is_float(&chars(s)), s.parse::<f32>().is_ok(), "{:?}", s);
        assert_eq!(FloatLiteral::new(s).is_some(), s.parse::<f32>().is_ok(), "{:?}", s);
    }
}

#[test]
fn float_literal_keeps_its_text() {
    let literal = FloatLiteral::new("-1.2").unwrap();
    assert_eq!(literal.as_str(), "-1.2");
    assert_eq!(literal.as_str().parse::<f32>().unwrap(), -1.2);
    assert_eq!(literal.clone(), literal);
    assert!(FloatLiteral::new("abc").is_none());
    assert_eq!(FloatLiteral::from_chars(&chars("2.5")).unwrap().as_str(), "2.5");
}

#[test]
fn booleans_are_the_two_words() {
    assert_eq!(parse_bool(&chars("true")), Some(true));
    assert_eq!(parse_bool(&chars("false")), Some(false));
    for s in ["", "True", "FALSE", "1", "0", "yes", "truee", "tru", "fals", "false "] {
        assert_eq!(parse_bool(&chars(s)), None, "{:?}", s);
    }
}

#[test]
fn coercion_follows_the_kind() {
    assert_eq!(Value::parse(ParamKind::Int, "12"), Some(Value::Int(12)));
    assert_eq!(Value::parse(ParamKind::Int, "1.5"), None);
    assert_eq!(Value::parse(ParamKind::Bool, "true"), Some(Value::Bool(true)));
    assert_eq!(Value::parse(ParamKind::Bool, "12"), None);
    assert_eq!(Value::parse(ParamKind::String, "12"), Some(Value::String("12".to_string())));
    assert_eq!(Value::parse(ParamKind::String, ""), Some(Value::String(String::new())));
    assert_eq!(
        Value::parse(ParamKind::Float, "12"),
        Some(Value::Float(FloatLiteral::new("12").unwrap()))
    );
    assert_eq!(Value::parse(ParamKind::Float, "true"), None);
    assert_eq!(Value::coerce(ParamKind::Int, &chars("-3")), Some(Value::Int(-3)));
    assert_eq!(Value::Int(1).kind(), ParamKind::Int);
    assert_eq!(Value::Bool(true).kind(), ParamKind::Bool);
    assert_eq!(Value::String("s".to_string()).kind(), ParamKind::String);
    assert_eq!(Value::Float(FloatLiteral::new("1").unwrap()).kind(), ParamKind::Float);
    let v = Value::String("s".to_string());
    assert_eq!(v.clone(), v);
    assert_eq!(v.as_str(), Some("s"));
    assert_eq!(v.as_int(), None);
    assert_eq!(Value::Int(-5).as_int(), Some(-5));
    assert_eq!(Value::Int(-5).as_bool(), None);
    assert_eq!(Value::Bool(false).as_bool(), Some(false));
    assert_eq!(Value::Bool(false).as_float(), None);
    assert_eq!(Value::Bool(false).as_str(), None);
    let f = Value::parse(ParamKind::Float, "1e3").unwrap();
    assert_eq!(f.as_float().map(|literal| literal.as_str()), Some("1e3"));
}
