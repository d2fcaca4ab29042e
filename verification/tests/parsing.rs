use dev_console::parser::parse_args;
use dev_console::error::CommandError;
use dev_console::schema::{Param, ParamSchema};
use dev_console::value::{FloatLiteral, ParamKind, Value};

fn schema(params: Vec<Param>) -> ParamSchema {
    ParamSchema::from_params(params).unwrap()
}

fn three_floats(required: bool) -> ParamSchema {
    schema(vec![
        Param::new("x", ParamKind::Float, required),
        Param::new("y", ParamKind::Float, required),
        Param::new("z", ParamKind::Float, required),
    ])
}

fn float_of(value: Option<&Value>) -> Option<f32> {
    match value {
        Some(Value::Float(literal)) => Some(literal.as_str().parse::<f32>().unwrap()),
        Some(other) => panic!("not a float: {:?}", other),
        None => None,
    }
}

#[test]
fn positional_floats_bind_in_schema_order() {
    let args = parse_args(&three_floats(true), "four 1.0 2.0 3.0").unwrap();
    assert_eq!(args.len(), 3);
    assert_eq!(float_of(args.get("x")), Some(1.0));
    assert_eq!(float_of(args.get("y")), Some(2.0));
    assert_eq!(float_of(args.get("z")), Some(3.0));
    assert_eq!(args.get("x"), Some(&Value::Float(FloatLiteral::new("1.0").unwrap())));
}

#[test]
fn named_optional_leaves_the_others_absent() {
    let args = parse_args(&three_floats(false), "foo x=5").unwrap();
    assert_eq!(float_of(args.get("x")), Some(5.0));
    assert!(args.has("y"));
    assert_eq!(args.get("y"), None);
    assert!(args.has("z"));
    assert_eq!(args.get("z"), None);
    assert!(!args.has("w"));
}

#[test]
fn missing_required_parameter_is_reported() {
    let s = schema(vec![Param::required("x", ParamKind::Float)]);
    assert_eq!(
        parse_args(&s, "foo"),
        Err(CommandError::MissingRequiredArgument("x".to_string()))
    );
}

#[test]
fn text_that_is_no_float_is_a_type_mismatch() {
    let s = schema(vec![Param::optional("x", ParamKind::Float)]);
    assert_eq!(
        parse_args(&s, "foo x=abc"),
        Err(CommandError::TypeMismatch("x".to_string(), ParamKind::Float, "abc".to_string()))
    );
}

#[test]
fn unknown_name_is_reported() {
    assert_eq!(
        parse_args(&three_floats(false), "foo w=1"),
        Err(CommandError::UnknownArgument("w".to_string()))
    );
}

#[test]
fn surplus_value_is_an_unknown_argument() {
    assert_eq!(
        parse_args(&three_floats(false), "foo 1 2 3 4"),
        Err(CommandError::UnknownArgument("4".to_string()))
    );
}

#[test]
fn first_error_from_the_left_wins() {
    assert_eq!(
        parse_args(&three_floats(true), "foo x=abc w=1"),
        Err(CommandError::TypeMismatch("x".to_string(), ParamKind::Float, "abc".to_string()))
    );
    assert_eq!(
        parse_args(&three_floats(true), "foo w=1 x=abc"),
        Err(CommandError::UnknownArgument("w".to_string()))
    );
    assert_eq!(
        parse_args(&three_floats(true), "foo y=1"),
        Err(CommandError::MissingRequiredArgument("x".to_string()))
    );
}

#[test]
fn values_without_a_name_skip_bound_parameters() {
    let args = parse_args(&three_floats(true), "foo y=2 1 3").unwrap();
    assert_eq!(float_of(args.get("x")), Some(1.0));
    assert_eq!(float_of(args.get("y")), Some(2.0));
    assert_eq!(float_of(args.get("z")), Some(3.0));
}

#[test]
fn later_value_replaces_earlier() {
    let args = parse_args(&three_floats(false), "foo x=1 x=2").unwrap();
    assert_eq!(float_of(args.get("x")), Some(2.0));
}

#[test]
fn every_kind_is_coerced() {
    let s = schema(vec![
        Param::required("count", ParamKind::Int),
        Param::required("scale", ParamKind::Float),
        Param::required("open", ParamKind::Bool),
        Param::required("label", ParamKind::String),
    ]);
    let args = parse_args(&s, "cmd -42 label=a=b open=true 2.5e3").unwrap();
    assert_eq!(args.get("count"), Some(&Value::Int(-42)));
    assert_eq!(float_of(args.get("scale")), Some(2500.0));
    assert_eq!(args.get("open"), Some(&Value::Bool(true)));
    assert_eq!(args.get("label"), Some(&Value::String("a=b".to_string())));
    assert_eq!(args.name_at(0), "count");
    assert_eq!(args.value_at(3), Some(&Value::String("a=b".to_string())));
}

#[test]
fn bool_takes_only_the_two_literals() {
    let s = schema(vec![Param::required("open", ParamKind::Bool)]);
    assert_eq!(parse_args(&s, "w false").unwrap().get("open"), Some(&Value::Bool(false)));
    assert_eq!(
        parse_args(&s, "w True"),
        Err(CommandError::TypeMismatch("open".to_string(), ParamKind::Bool, "True".to_string()))
    );
    assert_eq!(
        parse_args(&s, "w 1"),
        Err(CommandError::TypeMismatch("open".to_string(), ParamKind::Bool, "1".to_string()))
    );
}

#[test]
fn empty_invocation_binds_nothing() {
    let args = parse_args(&three_floats(false), "").unwrap();
    assert_eq!(args.len(), 3);
    assert_eq!(args.get("x"), None);
    assert_eq!(
        parse_args(&three_floats(true), "   "),
        Err(CommandError::MissingRequiredArgument("x".to_string()))
    );
}

#[test]
fn command_name_is_not_a_value() {
    let s = schema(vec![Param::required("x", ParamKind::String)]);
    assert_eq!(
        parse_args(&s, "foo"),
        Err(CommandError::MissingRequiredArgument("x".to_string()))
    );
    assert_eq!(
        parse_args(&s, "foo bar").unwrap().get("x"),
        Some(&Value::String("bar".to_string()))
    );
}

#[test]
fn empty_name_before_equals_is_unknown() {
    assert_eq!(
        parse_args(&three_floats(false), "foo =5"),
        Err(CommandError::UnknownArgument("".to_string()))
    );
}

#[test]
fn schema_rejects_duplicate_names() {
    assert!(ParamSchema::from_params(vec![
        Param::required("x", ParamKind::Int),
        Param::optional("x", ParamKind::Float),
    ])
    .is_none());
    let mut s = ParamSchema::new();
    assert!(s.push(Param::required("x", ParamKind::Int)));
    assert!(!s.push(Param::optional("x", ParamKind::Float)));
    assert!(s.push(Param::optional("y", ParamKind::Float)));
    assert_eq!(s.len(), 2);
    assert_eq!(s.position("y"), Some(1));
    assert_eq!(s.position("z"), None);
    assert_eq!(s.params()[0], Param::required("x", ParamKind::Int));
}
