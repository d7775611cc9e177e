//! Tests of the expression language: parsing, evaluation, errors.
use rbatis::expr::eval;
use rbatis::expr::ExpressionError;
use rbatis::parse::parse_expr;
use rbatis::parse::ParseError;
use rbatis::value::Env;
use rbatis::value::Value;

fn eval_str(src: &str, env: &Env) -> Result<Value, ExpressionError> {
    eval(&parse_expr(src).unwrap(), env)
}

#[test]
fn arithmetic_precedence() {
    let env = Env::new();
    assert!(matches!(eval_str("1 + 2 * 3", &env).unwrap(), Value::Int(7)));
    assert!(matches!(eval_str("(1 + 2) * 3", &env).unwrap(), Value::Int(9)));
    assert!(matches!(eval_str("10 / 3", &env).unwrap(), Value::Int(3)));
    assert!(matches!(eval_str("10 % 3", &env).unwrap(), Value::Int(1)));
    assert!(matches!(eval_str("-4 + 1", &env).unwrap(), Value::Int(-3)));
}

#[test]
fn divide_by_zero_reported() {
    let env = Env::new();
    assert!(matches!(
        eval_str("1 / 0", &env),
        Err(ExpressionError::DivideByZero)
    ));
    assert!(matches!(
        eval_str("1 % 0", &env),
        Err(ExpressionError::DivideByZero)
    ));
}

#[test]
fn overflow_reported() {
    let env = Env::new();
    assert!(matches!(
        eval_str("9223372036854775807 + 1", &env),
        Err(ExpressionError::Overflow)
    ));
}

#[test]
fn type_mismatch_reported() {
    let env = Env::new();
    assert!(matches!(
        eval_str("true + 1", &env),
        Err(ExpressionError::TypeMismatch)
    ));
    assert!(matches!(
        eval_str("'a' < 'b'", &env),
        Err(ExpressionError::TypeMismatch)
    ));
}

#[test]
fn null_tolerant_comparisons() {
    let env = Env::new();
    assert!(matches!(eval_str("null == null", &env).unwrap(), Value::Bool(true)));
    assert!(matches!(eval_str("1 == null", &env).unwrap(), Value::Bool(false)));
    assert!(matches!(eval_str("1 != null", &env).unwrap(), Value::Bool(true)));
    assert!(matches!(eval_str("1 < null", &env).unwrap(), Value::Bool(false)));
    assert!(matches!(eval_str("null >= null", &env).unwrap(), Value::Bool(false)));
}

#[test]
fn missing_variable_is_null() {
    let env = Env::new();
    assert!(matches!(eval_str("name", &env).unwrap(), Value::Null));
    assert!(matches!(eval_str("name != null", &env).unwrap(), Value::Bool(false)));
    assert!(matches!(eval_str("name == null", &env).unwrap(), Value::Bool(true)));
}

#[test]
fn string_concat_widens() {
    let mut env = Env::new();
    env.bind("q".to_string(), Value::Str("x".to_string()));
    match eval_str("'%' + q + '%'", &env).unwrap() {
        Value::Str(s) => assert_eq!(s, "%x%"),
        _ => panic!("expected a string"),
    }
    match eval_str("'n=' + 42", &env).unwrap() {
        Value::Str(s) => assert_eq!(s, "n=42"),
        _ => panic!("expected a string"),
    }
}

#[test]
fn logic_short_circuits() {
    let env = Env::new();
    assert!(matches!(
        eval_str("false && 1 / 0 == 0", &env).unwrap(),
        Value::Bool(false)
    ));
    assert!(matches!(
        eval_str("true || 1 / 0 == 0", &env).unwrap(),
        Value::Bool(true)
    ));
    assert!(matches!(eval_str("!0", &env).unwrap(), Value::Bool(true)));
    assert!(matches!(eval_str("!''", &env).unwrap(), Value::Bool(true)));
}

#[test]
fn dotted_and_indexed_paths() {
    let mut env = Env::new();
    env.bind(
        "order".to_string(),
        Value::Obj(vec![(
            "customer".to_string(),
            Value::Obj(vec![("id".to_string(), Value::Int(9))]),
        )]),
    );
    env.bind(
        "ids".to_string(),
        Value::Arr(vec![Value::Int(4), Value::Int(5)]),
    );
    assert!(matches!(
        eval_str("order.customer.id", &env).unwrap(),
        Value::Int(9)
    ));
    assert!(matches!(eval_str("ids[1]", &env).unwrap(), Value::Int(5)));
    assert!(matches!(eval_str("ids[9]", &env).unwrap(), Value::Null));
}

#[test]
fn later_bindings_shadow_earlier() {
    let mut env = Env::new();
    env.bind("a".to_string(), Value::Int(1));
    env.bind("a".to_string(), Value::Int(2));
    assert!(matches!(eval_str("a", &env).unwrap(), Value::Int(2)));
}

#[test]
fn parse_errors_reported() {
    assert!(matches!(parse_expr("1 +"), Err(ParseError::Unexpected)));
    assert!(matches!(parse_expr("'abc"), Err(ParseError::UnterminatedString)));
    assert!(matches!(parse_expr("a ~ b"), Err(ParseError::BadChar)));
    assert!(matches!(parse_expr("1 2"), Err(ParseError::TrailingInput)));
    assert!(matches!(
        parse_expr("99999999999999999999"),
        Err(ParseError::BadNumber)
    ));
}

#[test]
fn decimal_literals_carried_opaquely() {
    let env = Env::new();
    match eval_str("1.50", &env).unwrap() {
        Value::Dec(s) => assert_eq!(s, "1.50"),
        _ => panic!("expected a decimal"),
    }
    assert!(matches!(
        eval_str("1.5 + 1", &env),
        Err(ExpressionError::TypeMismatch)
    ));
    assert!(matches!(eval_str("!0.00", &env).unwrap(), Value::Bool(true)));
    assert!(matches!(eval_str("!0.25", &env).unwrap(), Value::Bool(false)));
    let mut env2 = Env::new();
    env2.bind("price".to_string(), Value::Dec("1.50".to_string()));
    assert!(matches!(
        eval_str("price == 1.50", &env2).unwrap(),
        Value::Bool(true)
    ));
    match eval_str("'v=' + price", &env2).unwrap() {
        Value::Str(s) => assert_eq!(s, "v=1.50"),
        _ => panic!("expected a string"),
    }
}
