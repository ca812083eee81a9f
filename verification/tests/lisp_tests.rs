use lisp_computer::environment::Environment;
use lisp_computer::errors::LispComputerError;
use lisp_computer::parse::{parse_expression, parse_expression_inner, parse_lisp_variable, Expression};
use lisp_computer::value::Value;

const FUEL: u64 = 1000;

fn run(env: &mut Environment, src: &str) -> Result<Value, LispComputerError> {
    let (_, expr) = parse_expression(src).expect("parse failure");
    expr.eval(env, 0, FUEL)
}

fn num(t: &str) -> Expression {
    Expression::Number(t.to_string())
}

fn var(t: &str) -> Expression {
    Expression::Variable(t.to_string())
}

#[test]
fn parse_expression_inner_test() {
    let input = " 1 1 ";
    let result = parse_expression_inner(input);

    assert_eq!(result, Some(("", vec![num("1"), num("1")])));
}

#[test]
fn parse_expression_test() {
    let input = "(+ 1 1)";
    let result = parse_expression(input);

    assert_eq!(
        result,
        Some(("", Expression::List(vec![var("+"), num("1"), num("1")])))
    );

    let input = "(+ 1 (* 2 3 (/ 3 1)))";
    let result = parse_expression(input);

    assert_eq!(
        result,
        Some((
            "",
            Expression::List(vec![
                var("+"),
                num("1"),
                Expression::List(vec![
                    var("*"),
                    num("2"),
                    num("3"),
                    Expression::List(vec![var("/"), num("3"), num("1")])
                ])
            ])
        ))
    );

    // test string
    let input = "\"hello\"";
    let result = parse_expression(input);

    assert_eq!(result, Some(("", Expression::String("hello".to_string()))));
}

#[test]
fn parse_lisp_symbol_test() {
    let input = "test";
    let result = parse_lisp_variable(input);

    assert_eq!(result, Some(("", "test".to_string())));
}

#[test]
fn parse_numeric_literals() {
    assert_eq!(parse_expression("1e3"), Some(("", num("1000"))));
    assert_eq!(parse_expression("-1.5"), Some(("", num("-1.5"))));
    assert_eq!(parse_expression(".5"), Some(("", num("0.5"))));
    assert_eq!(parse_expression("+2"), Some(("", num("2"))));
    // maximal munch leaves the tail unconsumed
    assert_eq!(parse_expression("123K-01"), Some(("K-01", num("123"))));
    // an exponent marker without digits aborts the parse entirely
    assert_eq!(parse_expression("1e"), None);
    assert_eq!(parse_expression("(1e)"), None);
    // a sign alone is a symbol, not a number
    assert_eq!(parse_expression("+"), Some(("", var("+"))));
}

#[test]
fn parse_failures() {
    assert_eq!(parse_expression(""), None);
    assert_eq!(parse_expression("(a"), None);
    assert_eq!(parse_expression("\"unterminated"), None);
    assert_eq!(parse_expression(")"), None);
}

#[test]
fn eval_addition() {
    let mut env = Environment::new();
    assert_eq!(run(&mut env, "(+ 1 2)"), Ok(Value::Number("3".to_string())));
}

#[test]
fn eval_string_concat() {
    let mut env = Environment::new();
    assert_eq!(
        run(&mut env, "(+ \"a\" \"b\")"),
        Ok(Value::String("ab".to_string()))
    );
}

#[test]
fn eval_mixed_addition_is_type_mismatch() {
    let mut env = Environment::new();
    assert_eq!(
        run(&mut env, "(+ 1 \"a\")"),
        Err(LispComputerError::TypeMismatch2 {
            operation: "+".to_string(),
            left: Value::Number("1".to_string()),
            right: Value::String("a".to_string()),
        })
    );
}

#[test]
fn eval_subtraction_and_multiplication() {
    let mut env = Environment::new();
    assert_eq!(run(&mut env, "(- 5 2)"), Ok(Value::Number("3".to_string())));
    assert_eq!(run(&mut env, "(* 2 3)"), Ok(Value::Number("6".to_string())));
    assert_eq!(run(&mut env, "(*)"), Ok(Value::Number("1".to_string())));
    assert_eq!(run(&mut env, "(+)"), Ok(Value::Number("0".to_string())));
}

#[test]
fn eval_division_follows_floating_point() {
    let mut env = Environment::new();
    assert_eq!(run(&mut env, "(/ 3 1)"), Ok(Value::Number("3".to_string())));
    assert_eq!(
        run(&mut env, "(/ 7 2)"),
        Ok(Value::Number("3.5".to_string()))
    );
    // a zero divisor is not an error: it follows floating-point semantics
    assert_eq!(
        run(&mut env, "(/ 3 0)"),
        Ok(Value::Number("inf".to_string()))
    );
    assert_eq!(
        run(&mut env, "(/ -3 0)"),
        Ok(Value::Number("-inf".to_string()))
    );
    assert_eq!(
        run(&mut env, "(/ 0 0)"),
        Ok(Value::Number("NaN".to_string()))
    );
}

#[test]
fn eval_comparisons() {
    let mut env = Environment::new();
    assert_eq!(run(&mut env, "(> 3 2 1)"), Ok(Value::Boolean(true)));
    assert_eq!(run(&mut env, "(> 3 1 2)"), Ok(Value::Boolean(false)));
    assert_eq!(run(&mut env, "(< 1 2)"), Ok(Value::Boolean(true)));
    assert_eq!(run(&mut env, "(<= 2 2)"), Ok(Value::Boolean(true)));
    assert_eq!(run(&mut env, "(>= 1 2)"), Ok(Value::Boolean(false)));
    assert_eq!(run(&mut env, "(= 1 1)"), Ok(Value::Boolean(true)));
    assert_eq!(run(&mut env, "(= 1 2)"), Ok(Value::Boolean(false)));
    assert_eq!(
        run(&mut env, "(= \"a\" \"a\")"),
        Ok(Value::Boolean(true))
    );
}

#[test]
fn eval_if_takes_branch() {
    let mut env = Environment::new();
    assert_eq!(
        run(&mut env, "(if (> 3 2) \"yes\" \"no\")"),
        Ok(Value::String("yes".to_string()))
    );
}

#[test]
fn eval_if_untaken_branch_has_no_effect() {
    let mut env = Environment::new();
    assert_eq!(
        run(&mut env, "(if #t \"yes\" (define hidden 99))"),
        Ok(Value::String("yes".to_string()))
    );
    // the untaken branch's define never happened
    assert_eq!(
        run(&mut env, "hidden"),
        Err(LispComputerError::NotFoundVariable("hidden".to_string()))
    );
}

#[test]
fn eval_let_binds_and_stays_local() {
    let mut env = Environment::new();
    assert_eq!(
        run(&mut env, "(let ((x 1) (y 2)) (+ x y))"),
        Ok(Value::Number("3".to_string()))
    );
    // x and y are not visible outside the let body
    assert_eq!(
        run(&mut env, "x"),
        Err(LispComputerError::NotFoundVariable("x".to_string()))
    );
    assert_eq!(
        run(&mut env, "y"),
        Err(LispComputerError::NotFoundVariable("y".to_string()))
    );
}

#[test]
fn eval_define_and_lookup() {
    let mut env = Environment::new();
    assert_eq!(run(&mut env, "(define x 5)"), Ok(Value::Nil));
    assert_eq!(run(&mut env, "x"), Ok(Value::Number("5".to_string())));
    assert_eq!(run(&mut env, "(define x 6)"), Ok(Value::Nil));
    assert_eq!(run(&mut env, "x"), Ok(Value::Number("6".to_string())));
}

#[test]
fn eval_closures_capture_lexically() {
    let mut env = Environment::new();
    assert_eq!(
        run(&mut env, "(define (adder n) (lambda (x) (+ x n)))"),
        Ok(Value::Nil)
    );
    assert_eq!(run(&mut env, "(define add5 (adder 5))"), Ok(Value::Nil));
    // a later global n must not leak into the closure
    assert_eq!(run(&mut env, "(define n 100)"), Ok(Value::Nil));
    assert_eq!(
        run(&mut env, "(add5 3)"),
        Ok(Value::Number("8".to_string()))
    );
}

#[test]
fn eval_arity_mismatch() {
    let mut env = Environment::new();
    assert_eq!(run(&mut env, "(define (one x) (+ x 0))"), Ok(Value::Nil));
    assert_eq!(
        run(&mut env, "(one 1 2)"),
        Err(LispComputerError::ArityMismatch(
            "lambda-function".to_string(),
            1,
            2
        ))
    );
}

#[test]
fn eval_unbound_symbol() {
    let mut env = Environment::new();
    assert_eq!(
        run(&mut env, "foo"),
        Err(LispComputerError::NotFoundVariable("foo".to_string()))
    );
}

#[test]
fn eval_unbound_function() {
    let mut env = Environment::new();
    assert_eq!(
        run(&mut env, "(foo 1)"),
        Err(LispComputerError::UnboundFunction("foo".to_string()))
    );
}

#[test]
fn eval_reevaluation_is_stable() {
    let mut env = Environment::new();
    run(&mut env, "(define (adder n) (lambda (x) (+ x n)))").unwrap();
    run(&mut env, "(define add5 (adder 5))").unwrap();
    let (_, expr) = parse_expression("(add5 3)").expect("parse failure");
    let first = expr.eval(&mut env, 0, FUEL);
    let second = expr.eval(&mut env, 0, FUEL);
    assert_eq!(first, Ok(Value::Number("8".to_string())));
    assert_eq!(first, second);
}

#[test]
fn eval_cond_clauses() {
    let mut env = Environment::new();
    assert_eq!(
        run(&mut env, "(cond ((> 1 2) \"a\") ((> 2 1) \"b\"))"),
        Ok(Value::String("b".to_string()))
    );
    assert_eq!(
        run(&mut env, "(cond ((> 1 2) \"a\") (else \"c\"))"),
        Ok(Value::String("c".to_string()))
    );
    assert_eq!(
        run(&mut env, "(cond ((> 1 2) \"a\"))"),
        Ok(Value::Boolean(false))
    );
}

#[test]
fn eval_and_or_short_circuit() {
    let mut env = Environment::new();
    assert_eq!(run(&mut env, "(and 1 2)"), Ok(Value::Number("2".to_string())));
    assert_eq!(run(&mut env, "(and #f 2)"), Ok(Value::Boolean(false)));
    assert_eq!(run(&mut env, "(or #f 2)"), Ok(Value::Number("2".to_string())));
    assert_eq!(run(&mut env, "(or)"), Ok(Value::Boolean(false)));
    assert_eq!(run(&mut env, "(and)"), Ok(Value::Boolean(true)));
    // zero and the empty string are truthy
    assert_eq!(run(&mut env, "(and 0 \"\")"), Ok(Value::String("".to_string())));
}

#[test]
fn eval_boolean_literals_and_nil() {
    let mut env = Environment::new();
    assert_eq!(run(&mut env, "#t"), Ok(Value::Boolean(true)));
    assert_eq!(run(&mut env, "#f"), Ok(Value::Boolean(false)));
    assert_eq!(run(&mut env, "()"), Ok(Value::Nil));
    assert_eq!(run(&mut env, "(1)"), Ok(Value::Number("1".to_string())));
}

#[test]
fn eval_invalid_arguments() {
    let mut env = Environment::new();
    assert_eq!(
        run(&mut env, "(define 1 2)"),
        Err(LispComputerError::InvalidArguments(
            "define".to_string(),
            vec![num("1"), num("2")]
        ))
    );
    assert_eq!(
        run(&mut env, "(if 1)"),
        Err(LispComputerError::ArityMismatch("if".to_string(), 3, 1))
    );
    assert_eq!(
        run(&mut env, "(- \"a\")"),
        Err(LispComputerError::TypeMismatch1 {
            operation: "-".to_string(),
            left: Value::String("a".to_string()),
        })
    );
}

#[test]
fn comparison_arity_mismatch() {
    // a comparison with fewer than two arguments is an arity error
    let mut env = Environment::new();
    assert_eq!(
        run(&mut env, "(> 1)"),
        Err(LispComputerError::ArityMismatch(">".to_string(), 2, 1))
    );
    assert_eq!(
        run(&mut env, "(< 1)"),
        Err(LispComputerError::ArityMismatch("<".to_string(), 2, 1))
    );
    assert_eq!(
        run(&mut env, "(>= 1)"),
        Err(LispComputerError::ArityMismatch(">=".to_string(), 2, 1))
    );
    assert_eq!(
        run(&mut env, "(<=)"),
        Err(LispComputerError::ArityMismatch("<=".to_string(), 2, 0))
    );
}

#[test]
fn eval_zero_sum_still_concatenates() {
    // mirrors the reference behavior: strings may follow numbers while the
    // running sum is still zero
    let mut env = Environment::new();
    assert_eq!(
        run(&mut env, "(+ 0 \"a\" \"b\")"),
        Ok(Value::String("ab".to_string()))
    );
}

#[test]
fn eval_recursion_limit() {
    let mut env = Environment::new();
    run(&mut env, "(define (f) (f))").unwrap();
    let (_, expr) = parse_expression("(f)").expect("parse failure");
    assert_eq!(
        expr.eval(&mut env, 0, 10),
        Err(LispComputerError::RecursionLimit)
    );
}

#[test]
fn numeric_equality_is_floating_point() {
    let mut env = Environment::new();
    // zero and negative zero have different texts but are numerically equal
    assert_eq!(run(&mut env, "(= 0 -0)"), Ok(Value::Boolean(true)));
    // a not-a-number differs from everything, itself included
    assert_eq!(run(&mut env, "(= (/ 0 0) (/ 0 0))"), Ok(Value::Boolean(false)));
    // comparisons against a not-a-number are always false, so the chain of
    // non-violations makes the whole form true
    assert_eq!(run(&mut env, "(> 1 (/ 0 0))"), Ok(Value::Boolean(true)));
}

#[test]
fn rendering_round_trips() {
    let (_, expr) = parse_expression("(+ 1 (* 2 3))").expect("parse failure");
    assert_eq!(expr.to_text(), "(+ 1 (* 2 3))");

    let mut env = Environment::new();
    assert_eq!(run(&mut env, "(+ 1 2)").unwrap().to_text(), "3");
    assert_eq!(run(&mut env, "(+ \"a\" \"b\")").unwrap().to_text(), "\"ab\"");
    assert_eq!(run(&mut env, "()").unwrap().to_text(), "nil");
    assert_eq!(run(&mut env, "#t").unwrap().to_text(), "true");
    assert_eq!(
        run(&mut env, "(lambda (x) (+ x 1))").unwrap().to_text(),
        "<lambda>"
    );
}

#[test]
fn canonical_number_rendering() {
    let mut env = Environment::new();
    // the canonical text is what Display renders for the double value
    assert_eq!(
        run(&mut env, "(+ 1e3 0)"),
        Ok(Value::Number("1000".to_string()))
    );
    assert_eq!(
        run(&mut env, "(+ 0.5 0.25)"),
        Ok(Value::Number("0.75".to_string()))
    );
}
