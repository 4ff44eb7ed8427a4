use polenta::lexer::tokenize;
use polenta::{parse_expr, BinaryOp, InterpreterError, Polenta, PolentaError, PolentaParser, Poly};

fn value_of(input: &str, name: &str) -> String {
    let mut polenta = Polenta::new();
    polenta.interpret(input).expect("should interpret");
    Polenta::poly_print(&polenta.get(name).unwrap())
}

fn last_value(input: &str) -> String {
    value_of(input, "!!")
}

fn interpreter_error(input: &str) -> InterpreterError {
    match Polenta::new().interpret(input) {
        Err(PolentaError::InterpreterError(e)) => e,
        other => panic!("expected an interpreter error, got {:?}", other),
    }
}

#[test]
fn literal_is_reduced_modulo_the_characteristic() {
    assert_eq!(last_value("18446744069414584321;"), "0");
    assert_eq!(last_value("18446744069414584323;"), "2");
    assert_eq!(last_value("18446744073709551615;"), "4294967294");
    assert_eq!(last_value("18446744073709551616;"), "4294967295");
    assert_eq!(last_value("36893488138829168642;"), "0");
}

#[test]
fn values_come_back_in_statement_order() {
    let polys = Polenta::new().interpret("1; 2; let a = 3; assert 5;").unwrap();
    let printed: Vec<String> = polys.iter().map(Polenta::poly_print).collect();
    assert_eq!(printed, vec!["1", "2", "3", "5"]);
}

#[test]
fn unknown_identifier_leaves_the_name_unbound() {
    let mut polenta = Polenta::new();
    let err = polenta.interpret("let c = 1; let a = b;").unwrap_err();
    assert!(matches!(err, PolentaError::InterpreterError(InterpreterError::UnknownIdentifier(ref n)) if n == "b"));
    assert!(polenta.get("a").is_none());
    assert_eq!(Polenta::poly_print(&polenta.get("c").unwrap()), "1");
}

#[test]
fn syntax_error_runs_nothing() {
    let mut polenta = Polenta::new();
    assert!(matches!(polenta.interpret("let a = 1; let b = ;"), Err(PolentaError::ParserError(_))));
    assert!(polenta.get("a").is_none());
}

#[test]
fn division_and_remainder_by_zero() {
    assert!(matches!(interpreter_error("let a = 3 / (3 - 3);"), InterpreterError::DivisionByZero));
    assert!(matches!(interpreter_error("let P(x) = x % 0;"), InterpreterError::DivisionByZero));
}

#[test]
fn non_constant_operands_are_refused() {
    let e = interpreter_error("let P(x) = x; let Q(x) = x ^ P;");
    assert!(matches!(e, InterpreterError::NotAConstant));
    assert_eq!(e.to_string(), "Expected a Constant");
    assert!(e.help().is_some());
    assert!(matches!(interpreter_error("let P(x) = 1 / x;"), InterpreterError::NotAConstant));
    assert!(matches!(interpreter_error("let P(x) = 2 @ x;"), InterpreterError::NotAConstant));
}

#[test]
fn assertions() {
    assert!(Polenta::new().interpret("assert 2 + 2 == 4;").is_ok());
    let e = interpreter_error("assert 2 + 2 == 5;");
    assert!(matches!(e, InterpreterError::AssertionFailed));
    assert_eq!(e.to_string(), "Assertion Failed");
    assert_eq!(e.help().unwrap(), "Asserted expression must be non-zero.");
    assert!(matches!(interpreter_error("assert 0;"), InterpreterError::AssertionFailed));
    assert!(matches!(interpreter_error("assert 3 != 3;"), InterpreterError::AssertionFailed));
}

#[test]
fn comparisons_yield_one_or_zero() {
    assert_eq!(last_value("1 != 2;"), "1");
    assert_eq!(last_value("1 != 1;"), "0");
    assert_eq!(last_value("let P(x) = x + 1; P == P;"), "1");
    assert_eq!(last_value("1 + 1 == 2;"), "1");
}

#[test]
fn ring_operations() {
    assert_eq!(value_of("let P(x) = x - 3;", "P"), "x + 18446744069414584318");
    assert_eq!(value_of("let P(x) = -x^2;", "P"), "x^2");
    assert_eq!(value_of("let P(x) = (x + 1) * (x - 1);", "P"), "x^2 + 18446744069414584320");
    assert_eq!(value_of("let P(x) = (x^2 + 1) % (x + 1);", "P"), "2");
    assert_eq!(value_of("let P(x) = (x^2 + 3*x) % x;", "P"), "0");
    assert_eq!(value_of("let P(x) = (4*x + 2) / 2;", "P"), "2*x + 1");
    assert_eq!(value_of("let P(x) = x * 0;", "P"), "0");
    assert_eq!(last_value("10 - 3 - 2;"), "5");
    assert_eq!(last_value("2 ^ 3 ^ 2;"), "512");
    assert_eq!(last_value("5 ^ 0;"), "1");
    assert_eq!(last_value("let P(x) = x^2 + 1; P @ 3;"), "10");
}

#[test]
fn composition_chain() {
    assert_eq!(last_value("let P(x)=3*x+1; let Q(x)=x/2; P@3;"), "10");
    assert_eq!(last_value("let P(x)=3*x+1; let Q(x)=x/2; Q@P@Q@P@3;"), "8");
}

#[test]
fn formal_term_does_not_touch_the_table() {
    let mut polenta = Polenta::new();
    polenta.interpret("let x = 5; let P(x) = x + 1; let y = x;").unwrap();
    assert_eq!(Polenta::poly_print(&polenta.get("x").unwrap()), "5");
    assert_eq!(Polenta::poly_print(&polenta.get("y").unwrap()), "5");
    assert_eq!(Polenta::poly_print(&polenta.get("P").unwrap()), "x + 1");
}

#[test]
fn pretty_print() {
    let p = Poly { coeffs: vec![4, 1, 3, 1] };
    assert_eq!(Polenta::poly_print(&p), "x^3 + 3*x^2 + x + 4");
    assert_eq!(Polenta::poly_print(&Poly { coeffs: vec![] }), "0");
    assert_eq!(Polenta::poly_print(&Poly { coeffs: vec![0, 0, 5] }), "5*x^2");
    assert_eq!(Polenta::poly_print(&Poly { coeffs: vec![7, 2] }), "2*x + 7");
}

#[test]
fn constant_helpers() {
    assert_eq!(Polenta::poly_as_felt(&Poly { coeffs: vec![] }), Some(0));
    assert_eq!(Polenta::poly_as_felt(&Poly { coeffs: vec![9] }), Some(9));
    assert_eq!(Polenta::poly_as_felt(&Poly { coeffs: vec![9, 1] }), None);
    assert!(Polenta::felt_as_poly(0).coeffs.is_empty());
    assert_eq!(Polenta::felt_as_poly(3).coeffs, vec![3]);
    assert!(Polenta::poly_is_zero(&Polenta::poly_from_bool(false)));
    assert_eq!(Polenta::poly_from_bool(true).coeffs, vec![1]);
    let p = Poly { coeffs: vec![1, 1] };
    assert_eq!(Polenta::poly_print(&Polenta::poly_pow(&p, 3)), "x^3 + 3*x^2 + 3*x + 1");
}

#[test]
fn negation_is_coefficient_wise() {
    assert_eq!(value_of("let P(x) = -x;", "P"), "18446744069414584320*x");
    assert_eq!(value_of("let P(x) = -(x + 2);", "P"), "18446744069414584320*x + 18446744069414584319");
    assert_eq!(last_value("-0;"), "0");
}

#[test]
fn statements_one_at_a_time() {
    let mut polenta = Polenta::default();
    let stmts = PolentaParser::parse_input("let P(t) = t + 1; P @ 4;").unwrap();
    let first = polenta.process_statement(&stmts[0]).unwrap();
    assert_eq!(Polenta::poly_print(&first), "x + 1");
    let second = polenta.process_statement(&stmts[1]).unwrap();
    assert_eq!(Polenta::poly_print(&second), "5");
    assert_eq!(Polenta::poly_print(&polenta.get("!!").unwrap()), "5");
}

#[test]
fn parse_statement_reports_where_it_ends() {
    let toks = tokenize("let a = 1; a + 2;").unwrap();
    let (_, next) = PolentaParser::parse_statement(&toks, 0).unwrap();
    assert_eq!(next, 5);
    let (_, end) = PolentaParser::parse_statement(&toks, next).unwrap();
    assert_eq!(end, toks.len());
}

#[test]
fn statements_after_a_failure_do_not_run() {
    let mut polenta = Polenta::new();
    let err = polenta.interpret("let a = 1; let b = z; let c = 2;").unwrap_err();
    assert_eq!(err.to_string(), "Unknown Identifier: z");
    assert_eq!(Polenta::poly_print(&polenta.get("a").unwrap()), "1");
    assert!(polenta.get("b").is_none());
    assert!(polenta.get("c").is_none());
}

#[test]
fn redefinition_replaces_the_binding() {
    let mut polenta = Polenta::new();
    polenta.interpret("let a = 1; let a = a + 1; let a = a * 10;").unwrap();
    assert_eq!(Polenta::poly_print(&polenta.get("a").unwrap()), "20");
}

#[test]
fn process_expr_with_a_formal_term() {
    let mut polenta = Polenta::new();
    polenta.interpret("let x = 7;").unwrap();
    let e = parse_expr("x^2 - 1").unwrap();
    let term = "x".to_string();
    let p = polenta.process_expr(&e, Some(&term)).unwrap();
    assert_eq!(Polenta::poly_print(&p), "x^2 + 18446744069414584320");
    let c = polenta.process_expr(&e, None).unwrap();
    assert_eq!(Polenta::poly_print(&c), "48");
    let e = parse_expr("y + 1").unwrap();
    assert!(matches!(polenta.process_expr(&e, None), Err(InterpreterError::UnknownIdentifier(ref n)) if n == "y"));
}

#[test]
fn apply_op_remainder_is_shorter_than_the_divisor() {
    // (x^3 + 2x + 5) = (x^2 + 1)(x) + (x + 5)
    let a = Poly { coeffs: vec![5, 2, 0, 1] };
    let b = Poly { coeffs: vec![1, 0, 1] };
    let r = Polenta::apply_op(BinaryOp::Mod, &a, &b).unwrap();
    assert_eq!(r.coeffs, vec![5, 1]);
    let q = Polenta::apply_op(BinaryOp::Div, &a, &Poly { coeffs: vec![2] }).unwrap();
    assert_eq!(Polenta::poly_print(&q), "9223372034707292161*x^3 + x + 9223372034707292163");
    assert!(matches!(Polenta::apply_op(BinaryOp::Mod, &a, &Poly { coeffs: vec![] }), Err(InterpreterError::DivisionByZero)));
    assert!(matches!(Polenta::apply_op(BinaryOp::Evl, &a, &b), Err(InterpreterError::NotAConstant)));
    let v = Polenta::apply_op(BinaryOp::Evl, &a, &Poly { coeffs: vec![2] }).unwrap();
    assert_eq!(v.coeffs, vec![17]);
}

#[test]
fn help_texts() {
    assert_eq!(InterpreterError::DivisionByZero.help(), None);
    assert_eq!(InterpreterError::UnknownIdentifier("a".to_string()).help(), None);
    assert_eq!(
        InterpreterError::NotAConstant.help().unwrap(),
        "Divisors, exponents and evaluation points must be constants."
    );
    let e = PolentaParser::parse_input("let a = ;").unwrap_err();
    assert_eq!(e.help, "expected an expression");
    let e = PolentaParser::parse_input("let a = 1 $").unwrap_err();
    assert_eq!(e.help, "no token starts here");
    let e = parse_expr("1 2").unwrap_err();
    assert_eq!(e.help, "expected an operator or the end of the input");
}
