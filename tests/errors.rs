use polenta::{Polenta, PolentaError};

fn run_for_error(input: &str) -> PolentaError {
    let result = Polenta::new().interpret(input);
    result.expect_err("should return error")
}

#[test]
fn test_unknown_identifier() {
    let err = run_for_error("let a = b;");
    assert_eq!("Unknown Identifier: b".to_string(), err.to_string());
}

#[test]
fn test_div_by_zero() {
    let err = run_for_error("let a = 3 / (3 - 3);");
    assert_eq!("Division by Zero".to_string(), err.to_string());
}

#[test]
fn test_syntax_error() {
    let err = run_for_error("let a = ++;");
    assert_eq!("Compiler Error".to_string(), err.to_string());
}
