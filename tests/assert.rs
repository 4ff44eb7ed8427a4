use polenta::Polenta;

fn run_assert(input: &str) {
    Polenta::new().interpret(input).expect("should interpret");
}

#[test]
fn test_assert_expr() {
    run_assert("assert 2 + 2 = 4;");
}

#[test]
fn test_assert_let() {
    run_assert("let a = 3; let b = 4; assert 7 - a = b;");
}

#[test]
fn test_assert_inv() {
    run_assert("let x = 123; let y = 1 / 123; assert x * y = 1;");
}
