use polenta::Polenta;

fn check_statement_symbols(input: &str, expected: Vec<(&str, &str)>) {
    let mut polenta = Polenta::new();
    polenta.interpret(input).expect("should interpret");
    for (key, expected_value) in expected {
        let value = polenta.get(key).unwrap();
        assert_eq!(Polenta::poly_print(&value), expected_value);
    }
}

#[test]
fn test_minus() {
    check_statement_symbols(
        "-1; // should be 18446744069414584320 in goldilocks",
        vec![("!!", "18446744069414584320")],
    );
    check_statement_symbols("-(-1);", vec![("!!", "1")]);
}

#[test]
fn test_large() {
    check_statement_symbols(
        "18446744069414584323; // 2 above the order in goldilocks",
        vec![("!!", "2")],
    );
}

#[test]
fn test_div() {
    check_statement_symbols(
        "1 / 2; // should be 9223372034707292161 in goldilocks",
        vec![("!!", "9223372034707292161")],
    );
    check_statement_symbols("2 * (1 / 2);", vec![("!!", "1")]);
}

#[test]
fn test_let_1() {
    check_statement_symbols("let abc = 2 + 3 * 2 ^ 3 - 1;", vec![("abc", "25")]);
}

#[test]
fn test_let_2() {
    check_statement_symbols(
        "let x = 4 * 3; let y = 12 + x;",
        vec![("x", "12"), ("y", "24")],
    );
}
