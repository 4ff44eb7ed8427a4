use polenta::{parse_expr, BinaryOp, Expr, PolentaParser, Stmt, UnaryOp};

#[test]
fn test_parse_main_expression() {
    parse_expr("-1 + x * 3 * 3").expect("should parse");
}

#[test]
fn test_parse_let_expression() {
    PolentaParser::parse_input("let x = 4 * 3; let y = 6 ^ x;").expect("should parse");
}

#[test]
fn main_expression_shape() {
    // (-1) + ((x * 3) * 3)
    let e = parse_expr("-1 + x * 3 * 3").unwrap();
    match e {
        Expr::BinaryOp { lhs, op: BinaryOp::Add, rhs } => {
            assert!(matches!(*lhs, Expr::UnaryOp { op: UnaryOp::Minus, .. }));
            match *rhs {
                Expr::BinaryOp { lhs: inner, op: BinaryOp::Mul, rhs: three } => {
                    assert!(matches!(*inner, Expr::BinaryOp { op: BinaryOp::Mul, .. }));
                    assert!(matches!(*three, Expr::Integer(3)));
                }
                other => panic!("unexpected {:?}", other),
            }
        }
        other => panic!("unexpected {:?}", other),
    }
}

#[test]
fn power_and_evaluation_associate_to_the_right() {
    let e = parse_expr("2 ^ 3 ^ 4").unwrap();
    match e {
        Expr::BinaryOp { lhs, op: BinaryOp::Pow, rhs } => {
            assert!(matches!(*lhs, Expr::Integer(2)));
            assert!(matches!(*rhs, Expr::BinaryOp { op: BinaryOp::Pow, .. }));
        }
        other => panic!("unexpected {:?}", other),
    }
    let e = parse_expr("Q @ P @ 3").unwrap();
    match e {
        Expr::BinaryOp { lhs, op: BinaryOp::Evl, rhs } => {
            assert!(matches!(*lhs, Expr::Identifier(ref n) if n == "Q"));
            assert!(matches!(*rhs, Expr::BinaryOp { op: BinaryOp::Evl, .. }));
        }
        other => panic!("unexpected {:?}", other),
    }
}

#[test]
fn subtraction_associates_to_the_left() {
    let e = parse_expr("10 - 3 - 2").unwrap();
    match e {
        Expr::BinaryOp { lhs, op: BinaryOp::Sub, rhs } => {
            assert!(matches!(*lhs, Expr::BinaryOp { op: BinaryOp::Sub, .. }));
            assert!(matches!(*rhs, Expr::Integer(2)));
        }
        other => panic!("unexpected {:?}", other),
    }
}

#[test]
fn equality_binds_loosest() {
    let e = parse_expr("1 + 1 == 2").unwrap();
    assert!(matches!(e, Expr::BinaryOp { op: BinaryOp::Eq, .. }));
}

#[test]
fn statement_kinds() {
    let stmts = PolentaParser::parse_input("let a = 1; let P(t) = t; a; assert a == 1; assert a = 1;")
        .unwrap();
    assert_eq!(stmts.len(), 5);
    assert!(matches!(&stmts[0], Stmt::Let(n, Expr::Integer(1)) if n == "a"));
    assert!(matches!(&stmts[1], Stmt::LetPoly(n, t, Expr::Identifier(_)) if n == "P" && t == "t"));
    assert!(matches!(&stmts[2], Stmt::Expr(Expr::Identifier(_))));
    assert!(matches!(&stmts[3], Stmt::Assert(Expr::BinaryOp { op: BinaryOp::Eq, .. })));
    assert!(matches!(&stmts[4], Stmt::Assert(Expr::BinaryOp { op: BinaryOp::Eq, .. })));
}

#[test]
fn syntax_error_spans() {
    let e = PolentaParser::parse_input("let a = ++;").unwrap_err();
    assert_eq!((e.start, e.len), (8, 1));
    let e = PolentaParser::parse_input("let a = 3 # 4;").unwrap_err();
    assert_eq!((e.start, e.len), (10, 1));
    let e = PolentaParser::parse_input("(1 + 2;").unwrap_err();
    assert_eq!((e.start, e.len), (6, 1));
    let e = PolentaParser::parse_input("let a = 3").unwrap_err();
    assert_eq!((e.start, e.len), (9, 0));
    let e = PolentaParser::parse_input("let abc 3;").unwrap_err();
    assert_eq!((e.start, e.len), (8, 1));
    assert_eq!(e.src, "let abc 3;");
}

#[test]
fn literals_of_any_size_are_reduced() {
    // 2^64 is 4294967295 modulo 2^64 - 2^32 + 1
    let e = parse_expr("18446744073709551616").unwrap();
    assert!(matches!(e, Expr::Integer(4294967295)));
    let e = parse_expr("18446744069414584323").unwrap();
    assert!(matches!(e, Expr::Integer(2)));
    let e = parse_expr("1000000000000000000000000000000000000000").unwrap();
    assert!(matches!(e, Expr::Integer(16764934663531353257)));
    assert!(PolentaParser::parse_input("1 + 18446744073709551616;").is_ok());
}

#[test]
fn comments_and_whitespace_are_skipped() {
    let stmts = PolentaParser::parse_input("  1;\t// one\n\r\n2; // two").unwrap();
    assert_eq!(stmts.len(), 2);
    assert!(PolentaParser::parse_input("").unwrap().is_empty());
}
