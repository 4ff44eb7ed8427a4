//! Laws of the language, proved from the definitions that the parser and
//! the interpreter are verified against.
use crate::errors::EvalError;
use crate::grammar::{BinaryOp, ExprV, StmtV, UnaryOp};
use crate::lexer::TokV;
use crate::parser::{climb, infix_op, parse_bp, parse_unary, prec, right_assoc, ParseErr};
use crate::poly::{canonical, constant, eval_spec, finv, fneg, neg_spec, scale_spec, trim, MODULUS};
use crate::program::{as_constant, eval_expr, exec_stmt, run_from, Names};
use vstd::prelude::*;

verus! {

/// An integer literal stands for its value reduced modulo the
/// characteristic, whatever the table and the formal term.
pub proof fn law_literal_reduction(names: Names, v: u64, term: Option<Seq<char>>)
    ensures
        eval_expr(names, ExprV::Integer(v), term) == Ok::<Seq<u64>, EvalError>(
            constant(v % MODULUS),
        ),
{
}

/// Negating a polynomial twice gives it back.
pub proof fn law_double_negation(a: Seq<u64>)
    requires
        canonical(a),
    ensures
        neg_spec(neg_spec(a)) == a,
{
    let m = a.map_values(|c: u64| fneg(c));
    assert forall|i: int| 0 <= i < a.len() implies (a[i] == 0 <==> #[trigger] m[i] == 0) && m[i]
        < MODULUS by {}
    if a.len() > 0 {
        assert(m.last() == m[m.len() - 1]);
        assert(a.last() == a[a.len() - 1]);
    }
    assert(trim(m) == m);
    let mm = m.map_values(|c: u64| fneg(c));
    assert(mm =~= a);
    if a.len() > 0 {
        assert(mm.last() == mm[mm.len() - 1]);
    }
    assert(trim(mm) == mm);
}

/// Evaluating `-(-e)` gives what evaluating `e` gives (the interpreter
/// only produces canonical values).
pub proof fn law_double_negation_expr(names: Names, e: ExprV, term: Option<Seq<char>>)
    requires
        eval_expr(names, e, term) matches Ok(p) ==> canonical(p),
    ensures
        eval_expr(
            names,
            ExprV::Unary(UnaryOp::Minus, Box::new(ExprV::Unary(UnaryOp::Minus, Box::new(e)))),
            term,
        ) == eval_expr(names, e, term),
{
    let inner = ExprV::Unary(UnaryOp::Minus, Box::new(e));
    if let Ok(p) = eval_expr(names, e, term) {
        law_double_negation(p);
        assert(eval_expr(names, inner, term) == Ok::<Seq<u64>, EvalError>(neg_spec(p)));
    } else {
        assert(eval_expr(names, inner, term) == eval_expr(names, e, term));
    }
}

/// A statement that fails leaves the table as it was.
pub proof fn law_failed_statement_keeps_table(names: Names, st: StmtV)
    ensures
        exec_stmt(names, st).1 is Err ==> exec_stmt(names, st).0 == names,
{
}

proof fn lemma_stop_at_failure(names: Names, a: Seq<StmtV>, bad: StmtV, rest: Seq<StmtV>, i: int)
    requires
        0 <= i <= a.len(),
        run_from(names, a, i).1 is Ok,
        exec_stmt(run_from(names, a, i).0, bad).1 is Err,
    ensures
        run_from(names, a + seq![bad] + rest, i) == (
            run_from(names, a, i).0,
            Err::<Seq<Seq<u64>>, EvalError>(exec_stmt(run_from(names, a, i).0, bad).1->Err_0),
        ),
    decreases a.len() - i,
{
    let s = a + seq![bad] + rest;
    if i == a.len() {
        assert(s[i] == bad);
    } else {
        assert(s[i] == a[i]);
        let (n1, r) = exec_stmt(names, a[i]);
        lemma_stop_at_failure(n1, a, bad, rest, i + 1);
    }
}

/// Statements run in order until the first failure: the table keeps what
/// the statements before it did, the failing statement changes nothing,
/// and the statements after it do not run.
pub proof fn law_no_rollback(names: Names, a: Seq<StmtV>, bad: StmtV, rest: Seq<StmtV>)
    requires
        run_from(names, a, 0).1 is Ok,
        exec_stmt(run_from(names, a, 0).0, bad).1 is Err,
    ensures
        run_from(names, a + seq![bad] + rest, 0) == (
            run_from(names, a, 0).0,
            Err::<Seq<Seq<u64>>, EvalError>(exec_stmt(run_from(names, a, 0).0, bad).1->Err_0),
        ),
{
    lemma_stop_at_failure(names, a, bad, rest, 0);
}

/// Binding a name to a value replaces whatever it was bound to.
pub proof fn law_let_replaces(names: Names, n: Seq<char>, e: ExprV)
    ensures
        match eval_expr(names, e, None) {
            Ok(p) => exec_stmt(names, StmtV::Let(n, e)).0 == names.insert(n, p)
                && exec_stmt(names, StmtV::Let(n, e)).0[n] == p,
            Err(_) => exec_stmt(names, StmtV::Let(n, e)).0 == names,
        },
{
}

/// A name that is neither bound nor the formal term is an error, and a
/// `let` of it binds nothing.
pub proof fn law_unknown_identifier(names: Names, a: Seq<char>, b: Seq<char>)
    requires
        !names.contains_key(b),
    ensures
        exec_stmt(names, StmtV::Let(a, ExprV::Identifier(b))) == (
            names,
            Err::<Seq<u64>, EvalError>(EvalError::UnknownIdentifier(b)),
        ),
{
}

/// Inside a polynomial definition the formal term is the indeterminate,
/// whatever the table binds to that name; other names keep their binding.
pub proof fn law_formal_term(names: Names, t: Seq<char>, n: Seq<char>)
    ensures
        eval_expr(names, ExprV::Identifier(t), Some(t)) == Ok::<Seq<u64>, EvalError>(
            seq![0u64, 1u64],
        ),
        n != t && names.contains_key(n) ==> eval_expr(names, ExprV::Identifier(n), Some(t)) == Ok::<
            Seq<u64>,
            EvalError,
        >(names[n]),
{
}

/// Dividing by an operand whose value is zero fails with a division by zero.
pub proof fn law_division_by_zero(names: Names, l: ExprV, r: ExprV, term: Option<Seq<char>>)
    requires
        eval_expr(names, l, term) is Ok,
        eval_expr(names, r, term) == Ok::<Seq<u64>, EvalError>(seq![]),
    ensures
        eval_expr(names, ExprV::Binary(Box::new(l), BinaryOp::Div, Box::new(r)), term) == Err::<
            Seq<u64>,
            EvalError,
        >(EvalError::DivisionByZero),
{
}

/// Dividing by a nonzero constant `c` multiplies every coefficient by the
/// inverse of `c`; dividing by a polynomial of positive degree is refused.
pub proof fn law_division(names: Names, l: ExprV, r: ExprV, term: Option<Seq<char>>)
    requires
        eval_expr(names, l, term) is Ok,
        eval_expr(names, r, term) is Ok,
    ensures
        ({
            let a = eval_expr(names, l, term)->Ok_0;
            let b = eval_expr(names, r, term)->Ok_0;
            let d = eval_expr(names, ExprV::Binary(Box::new(l), BinaryOp::Div, Box::new(r)), term);
            &&& b.len() == 1 ==> d == Ok::<Seq<u64>, EvalError>(scale_spec(a, finv(b[0])))
            &&& b.len() > 1 ==> d == Err::<Seq<u64>, EvalError>(EvalError::NotAConstant)
        }),
{
}

/// `p @ v` is the constant `p(v)` when `v` is a constant, and is refused
/// otherwise.
pub proof fn law_evaluation(names: Names, p: ExprV, v: ExprV, term: Option<Seq<char>>)
    requires
        eval_expr(names, p, term) is Ok,
        eval_expr(names, v, term) is Ok,
    ensures
        ({
            let a = eval_expr(names, p, term)->Ok_0;
            let b = eval_expr(names, v, term)->Ok_0;
            let e = eval_expr(names, ExprV::Binary(Box::new(p), BinaryOp::Evl, Box::new(v)), term);
            &&& b.len() <= 1 ==> e == Ok::<Seq<u64>, EvalError>(constant(eval_spec(a, as_constant(b))))
            &&& b.len() > 1 ==> e == Err::<Seq<u64>, EvalError>(EvalError::NotAConstant)
        }),
{
}

/// `q @ p @ v` applies `p` first and `q` to its value: the constant
/// `q(p(v))`.
pub proof fn law_composition(names: Names, q: ExprV, p: ExprV, v: ExprV, term: Option<Seq<char>>)
    requires
        eval_expr(names, q, term) is Ok,
        eval_expr(names, p, term) is Ok,
        eval_expr(names, v, term) matches Ok(b) && b.len() <= 1,
    ensures
        eval_expr(
            names,
            ExprV::Binary(
                Box::new(q),
                BinaryOp::Evl,
                Box::new(ExprV::Binary(Box::new(p), BinaryOp::Evl, Box::new(v))),
            ),
            term,
        ) == Ok::<Seq<u64>, EvalError>(
            constant(
                eval_spec(
                    eval_expr(names, q, term)->Ok_0,
                    eval_spec(
                        eval_expr(names, p, term)->Ok_0,
                        as_constant(eval_expr(names, v, term)->Ok_0),
                    ),
                ),
            ),
        ),
{
    let inner = ExprV::Binary(Box::new(p), BinaryOp::Evl, Box::new(v));
    let x = eval_spec(eval_expr(names, p, term)->Ok_0, as_constant(eval_expr(names, v, term)->Ok_0));
    law_evaluation(names, p, v, term);
    assert(eval_expr(names, inner, term) == Ok::<Seq<u64>, EvalError>(constant(x)));
    assert(as_constant(constant(x)) == x);
    law_evaluation(names, q, inner, term);
}

/// An assertion fails exactly when its operand evaluates to zero, and
/// otherwise gives the operand's value; it never changes the table.
pub proof fn law_assert(names: Names, e: ExprV)
    ensures
        exec_stmt(names, StmtV::Assert(e)).0 == names,
        match eval_expr(names, e, None) {
            Ok(p) => if p.len() == 0 {
                exec_stmt(names, StmtV::Assert(e)).1 == Err::<Seq<u64>, EvalError>(
                    EvalError::AssertionFailed,
                )
            } else {
                exec_stmt(names, StmtV::Assert(e)).1 == Ok::<Seq<u64>, EvalError>(p)
            },
            Err(x) => exec_stmt(names, StmtV::Assert(e)).1 == Err::<Seq<u64>, EvalError>(x),
        },
{
}

/// The expression a single literal or name token stands for.
pub open spec fn atom(t: TokV) -> ExprV {
    match t {
        TokV::Int(v) => ExprV::Integer(v),
        TokV::Ident(n) => ExprV::Identifier(n),
        _ => ExprV::Integer(0),
    }
}

pub open spec fn is_atom(t: TokV) -> bool {
    t is Int || t is Ident
}

pub open spec fn bin(l: ExprV, op: BinaryOp, r: ExprV) -> ExprV {
    ExprV::Binary(Box::new(l), op, Box::new(r))
}

/// Prefix `-` binds tighter than any infix operator: `-x ^ y` is `(-x) ^ y`.
pub proof fn law_unary_minus_binds_tightest(x: TokV, y: TokV)
    requires
        is_atom(x),
        is_atom(y),
    ensures
        parse_bp(seq![TokV::Minus, x, TokV::Caret, y], 0, 0) == Ok::<
            (ExprV, int),
            ParseErr,
        >((bin(ExprV::Unary(UnaryOp::Minus, Box::new(atom(x))), BinaryOp::Pow, atom(y)), 4)),
{
    let s = seq![TokV::Minus, x, TokV::Caret, y];
    let nx = ExprV::Unary(UnaryOp::Minus, Box::new(atom(x)));
    let all = bin(nx, BinaryOp::Pow, atom(y));
    assert(parse_unary(s, 1) == Ok::<(ExprV, int), ParseErr>((atom(x), 2)));
    assert(parse_unary(s, 0) == Ok::<(ExprV, int), ParseErr>((nx, 2)));
    assert(parse_unary(s, 3) == Ok::<(ExprV, int), ParseErr>((atom(y), 4)));
    assert(climb(s, atom(y), 4, 4) == Ok::<(ExprV, int), ParseErr>((atom(y), 4)));
    assert(parse_bp(s, 3, 4) == Ok::<(ExprV, int), ParseErr>((atom(y), 4)));
    assert(climb(s, all, 4, 0) == Ok::<(ExprV, int), ParseErr>((all, 4)));
    assert(climb(s, nx, 2, 0) == Ok::<(ExprV, int), ParseErr>((all, 4)));
}

/// Atoms separated by one operator token: `x0 t x1 t ... t xn`.
pub open spec fn chain(xs: Seq<TokV>, t: TokV) -> Seq<TokV> {
    Seq::new(
        (2 * xs.len() - 1) as nat,
        |k: int|
            if k % 2 == 0 {
                xs[k / 2]
            } else {
                t
            },
    )
}

pub open spec fn all_atoms(xs: Seq<TokV>) -> bool {
    forall|k: int| 0 <= k < xs.len() ==> #[trigger] is_atom(xs[k])
}

/// `xi op (x(i+1) op (... op xn))`.
pub open spec fn nest_right(xs: Seq<TokV>, op: BinaryOp, i: int) -> ExprV
    decreases xs.len() - i,
{
    if i + 1 >= xs.len() {
        atom(xs[i])
    } else {
        bin(atom(xs[i]), op, nest_right(xs, op, i + 1))
    }
}

/// `((x0 op x1) op ...) op x(n-1)` over the first `n` atoms.
pub open spec fn fold_left(xs: Seq<TokV>, op: BinaryOp, n: int) -> ExprV
    decreases n,
{
    if n <= 1 {
        atom(xs[0])
    } else {
        bin(fold_left(xs, op, n - 1), op, atom(xs[n - 1]))
    }
}

proof fn lemma_right_chain(xs: Seq<TokV>, t: TokV, op: BinaryOp, i: int, m: int)
    requires
        all_atoms(xs),
        infix_op(t) == Some(op),
        right_assoc(op),
        0 <= i < xs.len(),
        m <= prec(op),
    ensures
        parse_bp(chain(xs, t), 2 * i, m) == Ok::<(ExprV, int), ParseErr>(
            (nest_right(xs, op, i), 2 * xs.len() - 1),
        ),
    decreases xs.len() - i,
{
    let s = chain(xs, t);
    let n = 2 * xs.len() - 1;
    assert(s[2 * i] == xs[i]);
    assert(is_atom(xs[i]));
    assert(parse_unary(s, 2 * i) == Ok::<(ExprV, int), ParseErr>((atom(xs[i]), 2 * i + 1)));
    if i + 1 < xs.len() {
        assert(s[2 * i + 1] == t);
        lemma_right_chain(xs, t, op, i + 1, prec(op));
        let e = nest_right(xs, op, i);
        assert(climb(s, e, n, m) == Ok::<(ExprV, int), ParseErr>((e, n)));
        assert(climb(s, atom(xs[i]), 2 * i + 1, m) == Ok::<(ExprV, int), ParseErr>((e, n)));
    }
}

/// However many operands, a chain of `^`, or of `@`, nests to the right:
/// `x0 ^ x1 ^ ... ^ xn` is `x0 ^ (x1 ^ (... ^ xn))`.
pub proof fn law_right_chain(xs: Seq<TokV>, t: TokV)
    requires
        xs.len() >= 1,
        all_atoms(xs),
        t is Caret || t is At,
    ensures
        parse_bp(chain(xs, t), 0, 0) == Ok::<(ExprV, int), ParseErr>(
            (nest_right(xs, infix_op(t)->0, 0), 2 * xs.len() - 1),
        ),
{
    lemma_right_chain(xs, t, infix_op(t)->0, 0, 0);
}

proof fn lemma_left_chain(xs: Seq<TokV>, t: TokV, op: BinaryOp, i: int, m: int)
    requires
        all_atoms(xs),
        infix_op(t) == Some(op),
        !right_assoc(op),
        0 <= i < xs.len(),
        m <= prec(op),
    ensures
        climb(chain(xs, t), fold_left(xs, op, i + 1), 2 * i + 1, m) == Ok::<(ExprV, int), ParseErr>(
            (fold_left(xs, op, xs.len() as int), 2 * xs.len() - 1),
        ),
    decreases xs.len() - i,
{
    let s = chain(xs, t);
    let n = 2 * xs.len() - 1;
    if i + 1 < xs.len() {
        let p = prec(op) + 1;
        assert(s[2 * i + 1] == t);
        assert(s[2 * i + 2] == xs[i + 1]);
        assert(is_atom(xs[i + 1]));
        let y = atom(xs[i + 1]);
        assert(parse_unary(s, 2 * i + 2) == Ok::<(ExprV, int), ParseErr>((y, 2 * i + 3)));
        if 2 * i + 3 < n {
            assert(s[2 * i + 3] == t);
        }
        assert(climb(s, y, 2 * i + 3, p) == Ok::<(ExprV, int), ParseErr>((y, 2 * i + 3)));
        assert(parse_bp(s, 2 * i + 2, p) == Ok::<(ExprV, int), ParseErr>((y, 2 * i + 3)));
        lemma_left_chain(xs, t, op, i + 1, m);
    }
}

/// However many operands, a chain of one left-associative operator (`+`,
/// `-`, `*`, `/`, `%`, `==`, `!=`) groups to the left:
/// `x0 - x1 - ... - xn` is `((x0 - x1) - ...) - xn`.
pub proof fn law_left_chain(xs: Seq<TokV>, t: TokV)
    requires
        xs.len() >= 1,
        all_atoms(xs),
        infix_op(t) is Some,
        !right_assoc(infix_op(t)->0),
    ensures
        parse_bp(chain(xs, t), 0, 0) == Ok::<(ExprV, int), ParseErr>(
            (fold_left(xs, infix_op(t)->0, xs.len() as int), 2 * xs.len() - 1),
        ),
{
    let s = chain(xs, t);
    assert(s[0] == xs[0]);
    assert(is_atom(xs[0]));
    assert(parse_unary(s, 0) == Ok::<(ExprV, int), ParseErr>((atom(xs[0]), 1)));
    lemma_left_chain(xs, t, infix_op(t)->0, 0, 0);
}

} // verus!
