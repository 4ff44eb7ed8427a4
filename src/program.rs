//! The interpreter: evaluates statements against a table of names.
use crate::errors::{EvalError, InterpreterError, ParserError, PolentaError};
use crate::grammar::{stmts_view, BinaryOp, Expr, ExprV, Stmt, StmtV, UnaryOp};
use crate::names::NameTable;
use crate::parser::{source_stmts, PolentaParser};
use crate::poly::{
    add_spec, constant, eval_spec, finv, mul_spec, neg_spec, poly_add, poly_div_by_constant,
    poly_evaluate, poly_mul, poly_neg, poly_rem, poly_sub, pow_spec, rem_spec, is_remainder, scale_spec,
    sub_spec, Poly, MODULUS,
};
use vstd::prelude::*;
use vstd::string::{StringExecFns, StringSliceAdditionalSpecFns};

verus! {

pub type Names = Map<Seq<char>, Seq<u64>>;

pub type EvalRes = Result<Seq<u64>, EvalError>;

/// The name under which the value of the latest expression statement is kept.
pub open spec fn last_value_key() -> Seq<char> {
    "!!"@
}

/// A polynomial of degree zero read as a field element (zero for the zero
/// polynomial).
pub open spec fn as_constant(p: Seq<u64>) -> u64 {
    if p.len() == 0 {
        0
    } else {
        p[0]
    }
}

/// One for true, zero for false.
pub open spec fn from_bool(b: bool) -> Seq<u64> {
    if b {
        seq![1u64]
    } else {
        seq![]
    }
}

/// Combines two evaluated operands.
pub open spec fn apply(op: BinaryOp, a: Seq<u64>, b: Seq<u64>) -> EvalRes {
    match op {
        BinaryOp::Add => Ok(add_spec(a, b)),
        BinaryOp::Sub => Ok(sub_spec(a, b)),
        BinaryOp::Mul => Ok(mul_spec(a, b)),
        BinaryOp::Div => if b.len() == 0 {
            Err(EvalError::DivisionByZero)
        } else if b.len() > 1 {
            Err(EvalError::NotAConstant)
        } else {
            Ok(scale_spec(a, finv(b[0])))
        },
        BinaryOp::Mod => if b.len() == 0 {
            Err(EvalError::DivisionByZero)
        } else {
            Ok(rem_spec(a, b))
        },
        BinaryOp::Pow => if b.len() > 1 {
            Err(EvalError::NotAConstant)
        } else {
            Ok(pow_spec(a, as_constant(b) as nat))
        },
        BinaryOp::Evl => if b.len() > 1 {
            Err(EvalError::NotAConstant)
        } else {
            Ok(constant(eval_spec(a, as_constant(b))))
        },
        BinaryOp::Eq => Ok(from_bool(a == b)),
        BinaryOp::Ne => Ok(from_bool(a != b)),
    }
}

/// The value of `e`; `term`, when given, names the indeterminate.
pub open spec fn eval_expr(names: Names, e: ExprV, term: Option<Seq<char>>) -> EvalRes
    decreases e,
{
    match e {
        ExprV::Identifier(n) => if term == Some(n) {
            Ok(seq![0u64, 1u64])
        } else if names.contains_key(n) {
            Ok(names[n])
        } else {
            Err(EvalError::UnknownIdentifier(n))
        },
        ExprV::Integer(v) => Ok(constant(v % MODULUS)),
        ExprV::Unary(_, r) => match eval_expr(names, *r, term) {
            Ok(p) => Ok(neg_spec(p)),
            Err(x) => Err(x),
        },
        ExprV::Binary(l, op, r) => match eval_expr(names, *l, term) {
            Ok(a) => match eval_expr(names, *r, term) {
                Ok(b) => apply(op, a, b),
                Err(x) => Err(x),
            },
            Err(x) => Err(x),
        },
    }
}

/// The table after a statement, and the statement's value.
pub open spec fn exec_stmt(names: Names, st: StmtV) -> (Names, EvalRes) {
    match st {
        StmtV::Let(n, e) => match eval_expr(names, e, None) {
            Ok(p) => (names.insert(n, p), Ok(p)),
            Err(x) => (names, Err(x)),
        },
        StmtV::LetPoly(n, t, e) => match eval_expr(names, e, Some(t)) {
            Ok(p) => (names.insert(n, p), Ok(p)),
            Err(x) => (names, Err(x)),
        },
        StmtV::Expr(e) => match eval_expr(names, e, None) {
            Ok(p) => (names.insert(last_value_key(), p), Ok(p)),
            Err(x) => (names, Err(x)),
        },
        StmtV::Assert(e) => match eval_expr(names, e, None) {
            Ok(p) => if p.len() == 0 {
                (names, Err(EvalError::AssertionFailed))
            } else {
                (names, Ok(p))
            },
            Err(x) => (names, Err(x)),
        },
    }
}

/// Runs the statements from index `i` on, stopping at the first error.
pub open spec fn run_from(names: Names, s: Seq<StmtV>, i: int) -> (Names, Result<Seq<Seq<u64>>, EvalError>)
    decreases s.len() - i,
{
    if i < 0 || i >= s.len() {
        (names, Ok(seq![]))
    } else {
        let (n1, r) = exec_stmt(names, s[i]);
        match r {
            Err(x) => (n1, Err(x)),
            Ok(p) => {
                let (n2, rest) = run_from(n1, s, i + 1);
                (
                    n2,
                    match rest {
                        Ok(ps) => Ok(seq![p] + ps),
                        Err(x) => Err(x),
                    },
                )
            },
        }
    }
}

/// Why a source text was not run to its end.
pub enum Failure {
    /// A syntax error at the byte range `(start, len)`, with the text that
    /// says what was expected there.
    Syntax(int, int, Seq<char>),
    Eval(EvalError),
}

/// The table after running a source text, and its statements' values.
pub open spec fn interpret_spec(names: Names, b: Seq<u8>) -> (Names, Result<Seq<Seq<u64>>, Failure>) {
    match source_stmts(b) {
        Err((start, len, help)) => (names, Err(Failure::Syntax(start, len, help))),
        Ok(stmts) => {
            let (n, r) = run_from(names, stmts, 0);
            (
                n,
                match r {
                    Ok(ps) => Ok(ps),
                    Err(x) => Err(Failure::Eval(x)),
                },
            )
        },
    }
}

pub open spec fn polys_view(v: Seq<Poly>) -> Seq<Seq<u64>> {
    v.map_values(|p: Poly| p@)
}

pub open spec fn outcome_view(r: Result<Vec<Poly>, PolentaError>) -> Result<Seq<Seq<u64>>, Failure> {
    match r {
        Ok(v) => Ok(polys_view(v@)),
        Err(PolentaError::ParserError(e)) => Err(Failure::Syntax(e.start as int, e.len as int, e.help@)),
        Err(PolentaError::InterpreterError(e)) => Err(Failure::Eval(e@)),
    }
}

pub open spec fn eval_res_view(r: Result<Poly, InterpreterError>) -> EvalRes {
    match r {
        Ok(p) => Ok(p@),
        Err(e) => Err(e@),
    }
}

pub open spec fn term_view(term: Option<&String>) -> Option<Seq<char>> {
    match term {
        Some(t) => Some(t@),
        None => None,
    }
}

/// The interpreter: a table of names and the statements that fill it.
pub struct Polenta {
    pub symbols: NameTable,
}

impl Default for Polenta {
    fn default() -> (r: Polenta)
        ensures
            r.symbols@ == Map::<Seq<char>, Seq<u64>>::empty(),
            r.inv(),
    {
        Polenta::new()
    }
}

impl Polenta {
    pub open spec fn inv(&self) -> bool {
        self.symbols.inv()
    }

    /// An interpreter with no names bound.
    pub fn new() -> (r: Polenta)
        ensures
            r.symbols@ == Map::<Seq<char>, Seq<u64>>::empty(),
            r.inv(),
    {
        Polenta { symbols: NameTable::new() }
    }

    /// Runs every statement of `input` in order and returns their values.
    /// Stops at the first error; the statements before it keep their
    /// effect on the table, the failing one has none.
    pub fn interpret(&mut self, input: &str) -> (r: Result<Vec<Poly>, PolentaError>)
        requires
            old(self).inv(),
        ensures
            (final(self).symbols@, outcome_view(r)) == interpret_spec(
                old(self).symbols@,
                input.spec_bytes(),
            ),
            final(self).inv(),
    {
        let stmts = match PolentaParser::parse_input(input) {
            Ok(v) => v,
            Err(e) => {
                return Err(PolentaError::ParserError(e));
            },
        };
        let ghost sv = stmts_view(stmts@);
        let ghost names0 = self.symbols@;
        let mut out: Vec<Poly> = Vec::new();
        let mut i: usize = 0;
        let n = stmts.len();
        proof {
            assert(polys_view(out@) =~= Seq::<Seq<u64>>::empty());
            let (nf, rf) = run_from(names0, sv, 0);
            match rf {
                Ok(ps) => assert(Seq::<Seq<u64>>::empty() + ps =~= ps),
                Err(_) => {},
            }
        }
        while i < n
            invariant
                self.inv(),
                n == stmts@.len(),
                sv == stmts_view(stmts@),
                source_stmts(input.spec_bytes()) == Ok::<Seq<StmtV>, crate::parser::SyntaxErr>(sv),
                names0 == old(self).symbols@,
                i <= n,
                ({
                    let (nf, rf) = run_from(names0, sv, 0);
                    let (ni, ri) = run_from(self.symbols@, sv, i as int);
                    nf == ni && rf == match ri {
                        Ok(ps) => Ok(polys_view(out@) + ps),
                        Err(x) => Err(x),
                    }
                }),
            decreases n - i,
        {
            assert(sv[i as int] == stmts@[i as int]@);
            let ghost before = self.symbols@;
            match self.process_statement(&stmts[i]) {
                Ok(p) => {
                    proof {
                        let a = polys_view(out@);
                        assert(polys_view(out@.push(p)) =~= a.push(p@));
                        let (ni, ri) = run_from(self.symbols@, sv, i + 1);
                        match ri {
                            Ok(ps) => assert(a.push(p@) + ps =~= a + (seq![p@] + ps)),
                            Err(_) => {},
                        }
                    }
                    out.push(p);
                },
                Err(e) => {
                    proof {
                        assert(run_from(before, sv, i as int) == (
                            self.symbols@,
                            Err::<Seq<Seq<u64>>, EvalError>(e@),
                        ));
                    }
                    return Err(PolentaError::InterpreterError(e));
                },
            }
            i = i + 1;
        }
        proof {
            assert(polys_view(out@) + Seq::<Seq<u64>>::empty() =~= polys_view(out@));
        }
        Ok(out)
    }

    /// Runs one statement.
    pub fn process_statement(&mut self, stmt: &Stmt) -> (r: Result<Poly, InterpreterError>)
        requires
            old(self).inv(),
        ensures
            (final(self).symbols@, eval_res_view(r)) == exec_stmt(old(self).symbols@, stmt@),
            final(self).inv(),
            r matches Ok(p) ==> p.wf(),
    {
        match stmt {
            Stmt::Let(name, expr) => {
                let p = self.process_expr(expr, None)?;
                self.symbols.insert(name.clone(), p.copy());
                Ok(p)
            },
            Stmt::LetPoly(name, term, expr) => {
                let p = self.process_expr(expr, Some(term))?;
                self.symbols.insert(name.clone(), p.copy());
                Ok(p)
            },
            Stmt::Expr(expr) => {
                let p = self.process_expr(expr, None)?;
                self.symbols.insert(String::from_str("!!"), p.copy());
                Ok(p)
            },
            Stmt::Assert(expr) => {
                let p = self.process_expr(expr, None)?;
                if Self::poly_is_zero(&p) {
                    Err(InterpreterError::AssertionFailed)
                } else {
                    Ok(p)
                }
            },
        }
    }

    /// The polynomial bound to `name`, if any.
    pub fn get(&self, name: &str) -> (r: Option<Poly>)
        requires
            self.inv(),
        ensures
            match r {
                Some(p) => self.symbols@.contains_key(name@) && p@ == self.symbols@[name@],
                None => !self.symbols@.contains_key(name@),
            },
    {
        self.symbols.get(&String::from_str(name))
    }

    /// Evaluates `expr`; `term`, when given, names the indeterminate.
    pub fn process_expr(&self, expr: &Expr, term: Option<&String>) -> (r: Result<Poly, InterpreterError>)
        requires
            self.inv(),
        ensures
            eval_res_view(r) == eval_expr(self.symbols@, expr@, term_view(term)),
            r matches Ok(p) ==> p.wf(),
        decreases expr,
    {
        match expr {
            Expr::Identifier(name) => {
                let is_term = match term {
                    Some(t) => *t == *name,
                    None => false,
                };
                if is_term {
                    Ok(Poly::monomial_x())
                } else {
                    match self.symbols.get(name) {
                        Some(p) => Ok(p),
                        None => Err(InterpreterError::UnknownIdentifier(name.clone())),
                    }
                }
            },
            Expr::Integer(v) => Ok(Poly::constant(*v)),
            Expr::UnaryOp { op: _, rhs } => match self.process_expr(rhs, term) {
                Ok(p) => Ok(poly_neg(&p)),
                Err(x) => Err(x),
            },
            Expr::BinaryOp { lhs, op, rhs } => {
                let a = match self.process_expr(lhs, term) {
                    Ok(p) => p,
                    Err(x) => {
                        return Err(x);
                    },
                };
                let b = match self.process_expr(rhs, term) {
                    Ok(p) => p,
                    Err(x) => {
                        return Err(x);
                    },
                };
                Self::apply_op(*op, &a, &b)
            },
        }
    }

    /// Combines two evaluated operands with a binary operator.
    pub fn apply_op(op: BinaryOp, a: &Poly, b: &Poly) -> (r: Result<Poly, InterpreterError>)
        requires
            a.wf(),
            b.wf(),
        ensures
            eval_res_view(r) == apply(op, a@, b@),
            r matches Ok(p) ==> p.wf(),
            op == BinaryOp::Mod ==> (r matches Ok(p) ==> is_remainder(a@, b@, p@)),
    {
        match op {
            BinaryOp::Add => Ok(poly_add(a, b)),
            BinaryOp::Sub => Ok(poly_sub(a, b)),
            BinaryOp::Mul => Ok(poly_mul(a, b)),
            BinaryOp::Div => {
                if b.coeffs.len() == 0 {
                    Err(InterpreterError::DivisionByZero)
                } else if b.coeffs.len() > 1 {
                    Err(InterpreterError::NotAConstant)
                } else {
                    Ok(poly_div_by_constant(a, b))
                }
            },
            BinaryOp::Mod => {
                if b.coeffs.len() == 0 {
                    Err(InterpreterError::DivisionByZero)
                } else {
                    Ok(poly_rem(a, b))
                }
            },
            BinaryOp::Pow => match Self::poly_as_felt(b) {
                Some(e) => Ok(Self::poly_pow(a, e)),
                None => Err(InterpreterError::NotAConstant),
            },
            BinaryOp::Evl => match Self::poly_as_felt(b) {
                Some(x) => Ok(Self::felt_as_poly(poly_evaluate(a, x))),
                None => Err(InterpreterError::NotAConstant),
            },
            BinaryOp::Eq => Ok(Self::poly_from_bool(a.equals(b))),
            BinaryOp::Ne => Ok(Self::poly_from_bool(!a.equals(b))),
        }
    }

    /// A polynomial of degree zero as a field element; `None` for one of
    /// positive degree.
    pub fn poly_as_felt(p: &Poly) -> (r: Option<u64>)
        requires
            p.wf(),
        ensures
            match r {
                Some(c) => p@.len() <= 1 && c == as_constant(p@) && c < MODULUS,
                None => p@.len() > 1,
            },
    {
        if p.coeffs.len() == 0 {
            Some(0)
        } else if p.coeffs.len() == 1 {
            Some(p.coeffs[0])
        } else {
            None
        }
    }

    /// A field element as a constant polynomial.
    pub fn felt_as_poly(c: u64) -> (r: Poly)
        requires
            c < MODULUS,
        ensures
            r@ == constant(c),
            r.wf(),
    {
        Poly::constant(c)
    }

    /// `p` multiplied by itself `exponent` times, starting from one; the
    /// work grows with the value of the exponent.
    pub fn poly_pow(p: &Poly, exponent: u64) -> (r: Poly)
        requires
            p.wf(),
        ensures
            r@ == pow_spec(p@, exponent as nat),
            r.wf(),
    {
        let mut result = Poly::constant(1);
        let mut i: u64 = 0;
        while i < exponent
            invariant
                p.wf(),
                i <= exponent,
                result@ == pow_spec(p@, i as nat),
                result.wf(),
            decreases exponent - i,
        {
            result = poly_mul(&result, p);
            i = i + 1;
        }
        result
    }

    /// Whether `p` is the zero polynomial.
    pub fn poly_is_zero(p: &Poly) -> (r: bool)
        ensures
            r == (p@.len() == 0),
    {
        p.is_zero()
    }

    /// One for true, zero for false.
    pub fn poly_from_bool(b: bool) -> (r: Poly)
        ensures
            r@ == from_bool(b),
            r.wf(),
    {
        if b {
            Poly::constant(1)
        } else {
            Poly::zero()
        }
    }
}

} // verus!
