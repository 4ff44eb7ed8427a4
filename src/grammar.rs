//! The syntax tree of the language, and its mathematical view.
use vstd::prelude::*;

verus! {

/// Binary operators.
#[derive(Clone, Copy, Debug, PartialEq, Eq, Structural)]
pub enum BinaryOp {
    Add,
    Sub,
    Mul,
    Div,
    Mod,
    Pow,
    Eq,
    Ne,
    Evl,
}

/// Unary operators.
#[derive(Clone, Copy, Debug, PartialEq, Eq, Structural)]
pub enum UnaryOp {
    Minus,
}

/// Expressions.
#[derive(Debug)]
#[allow(inconsistent_fields)]
pub enum Expr {
    Identifier(String),
    /// An integer literal, reduced modulo the characteristic.
    Integer(u64),
    UnaryOp { op: UnaryOp, rhs: Box<Expr> },
    BinaryOp { lhs: Box<Expr>, op: BinaryOp, rhs: Box<Expr> },
}

/// Statements.
#[derive(Debug)]
pub enum Stmt {
    Expr(Expr),
    Let(String, Expr),
    LetPoly(String, String, Expr),
    Assert(Expr),
}

/// An expression with its names as character sequences.
pub enum ExprV {
    Identifier(Seq<char>),
    Integer(u64),
    Unary(UnaryOp, Box<ExprV>),
    Binary(Box<ExprV>, BinaryOp, Box<ExprV>),
}

/// A statement with its names as character sequences.
pub enum StmtV {
    Expr(ExprV),
    Let(Seq<char>, ExprV),
    LetPoly(Seq<char>, Seq<char>, ExprV),
    Assert(ExprV),
}

impl View for Expr {
    type V = ExprV;

    open spec fn view(&self) -> ExprV
        decreases self,
    {
        match self {
            Expr::Identifier(s) => ExprV::Identifier(s@),
            Expr::Integer(v) => ExprV::Integer(*v),
            Expr::UnaryOp { op, rhs } => ExprV::Unary(*op, Box::new((**rhs).view())),
            Expr::BinaryOp { lhs, op, rhs } => ExprV::Binary(
                Box::new((**lhs).view()),
                *op,
                Box::new((**rhs).view()),
            ),
        }
    }
}

impl View for Stmt {
    type V = StmtV;

    open spec fn view(&self) -> StmtV {
        match self {
            Stmt::Expr(e) => StmtV::Expr(e@),
            Stmt::Let(n, e) => StmtV::Let(n@, e@),
            Stmt::LetPoly(n, t, e) => StmtV::LetPoly(n@, t@, e@),
            Stmt::Assert(e) => StmtV::Assert(e@),
        }
    }
}

/// The views of a sequence of statements.
pub open spec fn stmts_view(s: Seq<Stmt>) -> Seq<StmtV> {
    s.map_values(|st: Stmt| st@)
}

} // verus!
