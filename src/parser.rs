//! Precedence-climbing parser from tokens to statements.
//!
//! Infix operators, loosest first: `==` `!=`; `+` `-`; `*` `/` `%`; `^`;
//! `@`. The first three tiers associate to the left, `^` and `@` to the
//! right. Prefix `-` binds tighter than every infix operator.
use crate::errors::ParserError;
use crate::grammar::{stmts_view, BinaryOp, Expr, ExprV, Stmt, StmtV, UnaryOp};
use crate::lexer::{lex_spec, tokenize, tokens_view, LexTok, Tok, TokV, Token};
use vstd::prelude::*;
use vstd::string::{StringExecFns, StringSliceAdditionalSpecFns};

verus! {

/// What the parser was looking for where it stopped.
#[derive(Clone, Copy, Debug, PartialEq, Eq, Structural)]
pub enum Expected {
    Expression,
    Identifier,
    Semicolon,
    RParen,
    Assign,
    AssignOrParams,
    /// An operator or the end of the text, after a complete expression.
    End,
}

/// A parse failure: the index of the offending token (the token count for
/// the end of input) and what was expected there.
pub type ParseErr = (int, Expected);

pub type ExprRes = Result<(ExprV, int), ParseErr>;

pub open spec fn kinds(toks: Seq<Token>) -> Seq<TokV> {
    toks.map_values(|t: Token| t.kind@)
}

pub open spec fn infix_op(t: TokV) -> Option<BinaryOp> {
    match t {
        TokV::Plus => Some(BinaryOp::Add),
        TokV::Minus => Some(BinaryOp::Sub),
        TokV::Star => Some(BinaryOp::Mul),
        TokV::Slash => Some(BinaryOp::Div),
        TokV::Percent => Some(BinaryOp::Mod),
        TokV::Caret => Some(BinaryOp::Pow),
        TokV::At => Some(BinaryOp::Evl),
        TokV::EqEq => Some(BinaryOp::Eq),
        TokV::NotEq => Some(BinaryOp::Ne),
        _ => None,
    }
}

/// Binding power of an infix operator; higher binds tighter.
pub open spec fn prec(op: BinaryOp) -> int {
    match op {
        BinaryOp::Eq | BinaryOp::Ne => 1,
        BinaryOp::Add | BinaryOp::Sub => 2,
        BinaryOp::Mul | BinaryOp::Div | BinaryOp::Mod => 3,
        BinaryOp::Pow => 4,
        BinaryOp::Evl => 5,
    }
}

pub open spec fn right_assoc(op: BinaryOp) -> bool {
    op == BinaryOp::Pow || op == BinaryOp::Evl
}

/// The least binding power allowed in the right operand of `op`.
pub open spec fn rhs_min(op: BinaryOp) -> int {
    if right_assoc(op) {
        prec(op)
    } else {
        prec(op) + 1
    }
}

/// An expression at `pos` whose infix operators all bind at least `min`,
/// and the position after it.
pub open spec fn parse_bp(s: Seq<TokV>, pos: int, min: int) -> ExprRes
    decreases s.len() - pos, 2int,
{
    if pos < 0 || pos >= s.len() {
        Err((pos, Expected::Expression))
    } else {
        match parse_unary(s, pos) {
            Ok((lhs, p)) => if pos < p <= s.len() {
                climb(s, lhs, p, min)
            } else {
                Err((p, Expected::Expression))
            },
            Err(e) => Err(e),
        }
    }
}

/// A literal, a name, a parenthesised expression, or `-` before one of these.
pub open spec fn parse_unary(s: Seq<TokV>, pos: int) -> ExprRes
    decreases s.len() - pos, 1int,
{
    if pos < 0 || pos >= s.len() {
        Err((pos, Expected::Expression))
    } else {
        match s[pos] {
            TokV::Int(v) => Ok((ExprV::Integer(v), pos + 1)),
            TokV::Ident(n) => Ok((ExprV::Identifier(n), pos + 1)),
            TokV::Minus => match parse_unary(s, pos + 1) {
                Ok((e, p)) => Ok((ExprV::Unary(UnaryOp::Minus, Box::new(e)), p)),
                Err(x) => Err(x),
            },
            TokV::LParen => match parse_bp(s, pos + 1, 0) {
                Ok((e, p)) => if 0 <= p < s.len() && s[p] is RParen {
                    Ok((e, p + 1))
                } else {
                    Err((p, Expected::RParen))
                },
                Err(x) => Err(x),
            },
            _ => Err((pos, Expected::Expression)),
        }
    }
}

/// Extends `lhs`, which ends before `pos`, with every infix operator that
/// binds at least `min`.
pub open spec fn climb(s: Seq<TokV>, lhs: ExprV, pos: int, min: int) -> ExprRes
    decreases s.len() - pos, 0int,
{
    if 0 <= pos < s.len() && infix_op(s[pos]) is Some && prec(infix_op(s[pos])->0) >= min {
        let op = infix_op(s[pos])->0;
        match parse_bp(s, pos + 1, rhs_min(op)) {
            Ok((rhs, p)) => if pos < p <= s.len() {
                climb(s, ExprV::Binary(Box::new(lhs), op, Box::new(rhs)), p, min)
            } else {
                Err((p, Expected::Expression))
            },
            Err(x) => Err(x),
        }
    } else {
        Ok((lhs, pos))
    }
}

pub open spec fn is_semi(s: Seq<TokV>, p: int) -> bool {
    0 <= p < s.len() && s[p] is Semi
}

pub open spec fn is_tok_ident(s: Seq<TokV>, p: int) -> bool {
    0 <= p < s.len() && s[p] is Ident
}

/// An expression at `pos` followed by `;`.
pub open spec fn expr_then_semi(s: Seq<TokV>, pos: int) -> ExprRes {
    match parse_bp(s, pos, 0) {
        Ok((e, p)) => if is_semi(s, p) {
            Ok((e, p + 1))
        } else {
            Err((p, Expected::Semicolon))
        },
        Err(x) => Err(x),
    }
}

/// One statement at `pos`, and the position after its `;`.
pub open spec fn parse_stmt(s: Seq<TokV>, pos: int) -> Result<(StmtV, int), ParseErr> {
    if 0 <= pos < s.len() && s[pos] is Let {
        if !is_tok_ident(s, pos + 1) {
            Err((pos + 1, Expected::Identifier))
        } else {
            let name = s[pos + 1]->Ident_0;
            if 0 <= pos + 2 < s.len() && s[pos + 2] is Assign {
                match expr_then_semi(s, pos + 3) {
                    Ok((e, p)) => Ok((StmtV::Let(name, e), p)),
                    Err(x) => Err(x),
                }
            } else if 0 <= pos + 2 < s.len() && s[pos + 2] is LParen {
                if !is_tok_ident(s, pos + 3) {
                    Err((pos + 3, Expected::Identifier))
                } else if !(0 <= pos + 4 < s.len() && s[pos + 4] is RParen) {
                    Err((pos + 4, Expected::RParen))
                } else if !(0 <= pos + 5 < s.len() && s[pos + 5] is Assign) {
                    Err((pos + 5, Expected::Assign))
                } else {
                    match expr_then_semi(s, pos + 6) {
                        Ok((e, p)) => Ok((StmtV::LetPoly(name, s[pos + 3]->Ident_0, e), p)),
                        Err(x) => Err(x),
                    }
                }
            } else {
                Err((pos + 2, Expected::AssignOrParams))
            }
        }
    } else if 0 <= pos < s.len() && s[pos] is Assert {
        match parse_bp(s, pos + 1, 0) {
            Ok((e, p)) => if is_semi(s, p) {
                Ok((StmtV::Assert(e), p + 1))
            } else if 0 <= p < s.len() && s[p] is Assign {
                match expr_then_semi(s, p + 1) {
                    Ok((e2, q)) => Ok(
                        (StmtV::Assert(ExprV::Binary(Box::new(e), BinaryOp::Eq, Box::new(e2))), q),
                    ),
                    Err(x) => Err(x),
                }
            } else {
                Err((p, Expected::Semicolon))
            },
            Err(x) => Err(x),
        }
    } else {
        match expr_then_semi(s, pos) {
            Ok((e, p)) => Ok((StmtV::Expr(e), p)),
            Err(x) => Err(x),
        }
    }
}

/// The statements from `pos` to the end.
pub open spec fn parse_program(s: Seq<TokV>, pos: int) -> Result<Seq<StmtV>, ParseErr>
    decreases s.len() - pos,
{
    if pos < 0 || pos >= s.len() {
        Ok(seq![])
    } else {
        match parse_stmt(s, pos) {
            Ok((st, p)) => if pos < p {
                match parse_program(s, p) {
                    Ok(rest) => Ok(seq![st] + rest),
                    Err(x) => Err(x),
                }
            } else {
                Err((p, Expected::Expression))
            },
            Err(x) => Err(x),
        }
    }
}

pub open spec fn expr_res_view(r: Result<(Expr, usize), (usize, Expected)>) -> ExprRes {
    match r {
        Ok((e, p)) => Ok((e@, p as int)),
        Err((q, x)) => Err((q as int, x)),
    }
}

pub open spec fn stmt_res_view(r: Result<(Stmt, usize), (usize, Expected)>) -> Result<
    (StmtV, int),
    ParseErr,
> {
    match r {
        Ok((st, p)) => Ok((st@, p as int)),
        Err((q, x)) => Err((q as int, x)),
    }
}

/// `r` is an error, or ends after `pos` and no later than `len`.
pub open spec fn advances<T>(r: Result<(T, usize), (usize, Expected)>, pos: int, len: int) -> bool {
    match r {
        Ok((_, p)) => pos < p <= len,
        Err(_) => true,
    }
}

fn infix_of(t: &Tok) -> (r: Option<BinaryOp>)
    ensures
        r == infix_op(t@),
{
    match t {
        Tok::Plus => Some(BinaryOp::Add),
        Tok::Minus => Some(BinaryOp::Sub),
        Tok::Star => Some(BinaryOp::Mul),
        Tok::Slash => Some(BinaryOp::Div),
        Tok::Percent => Some(BinaryOp::Mod),
        Tok::Caret => Some(BinaryOp::Pow),
        Tok::At => Some(BinaryOp::Evl),
        Tok::EqEq => Some(BinaryOp::Eq),
        Tok::NotEq => Some(BinaryOp::Ne),
        _ => None,
    }
}

fn precedence(op: BinaryOp) -> (r: u8)
    ensures
        r as int == prec(op),
        r >= 1,
        r <= 5,
{
    match op {
        BinaryOp::Eq | BinaryOp::Ne => 1,
        BinaryOp::Add | BinaryOp::Sub => 2,
        BinaryOp::Mul | BinaryOp::Div | BinaryOp::Mod => 3,
        BinaryOp::Pow => 4,
        BinaryOp::Evl => 5,
    }
}

fn right_min(op: BinaryOp) -> (r: u8)
    ensures
        r as int == rhs_min(op),
{
    let p = precedence(op);
    match op {
        BinaryOp::Pow | BinaryOp::Evl => p,
        _ => p + 1,
    }
}

fn parse_bp_exec(toks: &Vec<Token>, pos: usize, min: u8) -> (r: Result<(Expr, usize), (usize, Expected)>)
    requires
        pos <= toks@.len(),
    ensures
        expr_res_view(r) == parse_bp(kinds(toks@), pos as int, min as int),
        advances(r, pos as int, toks@.len() as int),
    decreases toks@.len() - pos, 2int,
{
    if pos >= toks.len() {
        return Err((pos, Expected::Expression));
    }
    match parse_unary_exec(toks, pos) {
        Ok((lhs, p)) => climb_exec(toks, lhs, p, min),
        Err(x) => Err(x),
    }
}

fn parse_unary_exec(toks: &Vec<Token>, pos: usize) -> (r: Result<(Expr, usize), (usize, Expected)>)
    requires
        pos <= toks@.len(),
    ensures
        expr_res_view(r) == parse_unary(kinds(toks@), pos as int),
        advances(r, pos as int, toks@.len() as int),
    decreases toks@.len() - pos, 1int,
{
    if pos >= toks.len() {
        return Err((pos, Expected::Expression));
    }
    let ghost s = kinds(toks@);
    assert(s[pos as int] == toks@[pos as int].kind@);
    match &toks[pos].kind {
        Tok::Int(v) => Ok((Expr::Integer(*v), pos + 1)),
        Tok::Ident(n) => Ok((Expr::Identifier(n.clone()), pos + 1)),
        Tok::Minus => match parse_unary_exec(toks, pos + 1) {
            Ok((e, p)) => Ok((Expr::UnaryOp { op: UnaryOp::Minus, rhs: Box::new(e) }, p)),
            Err(x) => Err(x),
        },
        Tok::LParen => match parse_bp_exec(toks, pos + 1, 0) {
            Ok((e, p)) => {
                if p < toks.len() && matches!(toks[p].kind, Tok::RParen) {
                    assert(s[p as int] == toks@[p as int].kind@);
                    Ok((e, p + 1))
                } else {
                    proof {
                        if 0 <= p < s.len() {
                            assert(s[p as int] == toks@[p as int].kind@);
                        }
                    }
                    Err((p, Expected::RParen))
                }
            },
            Err(x) => Err(x),
        },
        _ => Err((pos, Expected::Expression)),
    }
}

fn climb_exec(toks: &Vec<Token>, lhs: Expr, pos: usize, min: u8) -> (r: Result<(Expr, usize), (usize, Expected)>)
    requires
        pos <= toks@.len(),
    ensures
        expr_res_view(r) == climb(kinds(toks@), lhs@, pos as int, min as int),
        match r {
            Ok((_, p)) => pos <= p <= toks@.len(),
            Err(_) => true,
        },
    decreases toks@.len() - pos, 0int,
{
    if pos >= toks.len() {
        return Ok((lhs, pos));
    }
    let ghost s = kinds(toks@);
    assert(s[pos as int] == toks@[pos as int].kind@);
    match infix_of(&toks[pos].kind) {
        Some(op) => {
            if precedence(op) >= min {
                match parse_bp_exec(toks, pos + 1, right_min(op)) {
                    Ok((rhs, p)) => climb_exec(
                        toks,
                        Expr::BinaryOp { lhs: Box::new(lhs), op, rhs: Box::new(rhs) },
                        p,
                        min,
                    ),
                    Err(x) => Err(x),
                }
            } else {
                Ok((lhs, pos))
            }
        },
        None => Ok((lhs, pos)),
    }
}

pub open spec fn stmts_prepend(a: Seq<StmtV>, r: Result<Seq<StmtV>, ParseErr>) -> Result<
    Seq<StmtV>,
    ParseErr,
> {
    match r {
        Ok(rest) => Ok(a + rest),
        Err(x) => Err(x),
    }
}

fn is_semi_at(toks: &Vec<Token>, p: usize) -> (r: bool)
    ensures
        r == is_semi(kinds(toks@), p as int),
        r ==> p < toks.len(),
{
    if p < toks.len() {
        assert(kinds(toks@)[p as int] == toks@[p as int].kind@);
        matches!(toks[p].kind, Tok::Semi)
    } else {
        false
    }
}

fn is_assign_at(toks: &Vec<Token>, p: usize) -> (r: bool)
    ensures
        r == (0 <= p < toks@.len() && kinds(toks@)[p as int] is Assign),
{
    if p < toks.len() {
        assert(kinds(toks@)[p as int] == toks@[p as int].kind@);
        matches!(toks[p].kind, Tok::Assign)
    } else {
        false
    }
}

/// The name at `p`, if a name stands there.
fn ident_at(toks: &Vec<Token>, p: usize) -> (r: Option<String>)
    ensures
        match r {
            Some(n) => is_tok_ident(kinds(toks@), p as int) && kinds(toks@)[p as int]->Ident_0
                == n@,
            None => !is_tok_ident(kinds(toks@), p as int),
        },
{
    if p < toks.len() {
        assert(kinds(toks@)[p as int] == toks@[p as int].kind@);
        match &toks[p].kind {
            Tok::Ident(n) => Some(n.clone()),
            _ => None,
        }
    } else {
        None
    }
}

fn expr_then_semi_exec(toks: &Vec<Token>, pos: usize) -> (r: Result<(Expr, usize), (usize, Expected)>)
    requires
        pos <= toks@.len(),
    ensures
        expr_res_view(r) == expr_then_semi(kinds(toks@), pos as int),
        advances(r, pos as int, toks@.len() as int),
{
    match parse_bp_exec(toks, pos, 0) {
        Ok((e, p)) => {
            if is_semi_at(toks, p) {
                Ok((e, p + 1))
            } else {
                Err((p, Expected::Semicolon))
            }
        },
        Err(x) => Err(x),
    }
}

/// Parses a whole token sequence into statements, or gives the index of
/// the offending token (the token count for the end of input) and what was
/// expected there.
pub fn parse_tokens(toks: &Vec<Token>) -> (r: Result<Vec<Stmt>, (usize, Expected)>)
    ensures
        match r {
            Ok(v) => parse_program(kinds(toks@), 0) == Ok::<Seq<StmtV>, ParseErr>(
                stmts_view(v@),
            ),
            Err((i, x)) => parse_program(kinds(toks@), 0) == Err::<Seq<StmtV>, ParseErr>(
                (i as int, x),
            ),
        },
{
    let ghost s = kinds(toks@);
    let mut out: Vec<Stmt> = Vec::new();
    let mut pos: usize = 0;
    proof {
        assert(stmts_view(out@) =~= Seq::<StmtV>::empty());
        match parse_program(s, 0) {
            Ok(rest) => assert(Seq::<StmtV>::empty() + rest =~= rest),
            Err(_) => {},
        }
    }
    while pos < toks.len()
        invariant
            s == kinds(toks@),
            pos <= toks@.len(),
            parse_program(s, 0) == stmts_prepend(stmts_view(out@), parse_program(s, pos as int)),
        decreases toks@.len() - pos,
    {
        match PolentaParser::parse_statement(toks, pos) {
            Ok((st, p)) => {
                proof {
                    let a = stmts_view(out@);
                    assert(stmts_view(out@.push(st)) =~= a.push(st@));
                    match parse_program(s, p as int) {
                        Ok(rest) => assert(a.push(st@) + rest =~= a + (seq![st@] + rest)),
                        Err(_) => {},
                    }
                }
                out.push(st);
                pos = p;
            },
            Err(x) => {
                return Err(x);
            },
        }
    }
    proof {
        assert(stmts_view(out@) + Seq::<StmtV>::empty() =~= stmts_view(out@));
    }
    Ok(out)
}

/// A syntax error as the byte range `(start, len)` of the problem and the
/// text that says what was expected there.
pub type SyntaxErr = (int, int, Seq<char>);

/// The error for token `k` of `toks` (an empty range at the end of the text
/// when `k` is past the last token).
pub open spec fn error_at(b: Seq<u8>, toks: Seq<LexTok>, k: int, x: Expected) -> SyntaxErr {
    if 0 <= k < toks.len() {
        (toks[k].1, toks[k].2 - toks[k].1, expected_text(x))
    } else {
        (b.len() as int, 0, expected_text(x))
    }
}

/// The statements of a source text, or its first problem: the byte that
/// starts no token, or the token at which parsing stopped.
pub open spec fn source_stmts(b: Seq<u8>) -> Result<Seq<StmtV>, SyntaxErr> {
    match lex_spec(b, 0) {
        Err(i) => Err((i, 1, no_token_text())),
        Ok(toks) => match parse_program(toks.map_values(|t: LexTok| t.0), 0) {
            Ok(st) => Ok(st),
            Err((k, x)) => Err(error_at(b, toks, k, x)),
        },
    }
}

/// What a syntax error says was expected.
pub open spec fn expected_text(x: Expected) -> Seq<char> {
    match x {
        Expected::Expression => "expected an expression"@,
        Expected::Identifier => "expected an identifier"@,
        Expected::Semicolon => "expected `;` or an operator"@,
        Expected::RParen => "expected `)` or an operator"@,
        Expected::Assign => "expected `=`"@,
        Expected::AssignOrParams => "expected `=` or `(`"@,
        Expected::End => "expected an operator or the end of the input"@,
    }
}

/// What a syntax error says of a byte that starts no token.
pub open spec fn no_token_text() -> Seq<char> {
    "no token starts here"@
}

fn describe(x: Expected) -> (r: String)
    ensures
        r@ == expected_text(x),
{
    match x {
        Expected::Expression => String::from_str("expected an expression"),
        Expected::Identifier => String::from_str("expected an identifier"),
        Expected::Semicolon => String::from_str("expected `;` or an operator"),
        Expected::RParen => String::from_str("expected `)` or an operator"),
        Expected::Assign => String::from_str("expected `=`"),
        Expected::AssignOrParams => String::from_str("expected `=` or `(`"),
        Expected::End => String::from_str("expected an operator or the end of the input"),
    }
}

/// The single expression that makes up a source text, or its first problem.
pub open spec fn source_expr(b: Seq<u8>) -> Result<ExprV, SyntaxErr> {
    match lex_spec(b, 0) {
        Err(i) => Err((i, 1, no_token_text())),
        Ok(toks) => match parse_bp(toks.map_values(|t: LexTok| t.0), 0, 0) {
            Ok((e, p)) => if p == toks.len() {
                Ok(e)
            } else {
                Err(error_at(b, toks, p, Expected::End))
            },
            Err((q, x)) => Err(error_at(b, toks, q, x)),
        },
    }
}

fn syntax_error(input: &str, toks: &Vec<Token>, k: usize, x: Expected) -> (e: ParserError)
    requires
        forall|j: int| 0 <= j < toks@.len() ==> #[trigger] toks@[j].start < toks@[j].end,
    ensures
        e.src@ == input@,
        e.help@ == expected_text(x),
        k < toks@.len() ==> e.start == toks@[k as int].start && e.len == toks@[k as int].end
            - toks@[k as int].start,
        k >= toks@.len() ==> e.start == input.spec_bytes().len() && e.len == 0,
{
    let (start, len) = if k < toks.len() {
        (toks[k].start, toks[k].end - toks[k].start)
    } else {
        (input.as_bytes().len(), 0)
    };
    ParserError { src: String::from_str(input), start, len, help: describe(x) }
}

/// Parses a source text that holds one expression and nothing else.
pub fn parse_expr(input: &str) -> (r: Result<Expr, ParserError>)
    ensures
        match r {
            Ok(e) => source_expr(input.spec_bytes()) == Ok::<ExprV, SyntaxErr>(e@),
            Err(e) => source_expr(input.spec_bytes()) == Err::<ExprV, SyntaxErr>(
                (e.start as int, e.len as int, e.help@),
            ) && e.src@ == input@,
        },
{
    let toks = match tokenize(input) {
        Ok(t) => t,
        Err(i) => {
            return Err(
                ParserError {
                    src: String::from_str(input),
                    start: i,
                    len: 1,
                    help: String::from_str("no token starts here"),
                },
            );
        },
    };
    let ghost lt = tokens_view(toks@);
    assert(lt.map_values(|t: LexTok| t.0) =~= kinds(toks@));
    match parse_bp_exec(&toks, 0, 0) {
        Ok((e, p)) => {
            if p == toks.len() {
                Ok(e)
            } else {
                Err(syntax_error(input, &toks, p, Expected::End))
            }
        },
        Err((q, x)) => Err(syntax_error(input, &toks, q, x)),
    }
}

/// The parser of the language.
pub struct PolentaParser;

impl PolentaParser {
    /// Parses one statement at token `pos`, giving the position after its `;`.
    pub fn parse_statement(toks: &Vec<Token>, pos: usize) -> (r: Result<(Stmt, usize), (usize, Expected)>)
        requires
            pos < toks.len(),
        ensures
            stmt_res_view(r) == parse_stmt(kinds(toks@), pos as int),
            advances(r, pos as int, toks@.len() as int),
    {
        let ghost s = kinds(toks@);
        assert(s[pos as int] == toks@[pos as int].kind@);
        if matches!(toks[pos].kind, Tok::Let) {
            let name = match ident_at(toks, pos + 1) {
                Some(n) => n,
                None => {
                    return Err((pos + 1, Expected::Identifier));
                },
            };
            if is_assign_at(toks, pos + 2) {
                match expr_then_semi_exec(toks, pos + 3) {
                    Ok((e, p)) => Ok((Stmt::Let(name, e), p)),
                    Err(x) => Err(x),
                }
            } else if pos + 2 < toks.len() && matches!(toks[pos + 2].kind, Tok::LParen) {
                assert(s[pos + 2] == toks@[pos + 2].kind@);
                let term = match ident_at(toks, pos + 3) {
                    Some(t) => t,
                    None => {
                        return Err((pos + 3, Expected::Identifier));
                    },
                };
                if !(pos + 4 < toks.len() && matches!(toks[pos + 4].kind, Tok::RParen)) {
                    proof {
                        if pos + 4 < s.len() {
                            assert(s[pos + 4] == toks@[pos + 4].kind@);
                        }
                    }
                    return Err((pos + 4, Expected::RParen));
                }
                assert(s[pos + 4] == toks@[pos + 4].kind@);
                if !is_assign_at(toks, pos + 5) {
                    return Err((pos + 5, Expected::Assign));
                }
                match expr_then_semi_exec(toks, pos + 6) {
                    Ok((e, p)) => Ok((Stmt::LetPoly(name, term, e), p)),
                    Err(x) => Err(x),
                }
            } else {
                proof {
                    if pos + 2 < s.len() {
                        assert(s[pos + 2] == toks@[pos + 2].kind@);
                    }
                }
                Err((pos + 2, Expected::AssignOrParams))
            }
        } else if matches!(toks[pos].kind, Tok::Assert) {
            match parse_bp_exec(toks, pos + 1, 0) {
                Ok((e, p)) => {
                    if is_semi_at(toks, p) {
                        Ok((Stmt::Assert(e), p + 1))
                    } else if is_assign_at(toks, p) {
                        match expr_then_semi_exec(toks, p + 1) {
                            Ok((e2, q)) => Ok(
                                (
                                    Stmt::Assert(
                                        Expr::BinaryOp {
                                            lhs: Box::new(e),
                                            op: BinaryOp::Eq,
                                            rhs: Box::new(e2),
                                        },
                                    ),
                                    q,
                                ),
                            ),
                            Err(x) => Err(x),
                        }
                    } else {
                        Err((p, Expected::Semicolon))
                    }
                },
                Err(x) => Err(x),
            }
        } else {
            match expr_then_semi_exec(toks, pos) {
                Ok((e, p)) => Ok((Stmt::Expr(e), p)),
                Err(x) => Err(x),
            }
        }
    }


    /// Parses a source text into its statements.
    pub fn parse_input(input: &str) -> (r: Result<Vec<Stmt>, ParserError>)
        ensures
            match r {
                Ok(v) => source_stmts(input.spec_bytes()) == Ok::<Seq<StmtV>, SyntaxErr>(
                    stmts_view(v@),
                ),
                Err(e) => source_stmts(input.spec_bytes()) == Err::<Seq<StmtV>, SyntaxErr>(
                    (e.start as int, e.len as int, e.help@),
                ) && e.src@ == input@,
            },
    {
        let toks = match tokenize(input) {
            Ok(t) => t,
            Err(i) => {
                return Err(
                    ParserError {
                        src: String::from_str(input),
                        start: i,
                        len: 1,
                        help: String::from_str("no token starts here"),
                    },
                );
            },
        };
        let ghost lt = tokens_view(toks@);
        assert(lt.map_values(|t: LexTok| t.0) =~= kinds(toks@));
        match parse_tokens(&toks) {
            Ok(v) => Ok(v),
            Err((k, x)) => Err(syntax_error(input, &toks, k, x)),
        }
    }
}

} // verus!
