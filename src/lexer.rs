//! Splits source text into tokens, each with its byte span.
use crate::poly::MODULUS;
use vstd::arithmetic::div_mod::{lemma_add_mod_noop, lemma_mul_mod_noop_left};
use vstd::prelude::*;
use vstd::string::{StringExecFns, StringSliceAdditionalSpecFns};

verus! {

/// The kind of a token, with the payload of literals and names.
#[derive(Debug)]
pub enum Tok {
    /// An integer literal, reduced modulo the characteristic.
    Int(u64),
    Ident(String),
    Let,
    Assert,
    LParen,
    RParen,
    Semi,
    Assign,
    Plus,
    Minus,
    Star,
    Slash,
    Percent,
    Caret,
    At,
    EqEq,
    NotEq,
}

/// A token kind with its name as a character sequence.
pub enum TokV {
    Int(u64),
    Ident(Seq<char>),
    Let,
    Assert,
    LParen,
    RParen,
    Semi,
    Assign,
    Plus,
    Minus,
    Star,
    Slash,
    Percent,
    Caret,
    At,
    EqEq,
    NotEq,
}

impl View for Tok {
    type V = TokV;

    open spec fn view(&self) -> TokV {
        match self {
            Tok::Int(v) => TokV::Int(*v),
            Tok::Ident(s) => TokV::Ident(s@),
            Tok::Let => TokV::Let,
            Tok::Assert => TokV::Assert,
            Tok::LParen => TokV::LParen,
            Tok::RParen => TokV::RParen,
            Tok::Semi => TokV::Semi,
            Tok::Assign => TokV::Assign,
            Tok::Plus => TokV::Plus,
            Tok::Minus => TokV::Minus,
            Tok::Star => TokV::Star,
            Tok::Slash => TokV::Slash,
            Tok::Percent => TokV::Percent,
            Tok::Caret => TokV::Caret,
            Tok::At => TokV::At,
            Tok::EqEq => TokV::EqEq,
            Tok::NotEq => TokV::NotEq,
        }
    }
}

/// A token and the byte range `start..end` it was read from.
#[derive(Debug)]
pub struct Token {
    pub kind: Tok,
    pub start: usize,
    pub end: usize,
}

/// A lexed token: its kind, start and end.
pub type LexTok = (TokV, int, int);

pub open spec fn tokens_view(s: Seq<Token>) -> Seq<LexTok> {
    s.map_values(|t: Token| (t.kind@, t.start as int, t.end as int))
}

pub open spec fn is_space(c: u8) -> bool {
    c == 32 || c == 9 || c == 10 || c == 13
}

pub open spec fn is_digit(c: u8) -> bool {
    48 <= c <= 57
}

pub open spec fn is_ident_start(c: u8) -> bool {
    (65 <= c <= 90) || (97 <= c <= 122) || c == 95
}

pub open spec fn is_ident_char(c: u8) -> bool {
    is_ident_start(c) || is_digit(c)
}

/// The bytes `b[i..j]` read as characters.
pub open spec fn chars_of(b: Seq<u8>, i: int, j: int) -> Seq<char> {
    b.subrange(i, j).map_values(|c: u8| c as char)
}

/// A word is a keyword or a name.
pub open spec fn word_tok(w: Seq<char>) -> TokV {
    if w == seq!['l', 'e', 't'] {
        TokV::Let
    } else if w == seq!['a', 's', 's', 'e', 'r', 't'] {
        TokV::Assert
    } else {
        TokV::Ident(w)
    }
}

/// The tokens made of one byte, other than `=`.
pub open spec fn single_tok(c: u8) -> Option<TokV> {
    if c == 40 {
        Some(TokV::LParen)
    } else if c == 41 {
        Some(TokV::RParen)
    } else if c == 59 {
        Some(TokV::Semi)
    } else if c == 43 {
        Some(TokV::Plus)
    } else if c == 45 {
        Some(TokV::Minus)
    } else if c == 42 {
        Some(TokV::Star)
    } else if c == 47 {
        Some(TokV::Slash)
    } else if c == 37 {
        Some(TokV::Percent)
    } else if c == 94 {
        Some(TokV::Caret)
    } else if c == 64 {
        Some(TokV::At)
    } else {
        None
    }
}

pub open spec fn cons(t: LexTok, r: Result<Seq<LexTok>, int>) -> Result<Seq<LexTok>, int> {
    match r {
        Ok(s) => Ok(seq![t] + s),
        Err(e) => Err(e),
    }
}

pub open spec fn prepend(a: Seq<LexTok>, r: Result<Seq<LexTok>, int>) -> Result<Seq<LexTok>, int> {
    match r {
        Ok(s) => Ok(a + s),
        Err(e) => Err(e),
    }
}

/// The tokens of `b[i..]`, or the offset of the first byte that starts no
/// token. Spaces, tabs and line breaks separate tokens; `//` starts a
/// comment that runs to the end of the line.
pub open spec fn lex_spec(b: Seq<u8>, i: int) -> Result<Seq<LexTok>, int>
    decreases b.len() - i, 0int,
{
    if i < 0 || i >= b.len() {
        Ok(seq![])
    } else {
        let c = b[i];
        if is_space(c) {
            lex_spec(b, i + 1)
        } else if c == 47 && i + 1 < b.len() && b[i + 1] == 47 {
            lex_comment(b, i + 2)
        } else if is_digit(c) {
            lex_number(b, i, i + 1, c - 48)
        } else if is_ident_start(c) {
            lex_word(b, i, i + 1)
        } else if c == 61 {
            if i + 1 < b.len() && b[i + 1] == 61 {
                cons((TokV::EqEq, i, i + 2), lex_spec(b, i + 2))
            } else {
                cons((TokV::Assign, i, i + 1), lex_spec(b, i + 1))
            }
        } else if c == 33 {
            if i + 1 < b.len() && b[i + 1] == 61 {
                cons((TokV::NotEq, i, i + 2), lex_spec(b, i + 2))
            } else {
                Err(i)
            }
        } else {
            match single_tok(c) {
                Some(t) => cons((t, i, i + 1), lex_spec(b, i + 1)),
                None => Err(i),
            }
        }
    }
}

/// Inside a comment at `i`.
pub open spec fn lex_comment(b: Seq<u8>, i: int) -> Result<Seq<LexTok>, int>
    decreases b.len() - i, 1int,
{
    if i < 0 || i >= b.len() {
        Ok(seq![])
    } else if b[i] == 10 {
        lex_spec(b, i + 1)
    } else {
        lex_comment(b, i + 1)
    }
}

/// Inside an integer literal begun at `start`, whose digits so far have
/// the value `acc`; the token holds the value reduced modulo the
/// characteristic.
pub open spec fn lex_number(b: Seq<u8>, start: int, i: int, acc: int) -> Result<Seq<LexTok>, int>
    decreases b.len() - i, 1int,
{
    if 0 <= i < b.len() && is_digit(b[i]) {
        lex_number(b, start, i + 1, acc * 10 + (b[i] - 48))
    } else {
        cons((TokV::Int((acc % (MODULUS as int)) as u64), start, i), lex_spec(b, i))
    }
}

/// Inside a word begun at `start`.
pub open spec fn lex_word(b: Seq<u8>, start: int, i: int) -> Result<Seq<LexTok>, int>
    decreases b.len() - i, 1int,
{
    if 0 <= i < b.len() && is_ident_char(b[i]) {
        lex_word(b, start, i + 1)
    } else {
        cons((word_tok(chars_of(b, start, i)), start, i), lex_spec(b, i))
    }
}

/// Relies on `String::push`: the character is appended.
#[verifier::external_body]
pub(crate) fn push_char(s: &mut String, c: char)
    ensures
        final(s)@ == old(s)@.push(c),
{
    s.push(c)
}

proof fn lemma_push_token(acc: Seq<Token>, t: Token, r: Result<Seq<LexTok>, int>)
    ensures
        prepend(tokens_view(acc.push(t)), r) == prepend(
            tokens_view(acc),
            cons((t.kind@, t.start as int, t.end as int), r),
        ),
{
    let x = (t.kind@, t.start as int, t.end as int);
    assert(tokens_view(acc.push(t)) =~= tokens_view(acc).push(x));
    match r {
        Ok(s) => {
            assert(tokens_view(acc).push(x) + s =~= tokens_view(acc) + (seq![x] + s));
        },
        Err(_) => {},
    }
}

fn single(c: u8) -> (r: Option<Tok>)
    ensures
        match r {
            Some(t) => single_tok(c) == Some(t@),
            None => single_tok(c) is None,
        },
{
    if c == 40 {
        Some(Tok::LParen)
    } else if c == 41 {
        Some(Tok::RParen)
    } else if c == 59 {
        Some(Tok::Semi)
    } else if c == 43 {
        Some(Tok::Plus)
    } else if c == 45 {
        Some(Tok::Minus)
    } else if c == 42 {
        Some(Tok::Star)
    } else if c == 47 {
        Some(Tok::Slash)
    } else if c == 37 {
        Some(Tok::Percent)
    } else if c == 94 {
        Some(Tok::Caret)
    } else if c == 64 {
        Some(Tok::At)
    } else {
        None
    }
}

fn is_ident_byte(c: u8) -> (r: bool)
    ensures
        r == is_ident_char(c),
{
    (65 <= c && c <= 90) || (97 <= c && c <= 122) || c == 95 || (48 <= c && c <= 57)
}

/// The keyword or name spelled by `b[start..end]`.
fn word(b: &[u8], start: usize, end: usize) -> (r: Tok)
    requires
        start <= end <= b@.len(),
    ensures
        r@ == word_tok(chars_of(b@, start as int, end as int)),
{
    let mut name = String::new();
    let mut k: usize = start;
    while k < end
        invariant
            start <= k <= end <= b@.len(),
            name@ == chars_of(b@, start as int, k as int),
        decreases end - k,
    {
        push_char(&mut name, b[k] as char);
        assert(chars_of(b@, start as int, k + 1) =~= chars_of(b@, start as int, k as int).push(
            b@[k as int] as char,
        ));
        k = k + 1;
    }
    let kw_let = String::from_str("let");
    let kw_assert = String::from_str("assert");
    proof {
        reveal_strlit("let");
        reveal_strlit("assert");
    }
    if name == kw_let {
        assert(kw_let@ =~= seq!['l', 'e', 't']);
        Tok::Let
    } else if name == kw_assert {
        assert(kw_assert@ =~= seq!['a', 's', 's', 'e', 'r', 't']);
        Tok::Assert
    } else {
        assert(kw_let@ =~= seq!['l', 'e', 't']);
        assert(kw_assert@ =~= seq!['a', 's', 's', 'e', 'r', 't']);
        Tok::Ident(name)
    }
}

/// Splits `input` into tokens, or gives the byte offset at which no token
/// can start.
pub fn tokenize(input: &str) -> (r: Result<Vec<Token>, usize>)
    ensures
        match r {
            Ok(t) => lex_spec(input.spec_bytes(), 0) == Ok::<Seq<LexTok>, int>(tokens_view(t@))
                && forall|k: int| 0 <= k < t@.len() ==> #[trigger] t@[k].start < t@[k].end,
            Err(p) => lex_spec(input.spec_bytes(), 0) == Err::<Seq<LexTok>, int>(p as int),
        },
{
    let b = input.as_bytes();
    let n = b.len();
    let mut toks: Vec<Token> = Vec::new();
    let mut i: usize = 0;
    assert(tokens_view(toks@) =~= Seq::<LexTok>::empty());
    assert(prepend(Seq::<LexTok>::empty(), lex_spec(b@, 0)) == lex_spec(b@, 0)) by {
        match lex_spec(b@, 0) {
            Ok(s) => assert(Seq::<LexTok>::empty() + s =~= s),
            Err(_) => {},
        }
    }
    while i < n
        invariant
            b@ == input.spec_bytes(),
            n == b@.len(),
            i <= n,
            lex_spec(b@, 0) == prepend(tokens_view(toks@), lex_spec(b@, i as int)),
            forall|k: int| 0 <= k < toks@.len() ==> #[trigger] toks@[k].start < toks@[k].end,
        decreases n - i,
    {
        let c = b[i];
        if c == 32 || c == 9 || c == 10 || c == 13 {
            i = i + 1;
        } else if c == 47 && i + 1 < n && b[i + 1] == 47 {
            let mut j: usize = i + 2;
            while j < n && b[j] != 10
                invariant
                    i + 2 <= j <= n,
                    n == b@.len(),
                    lex_comment(b@, j as int) == lex_comment(b@, i + 2),
                decreases n - j,
            {
                j = j + 1;
            }
            if j < n {
                i = j + 1;
            } else {
                i = n;
            }
        } else if 48 <= c && c <= 57 {
            let start = i;
            let mut j: usize = i + 1;
            let mut v: u64 = (c - 48) as u64;
            let ghost mut g: int = (c - 48) as int;
            while j < n && 48 <= b[j] && b[j] <= 57
                invariant
                    start < j <= n,
                    n == b@.len(),
                    lex_number(b@, start as int, j as int, g) == lex_spec(b@, start as int),
                    v as int == g % (MODULUS as int),
                decreases n - j,
            {
                let d = (b[j] - 48) as u64;
                proof {
                    let m = MODULUS as int;
                    lemma_mul_mod_noop_left(g, 10, m);
                    lemma_add_mod_noop(g * 10, d as int, m);
                    lemma_add_mod_noop(v * 10, d as int, m);
                    g = g * 10 + d as int;
                }
                v = ((v as u128 * 10 + d as u128) % (MODULUS as u128)) as u64;
                j = j + 1;
            }
            let t = Token { kind: Tok::Int(v), start, end: j };
            proof {
                lemma_push_token(toks@, t, lex_spec(b@, j as int));
            }
            toks.push(t);
            i = j;
        } else if (65 <= c && c <= 90) || (97 <= c && c <= 122) || c == 95 {
            let start = i;
            let mut j: usize = i + 1;
            while j < n && is_ident_byte(b[j])
                invariant
                    start < j <= n,
                    n == b@.len(),
                    lex_word(b@, start as int, j as int) == lex_spec(b@, start as int),
                decreases n - j,
            {
                j = j + 1;
            }
            let t = Token { kind: word(b, start, j), start, end: j };
            proof {
                lemma_push_token(toks@, t, lex_spec(b@, j as int));
            }
            toks.push(t);
            i = j;
        } else if c == 61 {
            let t = if i + 1 < n && b[i + 1] == 61 {
                Token { kind: Tok::EqEq, start: i, end: i + 2 }
            } else {
                Token { kind: Tok::Assign, start: i, end: i + 1 }
            };
            proof {
                lemma_push_token(toks@, t, lex_spec(b@, t.end as int));
            }
            i = t.end;
            toks.push(t);
        } else if c == 33 {
            if i + 1 < n && b[i + 1] == 61 {
                let t = Token { kind: Tok::NotEq, start: i, end: i + 2 };
                proof {
                    lemma_push_token(toks@, t, lex_spec(b@, i + 2));
                }
                toks.push(t);
                i = i + 2;
            } else {
                return Err(i);
            }
        } else {
            match single(c) {
                Some(k) => {
                    let t = Token { kind: k, start: i, end: i + 1 };
                    proof {
                        lemma_push_token(toks@, t, lex_spec(b@, i + 1));
                    }
                    toks.push(t);
                    i = i + 1;
                },
                None => {
                    return Err(i);
                },
            }
        }
    }
    proof {
        match lex_spec(b@, i as int) {
            Ok(s) => assert(tokens_view(toks@) + s =~= tokens_view(toks@)),
            Err(_) => {},
        }
    }
    Ok(toks)
}

} // verus!
