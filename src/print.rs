//! Rendering polynomials as text, highest degree first.
use crate::lexer::push_char;
use crate::poly::Poly;
use crate::program::Polenta;
use vstd::prelude::*;
use vstd::string::StringExecFns;

verus! {

pub open spec fn digit_char(d: nat) -> char {
    (48 + d) as char
}

/// The decimal digits of `n`.
pub open spec fn decimal(n: nat) -> Seq<char>
    decreases n,
{
    if n < 10 {
        seq![digit_char(n)]
    } else {
        decimal(n / 10).push(digit_char(n % 10))
    }
}

/// The text of the term `c * x^i`: a bare coefficient at degree zero, `x`
/// for the power one, and the coefficient left out when it is one.
pub open spec fn term_text(c: u64, i: nat) -> Seq<char> {
    if i == 0 {
        decimal(c as nat)
    } else if i == 1 {
        if c == 1 {
            "x"@
        } else {
            decimal(c as nat) + "*x"@
        }
    } else if c == 1 {
        "x^"@ + decimal(i)
    } else {
        decimal(c as nat) + "*x^"@ + decimal(i)
    }
}

/// The texts of the nonzero terms among the first `n` coefficients,
/// highest degree first.
pub open spec fn terms(s: Seq<u64>, n: nat) -> Seq<Seq<char>>
    decreases n,
{
    if n == 0 {
        seq![]
    } else if s[n - 1] == 0 {
        terms(s, (n - 1) as nat)
    } else {
        seq![term_text(s[n - 1], (n - 1) as nat)] + terms(s, (n - 1) as nat)
    }
}

/// The texts joined by `" + "`.
pub open spec fn join(ts: Seq<Seq<char>>) -> Seq<char>
    decreases ts.len(),
{
    if ts.len() == 0 {
        seq![]
    } else if ts.len() == 1 {
        ts[0]
    } else {
        join(ts.drop_last()) + " + "@ + ts.last()
    }
}

/// The text of a polynomial; `"0"` when no term is nonzero.
pub open spec fn print_spec(s: Seq<u64>) -> Seq<char> {
    if terms(s, s.len()).len() == 0 {
        "0"@
    } else {
        join(terms(s, s.len()))
    }
}

fn write_decimal(out: &mut String, n: u64)
    ensures
        final(out)@ == old(out)@ + decimal(n as nat),
    decreases n,
{
    if n >= 10 {
        write_decimal(out, n / 10);
    }
    let d = (n % 10) as u8;
    push_char(out, (48u8 + d) as char);
    proof {
        if n < 10 {
            assert(old(out)@.push(digit_char(n as nat)) =~= old(out)@ + seq![digit_char(n as nat)]);
        } else {
            assert(old(out)@ + decimal((n / 10) as nat) + seq![digit_char((n % 10) as nat)] =~= old(
                out,
            )@ + decimal(n as nat));
        }
    }
}

fn write_term(out: &mut String, c: u64, i: usize)
    ensures
        final(out)@ == old(out)@ + term_text(c, i as nat),
{
    let ghost o = old(out)@;
    if i == 0 {
        write_decimal(out, c);
    } else if i == 1 {
        if c == 1 {
            out.append("x");
        } else {
            write_decimal(out, c);
            out.append("*x");
            assert(o + decimal(c as nat) + "*x"@ =~= o + (decimal(c as nat) + "*x"@));
        }
    } else if c == 1 {
        out.append("x^");
        write_decimal(out, i as u64);
        assert(o + "x^"@ + decimal(i as nat) =~= o + ("x^"@ + decimal(i as nat)));
    } else {
        write_decimal(out, c);
        out.append("*x^");
        write_decimal(out, i as u64);
        assert(o + decimal(c as nat) + "*x^"@ + decimal(i as nat) =~= o + (decimal(c as nat)
            + "*x^"@ + decimal(i as nat)));
    }
}

impl Polenta {
    /// Renders `p` as its nonzero terms, highest degree first, joined by
    /// `" + "`; the zero polynomial renders as `"0"`.
    pub fn poly_print(p: &Poly) -> (r: String)
        ensures
            r@ == print_spec(p@),
    {
        let s = &p.coeffs;
        let mut out = String::new();
        let mut k: usize = s.len();
        let mut any = false;
        let ghost mut done: Seq<Seq<char>> = seq![];
        while k > 0
            invariant
                k <= s@.len(),
                s@ == p@,
                done + terms(p@, k as nat) == terms(p@, s@.len() as nat),
                out@ == join(done),
                any == (done.len() > 0),
            decreases k,
        {
            let c = s[k - 1];
            if c != 0 {
                let ghost t = term_text(c, (k - 1) as nat);
                if any {
                    out.append(" + ");
                }
                write_term(&mut out, c, k - 1);
                any = true;
                proof {
                    assert(done.push(t).drop_last() =~= done);
                    assert(done + terms(p@, k as nat) =~= done.push(t) + terms(p@, (k - 1) as nat));
                    done = done.push(t);
                }
            }
            k = k - 1;
        }
        proof {
            assert(done + Seq::<Seq<char>>::empty() =~= done);
        }
        if !any {
            String::from_str("0")
        } else {
            out
        }
    }
}

} // verus!
