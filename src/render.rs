use vstd::prelude::*;
use crate::parser::ParseError;
use crate::term::{DeBruijnTerm, Term, Tree};

verus! {

/// The character of the decimal digit `d`.
pub open spec fn digit_char(d: nat) -> char {
    if d == 0 {
        '0'
    } else if d == 1 {
        '1'
    } else if d == 2 {
        '2'
    } else if d == 3 {
        '3'
    } else if d == 4 {
        '4'
    } else if d == 5 {
        '5'
    } else if d == 6 {
        '6'
    } else if d == 7 {
        '7'
    } else if d == 8 {
        '8'
    } else {
        '9'
    }
}

/// `n` in decimal, without leading zeros.
pub open spec fn decimal(n: nat) -> Seq<char>
    decreases n,
{
    if n < 10 {
        seq![digit_char(n)]
    } else {
        decimal(n / 10) + seq![digit_char(n % 10)]
    }
}

/// The printed form of a nameless term: `λ` and the body, `(f a)`, or the index.
pub open spec fn rendered(t: DeBruijnTerm) -> Seq<char>
    decreases t,
{
    match t {
        DeBruijnTerm::Lam(body) => seq!['\u{3bb}'] + rendered(*body),
        DeBruijnTerm::App(func, argm) => seq!['('] + rendered(*func) + seq![' '] + rendered(*argm)
            + seq![')'],
        DeBruijnTerm::Var(i) => decimal(i as nat),
    }
}

/// The printed form of a named term: `λ`, the name, a space and the body;
/// `(f a)`; or the name.
pub open spec fn shown(t: Tree) -> Seq<char>
    decreases t,
{
    match t {
        Tree::Lam { name, body } => seq!['\u{3bb}'] + name + seq![' '] + shown(*body),
        Tree::App { func, argm } => seq!['('] + shown(*func) + seq![' '] + shown(*argm) + seq![')'],
        Tree::Var { name } => name,
    }
}

/// The message that describes a parse error.
pub open spec fn error_message(e: ParseError) -> Seq<char> {
    match e {
        ParseError::UnexpectedEnd { .. } => "unexpected end of input"@,
        ParseError::MissingClose { .. } => "expected ')' to close an application"@,
        ParseError::ExpectedName { .. } => "expected a name"@,
    }
}

/// Errors of different kinds never share a message.
pub proof fn lemma_messages_distinct(a: ParseError, b: ParseError)
    requires
        error_message(a) == error_message(b),
    ensures
        a is UnexpectedEnd <==> b is UnexpectedEnd,
        a is MissingClose <==> b is MissingClose,
        a is ExpectedName <==> b is ExpectedName,
{
    reveal_strlit("unexpected end of input");
    reveal_strlit("expected ')' to close an application");
    reveal_strlit("expected a name");
    assert("unexpected end of input"@.len() == 23);
    assert("expected ')' to close an application"@.len() == 36);
    assert("expected a name"@.len() == 15);
}

fn digit_text(d: usize) -> (r: &'static str)
    requires
        d < 10,
    ensures
        r@ == seq![digit_char(d as nat)],
{
    proof {
        reveal_strlit("0");
        reveal_strlit("1");
        reveal_strlit("2");
        reveal_strlit("3");
        reveal_strlit("4");
        reveal_strlit("5");
        reveal_strlit("6");
        reveal_strlit("7");
        reveal_strlit("8");
        reveal_strlit("9");
    }
    let r = if d == 0 {
        "0"
    } else if d == 1 {
        "1"
    } else if d == 2 {
        "2"
    } else if d == 3 {
        "3"
    } else if d == 4 {
        "4"
    } else if d == 5 {
        "5"
    } else if d == 6 {
        "6"
    } else if d == 7 {
        "7"
    } else if d == 8 {
        "8"
    } else {
        "9"
    };
    assert(r@ =~= seq![digit_char(d as nat)]);
    r
}

fn write_decimal(n: usize, out: &mut String)
    ensures
        final(out)@ == old(out)@ + decimal(n as nat),
    decreases n,
{
    if n >= 10 {
        write_decimal(n / 10, out);
    }
    out.append(digit_text(n % 10));
    assert(final(out)@ =~= old(out)@ + decimal(n as nat));
}

impl DeBruijnTerm {
    /// Appends the printed form of the term to `out`.
    pub fn write_to(&self, out: &mut String)
        ensures
            final(out)@ == old(out)@ + rendered(*self),
        decreases self,
    {
        proof {
            reveal_strlit("\u{3bb}");
            reveal_strlit("(");
            reveal_strlit(" ");
            reveal_strlit(")");
        }
        match self {
            DeBruijnTerm::Lam(body) => {
                out.append("\u{3bb}");
                body.write_to(out);
            },
            DeBruijnTerm::App(func, argm) => {
                out.append("(");
                func.write_to(out);
                out.append(" ");
                argm.write_to(out);
                out.append(")");
            },
            DeBruijnTerm::Var(i) => write_decimal(*i, out),
        }
        assert(final(out)@ =~= old(out)@ + rendered(*self));
    }

    /// The printed form of the term.
    pub fn to_text(&self) -> (r: String)
        ensures
            r@ == rendered(*self),
    {
        let mut out = String::new();
        self.write_to(&mut out);
        assert(out@ =~= rendered(*self));
        out
    }
}

impl Term {
    /// Appends the printed form of the term to `out`.
    pub fn write_to(&self, out: &mut String)
        ensures
            final(out)@ == old(out)@ + shown(self@),
        decreases self,
    {
        proof {
            reveal_strlit("\u{3bb}");
            reveal_strlit("(");
            reveal_strlit(" ");
            reveal_strlit(")");
        }
        match self {
            Term::Lam { name, body } => {
                out.append("\u{3bb}");
                out.append(name.as_str());
                out.append(" ");
                body.write_to(out);
            },
            Term::App { func, argm } => {
                out.append("(");
                func.write_to(out);
                out.append(" ");
                argm.write_to(out);
                out.append(")");
            },
            Term::Var { name } => out.append(name.as_str()),
        }
        assert(final(out)@ =~= old(out)@ + shown(self@));
    }

    /// The printed form of the term.
    pub fn to_text(&self) -> (r: String)
        ensures
            r@ == shown(self@),
    {
        let mut out = String::new();
        self.write_to(&mut out);
        assert(out@ =~= shown(self@));
        out
    }
}

impl ParseError {
    /// A human-readable description of the error.
    pub fn message(&self) -> (r: String)
        ensures
            r@ == error_message(*self),
    {
        match self {
            ParseError::UnexpectedEnd { .. } => "unexpected end of input".to_owned(),
            ParseError::MissingClose { .. } => "expected ')' to close an application".to_owned(),
            ParseError::ExpectedName { .. } => "expected a name".to_owned(),
        }
    }
}

} // verus!
