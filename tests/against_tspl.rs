use lambda_debruijn::parser::TermParser;
use lambda_debruijn::term::Term;
use TSPL::Parser;

struct Reference<'i> {
    input: &'i str,
    index: usize,
}

impl<'i> Parser<'i> for Reference<'i> {
    fn input(&mut self) -> &'i str {
        self.input
    }

    fn index(&mut self) -> &mut usize {
        &mut self.index
    }
}

impl<'i> Reference<'i> {
    fn term(&mut self) -> Result<Term, TSPL::ParseError> {
        self.skip_trivia();
        match self.peek_one() {
            Some('λ') => {
                self.consume("λ")?;
                let name = self.parse_name()?;
                let body = Box::new(self.term()?);
                Ok(Term::Lam { name, body })
            }
            Some('(') => {
                self.consume("(")?;
                let func = Box::new(self.term()?);
                let argm = Box::new(self.term()?);
                self.consume(")")?;
                Ok(Term::App { func, argm })
            }
            _ => {
                let name = self.parse_name()?;
                Ok(Term::Var { name })
            }
        }
    }
}

fn both(source: &str) -> (Option<String>, Option<String>) {
    let ours = TermParser::new(source).parse().ok().map(|t| t.to_text());
    let mut reference = Reference { input: source, index: 0 };
    let theirs = reference.term().ok().map(|t| t.to_text());
    (ours, theirs)
}

#[test]
fn accepted_terms_agree_with_tspl() {
    for source in [
        "λx x",
        "λx λy λz ((x z) (y z))",
        "(λx x y)",
        "  λfoo.bar  (foo.bar a-b/c$d)",
        "// leading comment\nλx // trailing\n (x x)",
        "λ_ _",
        "λx x y",
    ] {
        let (ours, theirs) = both(source);
        assert!(ours.is_some(), "{}", source);
        assert_eq!(ours, theirs, "{}", source);
    }
}

#[test]
fn rejected_terms_agree_with_tspl() {
    for source in ["", "λ", "λ(x)", "(a b", "(a b c)", ")", "λx", "(λx x", "#"] {
        let (ours, theirs) = both(source);
        assert_eq!(ours, None, "{}", source);
        assert_eq!(theirs, None, "{}", source);
    }
}
