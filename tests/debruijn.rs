use lambda_debruijn::convert::to_de_bruijn;
use lambda_debruijn::parser::{ParseError, TermParser};
use lambda_debruijn::term::{DeBruijnTerm, Term};

fn parse_and_convert(input: &str) -> String {
    let mut parser = TermParser::new(input);
    let term = parser.parse().unwrap();
    let de_bruijn = to_de_bruijn(&term, &[]);
    de_bruijn.to_text()
}

fn parse_convert_reduce(input: &str) -> String {
    let mut parser = TermParser::new(input);
    let term = parser.parse().unwrap();
    let de_bruijn = to_de_bruijn(&term, &[]);
    let reduced = de_bruijn.beta_reduce();
    reduced.to_text()
}

fn var(i: usize) -> DeBruijnTerm {
    DeBruijnTerm::Var(i)
}

fn lam(body: DeBruijnTerm) -> DeBruijnTerm {
    DeBruijnTerm::Lam(Box::new(body))
}

fn app(func: DeBruijnTerm, argm: DeBruijnTerm) -> DeBruijnTerm {
    DeBruijnTerm::App(Box::new(func), Box::new(argm))
}

#[test]
fn test_de_bruijn_conversion() {
    assert_eq!(parse_and_convert("λx x"), "λ0");
    assert_eq!(parse_and_convert("λx λy x"), "λλ1");
    assert_eq!(parse_and_convert("λx λy y"), "λλ0");
    assert_eq!(parse_and_convert("λx λy λz (x (y z))"), "λλλ(2 (1 0))");
    assert_eq!(parse_and_convert("λf λx (f (f x))"), "λλ(1 (1 0))");
    assert_eq!(parse_and_convert("λx λy λz ((x z) (y z))"), "λλλ((2 0) (1 0))");
    assert_eq!(parse_and_convert("λf λg λx (f (g x))"), "λλλ(2 (1 0))");
    assert_eq!(parse_and_convert("λx λy λz λw ((x y) (z w))"), "λλλλ((3 2) (1 0))");
    assert_eq!(parse_and_convert("λx z"), "λ1");
    assert_eq!(parse_and_convert("λx λy (z x)"), "λλ(2 1)");
}

#[test]
fn test_beta_reduction() {
    // `y` is free at the top level, so it converts to index 0; substituting it
    // for the bound `x` leaves that index as it is.
    assert_eq!(parse_and_convert("(λx x y)"), "(λ0 0)");
    assert_eq!(parse_convert_reduce("(λx x y)"), "0");
}

#[test]
fn shadowed_name_resolves_to_innermost_binder() {
    assert_eq!(parse_and_convert("λx λx x"), "λλ0");
    assert_eq!(parse_and_convert("λx λy λx (x y)"), "λλλ(0 1)");
}

#[test]
fn closed_terms_use_bound_indices_only() {
    assert_eq!(parse_and_convert("λa λb λc (c (b a))"), "λλλ(0 (1 2))");
    assert_eq!(parse_and_convert("(λx x λy y)"), "(λ0 λ0)");
}

#[test]
fn free_names_take_the_context_length() {
    let term = TermParser::new("(a b)").parse().unwrap();
    let context = vec!["b".to_string(), "c".to_string(), "d".to_string()];
    assert_eq!(to_de_bruijn(&term, &context).to_text(), "(3 0)");
}

#[test]
fn large_indices_print_in_decimal() {
    let term = TermParser::new("x").parse().unwrap();
    let context: Vec<String> = (0..12).map(|i| format!("n{}", i)).collect();
    assert_eq!(to_de_bruijn(&term, &context).to_text(), "12");
    assert_eq!(var(305).to_text(), "305");
}

#[test]
fn substitute_into_variables() {
    let r = app(var(4), lam(var(0)));
    assert_eq!(var(0).substitute(0, &r).to_text(), "(4 λ0)");
    assert_eq!(var(1).substitute(0, &r).to_text(), "0");
    assert_eq!(var(7).substitute(0, &r).to_text(), "6");
    assert_eq!(var(2).substitute(5, &r).to_text(), "2");
}

#[test]
fn substitute_under_abstraction_shifts_replacement() {
    let body = lam(app(var(1), var(0)));
    let r = var(3);
    assert_eq!(body.substitute(0, &r).to_text(), "λ(4 0)");
}

#[test]
fn shift_by_zero_changes_nothing() {
    let t = lam(app(var(0), app(var(1), lam(var(5)))));
    assert_eq!(t.shift(0).to_text(), t.to_text());
}

#[test]
fn shift_moves_only_free_indices() {
    let t = lam(app(var(0), var(2)));
    assert_eq!(t.shift(3).to_text(), "λ(0 5)");
    assert_eq!(t.shift(-2).to_text(), "λ(0 0)");
    assert_eq!(t.shift_above(1, 2).to_text(), "λ(0 2)");
}

#[test]
fn reduction_reaches_normal_form() {
    assert_eq!(parse_convert_reduce("(λx λy x z)"), "λ1");
    assert_eq!(parse_convert_reduce("(λx λy y z)"), "λ0");
    assert_eq!(parse_convert_reduce("(λf λx (f (f x)) λy y)"), "λ0");
    assert_eq!(parse_convert_reduce("λx λy (x y)"), "λλ(1 0)");
}

#[test]
fn reducing_twice_gives_the_same_term() {
    for source in ["(λf λx (f (f x)) λy y)", "(λx λy x z)", "λa (a (λb b a))"] {
        let term = TermParser::new(source).parse().unwrap();
        let once = to_de_bruijn(&term, &[]).beta_reduce();
        let twice = once.beta_reduce();
        assert_eq!(once.to_text(), twice.to_text());
    }
}

#[test]
fn trivia_is_skipped() {
    assert_eq!(parse_and_convert("  λx\n\t( x   x )"), "λ(0 0)");
    assert_eq!(parse_and_convert("// a comment\nλx // another\n x"), "λ0");
}

#[test]
fn parser_stops_after_one_term() {
    let mut parser = TermParser::new("λx x y");
    let term = parser.parse().unwrap();
    assert_eq!(term.to_text(), "λx x");
    assert_eq!(parser.parse().unwrap().to_text(), "y");
    assert_eq!(parser.parse().err(), Some(ParseError::UnexpectedEnd { at: 6 }));
}

#[test]
fn names_keep_their_characters() {
    let term = TermParser::new("λfoo_1 (foo_1 $bar.baz)").parse().unwrap();
    assert_eq!(term.to_text(), "λfoo_1 (foo_1 $bar.baz)");
    assert!(matches!(term, Term::Lam { .. }));
}

#[test]
fn empty_input_is_unexpected_end() {
    assert_eq!(TermParser::new("").parse().err(), Some(ParseError::UnexpectedEnd { at: 0 }));
    assert_eq!(TermParser::new("λ  ").parse().err(), Some(ParseError::UnexpectedEnd { at: 3 }));
}

#[test]
fn missing_close_is_reported() {
    assert_eq!(TermParser::new("(a b").parse().err(), Some(ParseError::MissingClose { at: 4 }));
    assert_eq!(TermParser::new("(a b c)").parse().err(), Some(ParseError::MissingClose { at: 5 }));
}

#[test]
fn missing_name_is_reported() {
    assert_eq!(TermParser::new("λ(x)").parse().err(), Some(ParseError::ExpectedName { at: 1 }));
    assert_eq!(TermParser::new(")").parse().err(), Some(ParseError::ExpectedName { at: 0 }));
}

#[test]
fn error_messages_differ() {
    let a = ParseError::UnexpectedEnd { at: 0 }.message();
    let b = ParseError::MissingClose { at: 0 }.message();
    let c = ParseError::ExpectedName { at: 0 }.message();
    assert_eq!(a, "unexpected end of input");
    assert!(a != b && b != c && a != c);
}
