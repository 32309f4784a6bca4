use pscm::error::ScmErr;
use pscm::rational::Rational;
use pscm::reader::{parse, parse_atom, read_seq, Atom, Datum};

fn toks(v: &[&str]) -> Vec<String> {
    v.iter().map(|s| s.to_string()).collect()
}

fn atom(s: &str) -> Datum {
    Datum::Atom(s.to_string())
}

#[test]
fn parse_reads_nested_lists_and_quotes() {
    let ts = toks(&["(", "a", "'", "b", "(", ")", ")", "c"]);
    let (d, rest) = parse(&ts).unwrap();
    assert_eq!(d, Datum::List(vec![atom("a"), Datum::Quote(Box::new(atom("b"))), Datum::List(vec![])]));
    assert_eq!(rest, &ts[7..]);
}

#[test]
fn parse_reports_errors() {
    assert_eq!(parse(&[]).err(), Some(ScmErr::Reason("no tokens".to_string())));
    assert_eq!(parse(&toks(&[")"])).err(), Some(ScmErr::Reason("extraneous ')'".to_string())));
    assert_eq!(parse(&toks(&["(", "a"])).err(), Some(ScmErr::Reason("No closing ')' to match '('".to_string())));
    assert_eq!(parse(&toks(&["'"])).err(), Some(ScmErr::Reason("no tokens".to_string())));
    assert_eq!(ScmErr::Reason("x".to_string()).to_string(), "x");
}

#[test]
fn read_seq_reads_up_to_the_closing_paren() {
    let ts = toks(&["a", "b", ")", "c"]);
    let (d, rest) = read_seq(&ts).unwrap();
    assert_eq!(d, Datum::List(vec![atom("a"), atom("b")]));
    assert_eq!(rest.len(), 1);
}

#[test]
fn atoms_are_classified_in_order() {
    assert_eq!(parse_atom("#t", false), Atom::Bool(true));
    assert_eq!(parse_atom("#f", false), Atom::Bool(false));
    assert_eq!(parse_atom("42", true), Atom::Integral(42));
    assert_eq!(parse_atom("-7", false), Atom::Integral(-7));
    assert_eq!(parse_atom("1.5", true), Atom::Floating);
    assert_eq!(parse_atom("1%2", false), Atom::Rational(Rational::new(1, 2)));
    assert_eq!(parse_atom("foo", false), Atom::Symbol("foo".to_string()));
    assert_eq!(parse_atom("1%0", false), Atom::Symbol("1%0".to_string()));
}
