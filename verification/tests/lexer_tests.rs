use pscm::lexer::{tokenise, try_tokenise, Lexeme, TokenIterator};

fn lex(s: &str) -> Vec<(String, bool)> {
    let mut it = TokenIterator::new(s.chars().collect());
    tokenise(&mut it).into_iter().map(|l: Lexeme| (l.text, l.symbol)).collect()
}

fn t(s: &str, sym: bool) -> (String, bool) {
    (s.to_string(), sym)
}

#[test]
fn tokenise_splits_a_call() {
    assert_eq!(lex("(+ 1 2)"), vec![t("(", false), t("+", true), t("1", true), t("2", true), t(")", false)]);
}

#[test]
fn tokenise_skips_comments_and_newlines() {
    assert_eq!(lex("; a comment\n(a)\n; end"), vec![t("(", false), t("a", true), t(")", false)]);
    assert_eq!(lex("   \n  "), vec![]);
}

#[test]
fn tokenise_reads_strings_quotes_and_booleans() {
    assert_eq!(lex("\"hi there\" 'x #t #f"), vec![t("hi there", false), t("'", false), t("x", true), t("#t", false), t("#f", false)]);
    assert_eq!(lex("\"open"), vec![t("open", false)]);
}

#[test]
fn symbols_end_at_space_paren_or_newline() {
    assert_eq!(lex("(a(b)"), vec![t("(", false), t("a(b", true), t(")", false)]);
    assert_eq!(lex("x\ty"), vec![t("x\ty", true)]);
}

#[test]
fn a_bad_hash_is_reported() {
    let mut it = TokenIterator::new("(#x)".chars().collect());
    assert_eq!(try_tokenise(&mut it), Err(Some('x')));
    let mut it = TokenIterator::new("a #".chars().collect());
    assert_eq!(try_tokenise(&mut it), Err(None));
    let mut it = TokenIterator::new("\"#x\" ; #y".chars().collect());
    assert_eq!(try_tokenise(&mut it).map(|v| v.len()), Ok(1));
}

#[test]
fn take_until_stops_where_the_predicate_fails() {
    let mut it = TokenIterator::new("abc;d".chars().collect());
    assert_eq!(it.take_until(|c| c != ';'), vec!['a', 'b', 'c']);
    assert_eq!(it.peek(), Some(';'));
    assert_eq!(it.next(), Some(';'));
    assert_eq!(it.peek_ahead(0), Some('d'));
    assert_eq!(it.peek_ahead(1), None);
}

#[test]
fn tokenise_uses_up_the_input() {
    let mut it = TokenIterator::new("(+ 1 2)".chars().collect());
    let toks = tokenise(&mut it);
    assert_eq!(toks.len(), 5);
    assert_eq!(it.peek(), None);
}

#[test]
fn lexing_joined_texts_joins_the_tokens() {
    let s1 = "(define x #t) foo";
    let s2 = "\"a b\" ; note\n'(y)";
    let mut joined = lex(s1);
    joined.extend(lex(s2));
    assert_eq!(lex(&format!("{} {}", s1, s2)), joined);
}
