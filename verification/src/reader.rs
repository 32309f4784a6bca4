//! The reader: builds nested forms from a sequence of tokens.
use vstd::prelude::*;
use crate::error::{ScmErr, ScmResult};
use crate::numeral::{chars_of, parse_i128, parse_i128_spec};
use crate::rational::{Rational, from_string_spec};

verus! {

/// A form as the reader sees it, with the token text of each atom.
pub enum Form {
    Atom(Seq<char>),
    List(Seq<Form>),
    Quote(Box<Form>),
}

/// A form built by the reader: an atom keeps its token's text.
#[derive(Debug, PartialEq, Eq)]
pub enum Datum {
    Atom(String),
    List(Vec<Datum>),
    Quote(Box<Datum>),
}

/// The form that a datum stands for.
pub open spec fn form_of(d: Datum) -> Form
    decreases d,
{
    match d {
        Datum::Atom(s) => Form::Atom(s@),
        Datum::List(v) => Form::List(
            Seq::new(
                v@.len(),
                |i: int|
                    if 0 <= i < v@.len() {
                        form_of(v@[i])
                    } else {
                        Form::List(Seq::empty())
                    },
            ),
        ),
        Datum::Quote(b) => Form::Quote(Box::new(form_of(*b))),
    }
}

/// The forms that a sequence of data stand for.
pub open spec fn forms_of(v: Seq<Datum>) -> Seq<Form> {
    Seq::new(v.len(), |i: int| form_of(v[i]))
}

/// The texts of a sequence of tokens.
pub open spec fn texts(toks: Seq<String>) -> Seq<Seq<char>> {
    toks.map_values(|t: String| t@)
}

/// Reads one form from position `i`: the form and the position after it, or
/// the message of the error that the reader reports.
pub open spec fn parse_at(ts: Seq<Seq<char>>, i: int) -> Result<(Form, int), Seq<char>>
    decreases ts.len() - i, 0int,
{
    if i < 0 || i >= ts.len() {
        Err("no tokens"@)
    } else if ts[i] == seq!['('] {
        match read_seq_at(ts, i + 1) {
            Ok((fs, k)) => Ok((Form::List(fs), k)),
            Err(e) => Err(e),
        }
    } else if ts[i] == seq![')'] {
        Err("extraneous ')'"@)
    } else if ts[i] == seq!['\''] {
        match parse_at(ts, i + 1) {
            Ok((f, k)) => Ok((Form::Quote(Box::new(f)), k)),
            Err(e) => Err(e),
        }
    } else {
        Ok((Form::Atom(ts[i]), i + 1))
    }
}

/// Reads the forms of a list from position `i` up to and including its `)`:
/// the forms and the position after the `)`. (The reader always moves on,
/// see `lemma_reader_advances`, so the branch for a form that does not is never taken.)
pub open spec fn read_seq_at(ts: Seq<Seq<char>>, i: int) -> Result<(Seq<Form>, int), Seq<char>>
    decreases ts.len() - i, 1int,
{
    if i < 0 || i >= ts.len() {
        Err("No closing ')' to match '('"@)
    } else if ts[i] == seq![')'] {
        Ok((Seq::empty(), i + 1))
    } else {
        match parse_at(ts, i) {
            Err(e) => Err(e),
            Ok((f, k)) => if k <= i || k > ts.len() {
                Err("No closing ')' to match '('"@)
            } else {
                match read_seq_at(ts, k) {
                    Ok((fs, m)) => Ok((seq![f] + fs, m)),
                    Err(e) => Err(e),
                }
            },
        }
    }
}

/// Each form the reader reads takes up at least one token, and a list at least two.
pub proof fn lemma_reader_advances(ts: Seq<Seq<char>>, i: int)
    ensures
        parse_at(ts, i) matches Ok((_, k)) ==> i < k <= ts.len(),
        read_seq_at(ts, i) matches Ok((_, k)) ==> i < k <= ts.len(),
    decreases ts.len() - i,
{
    if 0 <= i < ts.len() {
        lemma_reader_advances(ts, i + 1);
        if let Ok((_, k)) = parse_at(ts, i) {
            if i < k <= ts.len() {
                lemma_reader_advances(ts, k);
            }
        }
    }
}

/// The form of a list datum is the list of its elements' forms.
pub proof fn lemma_form_of_list(v: Vec<Datum>)
    ensures
        form_of(Datum::List(v)) == Form::List(forms_of(v@)),
{
    match form_of(Datum::List(v)) {
        Form::List(s1) => {
            assert(s1 =~= forms_of(v@));
        },
        _ => {},
    }
}

/// Whether the text of `t` is the single character `c`.
fn token_is(t: &String, c: char) -> (r: bool)
    ensures
        r == (t@ == seq![c]),
{
    let v = chars_of(t.as_str());
    if v.len() == 1 && v[0] == c {
        proof {
            assert(t@ =~= seq![c]);
        }
        true
    } else {
        false
    }
}

/// Reads one form from `toks[i..]`.
fn parse_from(toks: &[String], i: usize) -> (r: ScmResult<(Datum, usize)>)
    requires
        i <= toks@.len(),
    ensures
        match r {
            Ok((d, k)) => parse_at(texts(toks@), i as int) == Ok::<(Form, int), Seq<char>>((form_of(d), k as int)),
            Err(e) => parse_at(texts(toks@), i as int) == Err::<(Form, int), Seq<char>>(e.message()),
        },
    decreases toks@.len() - i, 0int,
{
    let ghost ts = texts(toks@);
    if i >= toks.len() {
        return Err(ScmErr::reason("no tokens"));
    }
    let tok = &toks[i];
    if token_is(tok, '(') {
        match read_seq_from(toks, i + 1) {
            Ok((v, k)) => {
                proof {
                    lemma_form_of_list(v);
                }
                Ok((Datum::List(v), k))
            },
            Err(e) => Err(e),
        }
    } else if token_is(tok, ')') {
        Err(ScmErr::reason("extraneous ')'"))
    } else if token_is(tok, '\'') {
        match parse_from(toks, i + 1) {
            Ok((d, k)) => Ok((Datum::Quote(Box::new(d)), k)),
            Err(e) => Err(e),
        }
    } else {
        Ok((Datum::Atom(tok.clone()), i + 1))
    }
}

/// Reads the forms of a list from `toks[i..]` up to and including its `)`.
fn read_seq_from(toks: &[String], i: usize) -> (r: ScmResult<(Vec<Datum>, usize)>)
    requires
        i <= toks@.len(),
    ensures
        match r {
            Ok((v, k)) => read_seq_at(texts(toks@), i as int) == Ok::<(Seq<Form>, int), Seq<char>>(
                (forms_of(v@), k as int),
            ),
            Err(e) => read_seq_at(texts(toks@), i as int) == Err::<(Seq<Form>, int), Seq<char>>(
                e.message(),
            ),
        },
    decreases toks@.len() - i, 1int,
{
    let ghost ts = texts(toks@);
    let mut res: Vec<Datum> = Vec::new();
    let mut j: usize = i;
    loop
        invariant
            i <= j <= toks@.len(),
            ts == texts(toks@),
            read_seq_at(ts, i as int) == match read_seq_at(ts, j as int) {
                Ok((fs, m)) => Ok((forms_of(res@) + fs, m)),
                Err(e) => Err::<(Seq<Form>, int), Seq<char>>(e),
            },
        decreases toks@.len() - j,
    {
        if j >= toks.len() {
            return Err(ScmErr::reason("No closing ')' to match '('"));
        }
        if token_is(&toks[j], ')') {
            proof {
                assert(forms_of(res@) + Seq::<Form>::empty() =~= forms_of(res@));
            }
            return Ok((res, j + 1));
        }
        match parse_from(toks, j) {
            Ok((d, k)) => {
                proof {
                    lemma_reader_advances(ts, j as int);
                    match read_seq_at(ts, k as int) {
                        Ok((fs, m)) => {
                            assert(forms_of(res@.push(d)) + fs =~= forms_of(res@) + (seq![form_of(d)]
                                + fs));
                        },
                        Err(_) => {},
                    }
                }
                res.push(d);
                j = k;
            },
            Err(e) => {
                return Err(e);
            },
        }
    }
}

/// Reads one form from the front of `toks`; hands back the form and the tokens after it.
pub fn parse<'a>(toks: &'a [String]) -> (r: ScmResult<(Datum, &'a [String])>)
    ensures
        match r {
            Ok((d, rest)) => parse_at(texts(toks@), 0) == Ok::<(Form, int), Seq<char>>(
                (form_of(d), toks@.len() - rest@.len()),
            ) && rest@ == toks@.skip(toks@.len() - rest@.len()),
            Err(e) => parse_at(texts(toks@), 0) == Err::<(Form, int), Seq<char>>(e.message()),
        },
{
    match parse_from(toks, 0) {
        Ok((d, k)) => {
            proof {
                lemma_reader_advances(texts(toks@), 0);
            }
            let rest = vstd::slice::slice_subrange(toks, k, toks.len());
            proof {
                assert(rest@ =~= toks@.skip(k as int));
            }
            Ok((d, rest))
        },
        Err(e) => Err(e),
    }
}

/// Reads the forms of a list whose `(` has been read, up to and including its
/// `)`; hands back the list and the tokens after it.
pub fn read_seq<'a>(toks: &'a [String]) -> (r: ScmResult<(Datum, &'a [String])>)
    ensures
        match r {
            Ok((d, rest)) => read_seq_at(texts(toks@), 0) matches Ok((fs, k)) && form_of(d) == Form::List(fs)
                && k == toks@.len() - rest@.len() && rest@ == toks@.skip(k),
            Err(e) => read_seq_at(texts(toks@), 0) == Err::<(Seq<Form>, int), Seq<char>>(e.message()),
        },
{
    match read_seq_from(toks, 0) {
        Ok((v, k)) => {
            proof {
                lemma_reader_advances(texts(toks@), 0);
                lemma_form_of_list(v);
            }
            let rest = vstd::slice::slice_subrange(toks, k, toks.len());
            proof {
                assert(rest@ =~= toks@.skip(k as int));
            }
            Ok((Datum::List(v), rest))
        },
        Err(e) => Err(e),
    }
}

/// What an atom's token stands for.
#[derive(Clone, Debug, PartialEq, Eq)]
pub enum Atom {
    Bool(bool),
    Integral(i128),
    /// A floating-point number, read from the token by the caller.
    Floating,
    Rational(Rational),
    Symbol(String),
}

/// The kind of value that an atom's token stands for.
pub enum AtomKind {
    Bool(bool),
    Integral(i128),
    Floating,
    Rational(Rational),
    Symbol,
}

/// How `parse_atom` reads a token: `#t` and `#f` are booleans; then an `i128`
/// numeral, a floating-point number, a `num%den` fraction, and otherwise a symbol.
pub open spec fn atom_kind(t: Seq<char>, parses_as_float: bool) -> AtomKind {
    if t == seq!['#', 't'] {
        AtomKind::Bool(true)
    } else if t == seq!['#', 'f'] {
        AtomKind::Bool(false)
    } else if parse_i128_spec(t) is Some {
        AtomKind::Integral(parse_i128_spec(t)->0)
    } else if parses_as_float {
        AtomKind::Floating
    } else if from_string_spec(t) is Ok {
        AtomKind::Rational(from_string_spec(t)->Ok_0)
    } else {
        AtomKind::Symbol
    }
}

/// The kind of an atom.
pub open spec fn kind_of(a: Atom) -> AtomKind {
    match a {
        Atom::Bool(b) => AtomKind::Bool(b),
        Atom::Integral(i) => AtomKind::Integral(i),
        Atom::Floating => AtomKind::Floating,
        Atom::Rational(r) => AtomKind::Rational(r),
        Atom::Symbol(_) => AtomKind::Symbol,
    }
}

/// Reads an atom's token. `parses_as_float` says whether the token is a
/// floating-point number; it decides only where the token is no boolean and no `i128`.
pub fn parse_atom(tok: &str, parses_as_float: bool) -> (r: Atom)
    ensures
        kind_of(r) == atom_kind(tok@, parses_as_float),
        r matches Atom::Symbol(s) ==> s@ == tok@,
{
    let chars = chars_of(tok);
    if chars.len() == 2 && chars[0] == '#' && chars[1] == 't' {
        proof {
            assert(tok@ =~= seq!['#', 't']);
        }
        return Atom::Bool(true);
    }
    if chars.len() == 2 && chars[0] == '#' && chars[1] == 'f' {
        proof {
            assert(tok@ =~= seq!['#', 'f']);
        }
        return Atom::Bool(false);
    }
    proof {
        assert(tok@ != seq!['#', 't'] && tok@ != seq!['#', 'f']) by {
            if tok@ == seq!['#', 't'] || tok@ == seq!['#', 'f'] {
                assert(chars@ == tok@);
            }
        }
    }
    if let Some(i) = parse_i128(tok) {
        return Atom::Integral(i);
    }
    if parses_as_float {
        return Atom::Floating;
    }
    match Rational::from_string(tok) {
        Ok(r) => Atom::Rational(r),
        Err(_) => {
            broadcast use vstd::string::group_string_axioms;
            Atom::Symbol(tok.to_string())
        },
    }
}

/// Whether the reader reads `f` back from its tokens: no atom's text is `(`, `)` or `'`.
pub open spec fn printable(f: Form) -> bool
    decreases f,
{
    match f {
        Form::Atom(t) => t != seq!['('] && t != seq![')'] && t != seq!['\''],
        Form::List(fs) => all_printable(fs),
        Form::Quote(g) => printable(*g),
    }
}

/// Whether every form of `fs` is printable.
pub open spec fn all_printable(fs: Seq<Form>) -> bool
    decreases fs,
{
    if fs.len() == 0 {
        true
    } else {
        printable(fs[0]) && all_printable(fs.drop_first())
    }
}

/// The tokens that write `f` out: atoms as their text, lists in parentheses,
/// quoted forms after a `'`.
pub open spec fn form_tokens(f: Form) -> Seq<Seq<char>>
    decreases f,
{
    match f {
        Form::Atom(t) => seq![t],
        Form::List(fs) => seq![seq!['(']] + forms_tokens(fs) + seq![seq![')']],
        Form::Quote(g) => seq![seq!['\'']] + form_tokens(*g),
    }
}

/// The tokens of the forms of `fs`, one after another.
pub open spec fn forms_tokens(fs: Seq<Form>) -> Seq<Seq<char>>
    decreases fs,
{
    if fs.len() == 0 {
        Seq::empty()
    } else {
        form_tokens(fs[0]) + forms_tokens(fs.drop_first())
    }
}

/// A written form has a first token, which is `)` only for the atom `)`.
proof fn lemma_form_tokens_start(f: Form)
    ensures
        form_tokens(f).len() >= 1,
        form_tokens(f)[0] != seq![')'] || (f matches Form::Atom(t) && t == seq![')']),
{
    assert(seq!['('][0] != seq![')'][0]);
    assert(seq!['\''][0] != seq![')'][0]);
    match f {
        Form::Atom(t) => {},
        Form::List(fs) => {
            assert(form_tokens(f)[0] == seq!['(']);
        },
        Form::Quote(g) => {
            assert(form_tokens(f)[0] == seq!['\'']);
        },
    }
}

/// The reader reads a printable form back from its tokens, wherever they stand.
proof fn lemma_parse_printed(ts: Seq<Seq<char>>, i: int, f: Form)
    requires
        printable(f),
        0 <= i,
        i + form_tokens(f).len() <= ts.len(),
        ts.subrange(i, i + form_tokens(f).len()) == form_tokens(f),
    ensures
        parse_at(ts, i) == Ok::<(Form, int), Seq<char>>((f, i + form_tokens(f).len())),
    decreases f,
{
    let n = form_tokens(f).len() as int;
    assert(ts[i] == form_tokens(f)[0]) by {
        assert(ts.subrange(i, i + n)[0] == ts[i]);
    }
    assert(seq!['('][0] != seq![')'][0]);
    assert(seq!['\''][0] != seq![')'][0]);
    assert(seq!['('][0] != seq!['\''][0]);
    match f {
        Form::Atom(t) => {
            assert(form_tokens(f)[0] == t);
        },
        Form::List(fs) => {
            assert(form_tokens(f)[0] == seq!['(']);
            let m = forms_tokens(fs).len() as int;
            assert(ts.subrange(i + 1, i + 1 + m) =~= forms_tokens(fs)) by {
                assert forall|k: int| 0 <= k < m implies ts.subrange(i + 1, i + 1 + m)[k] == forms_tokens(fs)[k] by {
                    assert(ts.subrange(i, i + n)[k + 1] == form_tokens(f)[k + 1]);
                }
            }
            assert(ts[i + 1 + m] == seq![')']) by {
                assert(ts.subrange(i, i + n)[m + 1] == form_tokens(f)[m + 1]);
            }
            lemma_read_printed(ts, i + 1, fs);
        },
        Form::Quote(g) => {
            assert(form_tokens(f)[0] == seq!['\'']);
            let m = form_tokens(*g).len() as int;
            assert(ts.subrange(i + 1, i + 1 + m) =~= form_tokens(*g)) by {
                assert forall|k: int| 0 <= k < m implies ts.subrange(i + 1, i + 1 + m)[k] == form_tokens(*g)[k] by {
                    assert(ts.subrange(i, i + n)[k + 1] == form_tokens(f)[k + 1]);
                }
            }
            lemma_parse_printed(ts, i + 1, *g);
        },
    }
}

/// The reader reads printable forms back from their tokens followed by `)`.
proof fn lemma_read_printed(ts: Seq<Seq<char>>, i: int, fs: Seq<Form>)
    requires
        all_printable(fs),
        0 <= i,
        i + forms_tokens(fs).len() < ts.len(),
        ts.subrange(i, i + forms_tokens(fs).len()) == forms_tokens(fs),
        ts[i + forms_tokens(fs).len()] == seq![')'],
    ensures
        read_seq_at(ts, i) == Ok::<(Seq<Form>, int), Seq<char>>((fs, i + forms_tokens(fs).len() + 1)),
    decreases fs,
{
    if fs.len() > 0 {
        let f = fs[0];
        let rest = fs.drop_first();
        let n = form_tokens(f).len() as int;
        let m = forms_tokens(fs).len() as int;
        lemma_form_tokens_start(f);
        assert(ts[i] == form_tokens(f)[0]) by {
            assert(ts.subrange(i, i + m)[0] == ts[i]);
        }
        assert(ts.subrange(i, i + n) =~= form_tokens(f)) by {
            assert forall|k: int| 0 <= k < n implies ts.subrange(i, i + n)[k] == form_tokens(f)[k] by {
                assert(ts.subrange(i, i + m)[k] == forms_tokens(fs)[k]);
            }
        }
        lemma_parse_printed(ts, i, f);
        let r = forms_tokens(rest).len() as int;
        assert(ts.subrange(i + n, i + n + r) =~= forms_tokens(rest)) by {
            assert forall|k: int| 0 <= k < r implies ts.subrange(i + n, i + n + r)[k] == forms_tokens(rest)[k] by {
                assert(ts.subrange(i, i + m)[n + k] == forms_tokens(fs)[n + k]);
            }
        }
        lemma_read_printed(ts, i + n, rest);
        assert(seq![f] + rest =~= fs);
    } else {
        assert(fs =~= Seq::<Form>::empty());
    }
}

/// Reading back what a printable form is written as gives the form, and
/// leaves every token after it unread.
pub proof fn lemma_read_back(f: Form, rest: Seq<Seq<char>>)
    requires
        printable(f),
    ensures
        parse_at(form_tokens(f) + rest, 0) == Ok::<(Form, int), Seq<char>>((f, form_tokens(f).len() as int)),
{
    let ts = form_tokens(f) + rest;
    assert(ts.subrange(0, form_tokens(f).len() as int) =~= form_tokens(f));
    lemma_parse_printed(ts, 0, f);
}

} // verus!
