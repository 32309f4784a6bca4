//! The lexer: splits program text into parentheses, quotes, strings,
//! booleans and symbols, skipping blanks and `;` comments.
use vstd::prelude::*;
use crate::numeral::push_char;

verus! {

/// The runs of characters that the lexer reads in one go.
pub enum Run {
    /// A comment: everything up to the end of the line.
    Comment,
    /// The inside of a string literal: everything up to the closing `"`.
    Str,
    /// A symbol: everything up to a space, a `)` or the end of the line.
    Symbol,
}

/// Whether a run of the given kind goes on over `c`.
pub open spec fn keeps(run: Run, c: char) -> bool {
    match run {
        Run::Comment => c != '\n',
        Run::Str => c != '"',
        Run::Symbol => c != ' ' && c != ')' && c != '\n',
    }
}

/// Where a run of the given kind that starts at `i` ends.
pub open spec fn span_end(s: Seq<char>, i: int, run: Run) -> int
    decreases s.len() - i,
{
    if 0 <= i < s.len() && keeps(run, s[i]) {
        span_end(s, i + 1, run)
    } else {
        i
    }
}

/// The characters that the lexer skips between tokens.
pub open spec fn is_blank(c: char) -> bool {
    c == ' ' || c == '\n'
}

/// Where the blanks and comments that start at `i` end.
pub open spec fn skip_blank(s: Seq<char>, i: int) -> int
    decreases s.len() - i,
{
    if 0 <= i < s.len() && is_blank(s[i]) {
        skip_blank(s, i + 1)
    } else if 0 <= i < s.len() && s[i] == ';' {
        proof {
            lemma_span_end_bounds(s, i, Run::Comment);
        }
        skip_blank(s, span_end(s, i, Run::Comment))
    } else {
        i
    }
}

/// One step of the lexer.
pub enum LexStep {
    /// Nothing but blanks and comments is left.
    End,
    /// A `#` that is not followed by `t` or `f`: the character after it, if any.
    BadHash(Option<char>),
    /// A token: its text, whether it is a symbol, and where the lexer goes on.
    Token(Seq<char>, bool, int),
}

/// The token that starts at the first non-blank character at or after `i`.
pub open spec fn lex_step(s: Seq<char>, i: int) -> LexStep {
    let j = skip_blank(s, i);
    if j < 0 || j >= s.len() {
        LexStep::End
    } else if s[j] == '(' || s[j] == ')' || s[j] == '\'' {
        LexStep::Token(seq![s[j]], false, j + 1)
    } else if s[j] == '"' {
        let e = span_end(s, j + 1, Run::Str);
        LexStep::Token(s.subrange(j + 1, e), false, if e < s.len() { e + 1 } else { e })
    } else if s[j] == '#' {
        if j + 1 >= s.len() {
            LexStep::BadHash(None)
        } else if s[j + 1] == 't' || s[j + 1] == 'f' {
            LexStep::Token(seq!['#', s[j + 1]], false, j + 2)
        } else {
            LexStep::BadHash(Some(s[j + 1]))
        }
    } else {
        LexStep::Token(s.subrange(j, span_end(s, j, Run::Symbol)), true, span_end(s, j, Run::Symbol))
    }
}

/// All tokens from `i` on, each with whether it is a symbol; `None` where a bad `#` comes first.
pub open spec fn lex_from(s: Seq<char>, i: int) -> Option<Seq<(Seq<char>, bool)>>
    decreases s.len() - i,
{
    if 0 <= i <= s.len() {
        match lex_step(s, i) {
            LexStep::End => Some(Seq::empty()),
            LexStep::BadHash(_) => None,
            LexStep::Token(t, sym, k) => {
                proof {
                    lemma_lex_step_advances(s, i);
                }
                match lex_from(s, k) {
                    Some(rest) => Some(seq![(t, sym)] + rest),
                    None => None,
                }
            },
        }
    } else {
        None
    }
}

/// The first bad `#` that the lexer meets from `i` on, if any.
pub open spec fn first_bad_hash(s: Seq<char>, i: int) -> Option<Option<char>>
    decreases s.len() - i,
{
    if 0 <= i <= s.len() {
        match lex_step(s, i) {
            LexStep::End => None,
            LexStep::BadHash(c) => Some(c),
            LexStep::Token(t, sym, k) => {
                proof {
                    lemma_lex_step_advances(s, i);
                }
                first_bad_hash(s, k)
            },
        }
    } else {
        None
    }
}

/// A run ends within the text, keeps every character it covers, and stops
/// at the first character it does not keep.
pub proof fn lemma_span_end_bounds(s: Seq<char>, i: int, run: Run)
    requires
        0 <= i <= s.len(),
    ensures
        i <= span_end(s, i, run) <= s.len(),
        i < s.len() && keeps(run, s[i]) ==> span_end(s, i, run) > i,
        forall|k: int| i <= k < span_end(s, i, run) ==> keeps(run, #[trigger] s[k]),
        span_end(s, i, run) < s.len() ==> !keeps(run, s[span_end(s, i, run)]),
    decreases s.len() - i,
{
    if i < s.len() && keeps(run, s[i]) {
        lemma_span_end_bounds(s, i + 1, run);
    }
}

/// A run from `i` ends at the first character from `i` on that it does not keep.
pub proof fn lemma_span_end_at(s: Seq<char>, i: int, j: int, run: Run)
    requires
        0 <= i <= j <= s.len(),
        forall|k: int| i <= k < j ==> keeps(run, #[trigger] s[k]),
        j < s.len() ==> !keeps(run, s[j]),
    ensures
        span_end(s, i, run) == j,
    decreases j - i,
{
    if i < j {
        lemma_span_end_at(s, i + 1, j, run);
    }
}

/// Skipping blanks and comments stays within the text and stops at neither.
pub proof fn lemma_skip_blank_bounds(s: Seq<char>, i: int)
    requires
        0 <= i <= s.len(),
    ensures
        i <= skip_blank(s, i) <= s.len(),
        skip_blank(s, i) < s.len() ==> !is_blank(s[skip_blank(s, i)]) && s[skip_blank(s, i)] != ';',
    decreases s.len() - i,
{
    if i < s.len() && is_blank(s[i]) {
        lemma_skip_blank_bounds(s, i + 1);
    } else if i < s.len() && s[i] == ';' {
        lemma_span_end_bounds(s, i, Run::Comment);
        lemma_skip_blank_bounds(s, span_end(s, i, Run::Comment));
    }
}

/// Each token the lexer reads takes up at least one character.
pub proof fn lemma_lex_step_advances(s: Seq<char>, i: int)
    requires
        0 <= i <= s.len(),
    ensures
        lex_step(s, i) matches LexStep::Token(_, _, k) ==> i < k <= s.len(),
{
    let j = skip_blank(s, i);
    lemma_skip_blank_bounds(s, i);
    if j < s.len() {
        if s[j] == '"' {
            lemma_span_end_bounds(s, j + 1, Run::Str);
        } else {
            lemma_span_end_bounds(s, j, Run::Symbol);
        }
    }
}

/// A symbol token is never empty, holds no space, `)` or newline, and does not
/// start with a character that opens another kind of token or a comment.
pub proof fn lemma_symbol_token_shape(s: Seq<char>, i: int)
    requires
        0 <= i <= s.len(),
    ensures
        lex_step(s, i) matches LexStep::Token(t, sym, k) ==> (sym ==> {
            &&& t.len() >= 1
            &&& forall|m: int| 0 <= m < t.len() ==> keeps(Run::Symbol, #[trigger] t[m])
            &&& t[0] != '(' && t[0] != '\'' && t[0] != '"' && t[0] != '#' && t[0] != ';'
        }),
{
    let j = skip_blank(s, i);
    lemma_skip_blank_bounds(s, i);
    if j < s.len() {
        lemma_span_end_bounds(s, j, Run::Symbol);
        let e = span_end(s, j, Run::Symbol);
        assert forall|m: int| 0 <= m < e - j implies keeps(Run::Symbol, #[trigger] s.subrange(j, e)[m]) by {
            assert(s.subrange(j, e)[m] == s[j + m]);
        }
    }
}

/// A symbol ends at a space, a `)`, a newline or the end of the text: the
/// symbol is the text just before where the lexer goes on, it holds none of
/// these three characters, and the character where the lexer goes on is one.
pub proof fn lemma_symbol_ends_at_separator(s: Seq<char>, i: int)
    requires
        0 <= i <= s.len(),
    ensures
        lex_step(s, i) matches LexStep::Token(t, sym, k) ==> (sym ==> {
            &&& 1 <= t.len() <= k <= s.len()
            &&& t == s.subrange(k - t.len(), k)
            &&& forall|m: int| 0 <= m < t.len() ==> #[trigger] t[m] != ' ' && t[m] != ')' && t[m] != '\n'
            &&& k < s.len() ==> s[k] == ' ' || s[k] == ')' || s[k] == '\n'
        }),
{
    let j = skip_blank(s, i);
    lemma_skip_blank_bounds(s, i);
    if 0 <= j < s.len() {
        lemma_span_end_bounds(s, j, Run::Symbol);
        let e = span_end(s, j, Run::Symbol);
        assert forall|m: int| 0 <= m < e - j implies #[trigger] s.subrange(j, e)[m] != ' ' && s.subrange(j, e)[m]
            != ')' && s.subrange(j, e)[m] != '\n' by {
            assert(s.subrange(j, e)[m] == s[j + m]);
            assert(keeps(Run::Symbol, s[j + m]));
        }
        if e < s.len() {
            assert(!keeps(Run::Symbol, s[e]));
        }
        lemma_symbol_token_shape(s, i);
    }
}

/// A string token holds no `"`.
pub proof fn lemma_string_token_shape(s: Seq<char>, i: int)
    requires
        0 <= i <= s.len(),
    ensures
        ({
            let j = skip_blank(s, i);
            0 <= j < s.len() && s[j] == '"' ==> (lex_step(s, i) matches LexStep::Token(t, sym, k) && !sym
                && forall|m: int| 0 <= m < t.len() ==> #[trigger] t[m] != '"')
        }),
{
    let j = skip_blank(s, i);
    lemma_skip_blank_bounds(s, i);
    if 0 <= j < s.len() && s[j] == '"' {
        lemma_span_end_bounds(s, j + 1, Run::Str);
        let e = span_end(s, j + 1, Run::Str);
        assert forall|m: int| 0 <= m < e - (j + 1) implies #[trigger] s.subrange(j + 1, e)[m] != '"' by {
            assert(s.subrange(j + 1, e)[m] == s[j + 1 + m]);
            assert(keeps(Run::Str, s[j + 1 + m]));
        }
    }
}

/// A run that starts after a prefix `p` ends where it ends in the text without `p`.
proof fn lemma_span_end_shift(p: Seq<char>, s: Seq<char>, j: int, run: Run)
    requires
        0 <= j <= s.len(),
    ensures
        span_end(p + s, p.len() + j, run) == p.len() + span_end(s, j, run),
    decreases s.len() - j,
{
    let t = p + s;
    if j < s.len() {
        assert(t[p.len() + j] == s[j]);
        if keeps(run, s[j]) {
            lemma_span_end_shift(p, s, j + 1, run);
        }
    }
}

/// Skipping blanks after a prefix `p` ends where it ends in the text without `p`.
proof fn lemma_skip_blank_shift(p: Seq<char>, s: Seq<char>, j: int)
    requires
        0 <= j <= s.len(),
    ensures
        skip_blank(p + s, p.len() + j) == p.len() + skip_blank(s, j),
    decreases s.len() - j,
{
    let t = p + s;
    if j < s.len() {
        assert(t[p.len() + j] == s[j]);
        if is_blank(s[j]) {
            lemma_skip_blank_shift(p, s, j + 1);
        } else if s[j] == ';' {
            lemma_span_end_bounds(s, j, Run::Comment);
            lemma_span_end_shift(p, s, j, Run::Comment);
            lemma_skip_blank_shift(p, s, span_end(s, j, Run::Comment));
        }
    }
}

/// After a prefix `p`, the lexer reads what it reads in the text without `p`.
proof fn lemma_lex_from_shift(p: Seq<char>, s: Seq<char>, j: int)
    requires
        0 <= j <= s.len(),
    ensures
        lex_from(p + s, p.len() + j) == lex_from(s, j),
        first_bad_hash(p + s, p.len() + j) == first_bad_hash(s, j),
    decreases s.len() - j,
{
    let t = p + s;
    let n = p.len();
    lemma_skip_blank_shift(p, s, j);
    lemma_skip_blank_bounds(s, j);
    lemma_lex_step_advances(s, j);
    let b = skip_blank(s, j);
    if b < s.len() {
        assert(t[n + b] == s[b]);
        if b + 1 < s.len() {
            assert(t[n + b + 1] == s[b + 1]);
        }
        if s[b] == '"' {
            lemma_span_end_bounds(s, b + 1, Run::Str);
            lemma_span_end_shift(p, s, b + 1, Run::Str);
            let e = span_end(s, b + 1, Run::Str);
            assert(t.subrange(n + b + 1, n + e) =~= s.subrange(b + 1, e));
        } else if s[b] != '(' && s[b] != ')' && s[b] != '\'' && s[b] != '#' {
            lemma_span_end_bounds(s, b, Run::Symbol);
            lemma_span_end_shift(p, s, b, Run::Symbol);
            let e = span_end(s, b, Run::Symbol);
            assert(t.subrange(n + b, n + e) =~= s.subrange(b, e));
        }
    }
    match lex_step(s, j) {
        LexStep::Token(tk, sym, k) => {
            assert(lex_step(t, n + j) == LexStep::Token(tk, sym, n + k));
            lemma_lex_from_shift(p, s, k);
        },
        _ => {},
    }
}

/// Skipping from `i` in a text without `;` passes over blanks only.
proof fn lemma_skip_blank_plain(s: Seq<char>, i: int)
    requires
        0 <= i <= s.len(),
        forall|k: int| i <= k < s.len() ==> #[trigger] s[k] != ';',
    ensures
        forall|k: int| i <= k < skip_blank(s, i) ==> is_blank(#[trigger] s[k]),
    decreases s.len() - i,
{
    if i < s.len() && is_blank(s[i]) {
        lemma_skip_blank_plain(s, i + 1);
    }
}

/// Skipping over blanks from `i` to `m` goes on from `m`.
proof fn lemma_skip_blank_over(s: Seq<char>, i: int, m: int)
    requires
        0 <= i <= m <= s.len(),
        forall|k: int| i <= k < m ==> is_blank(#[trigger] s[k]),
    ensures
        skip_blank(s, i) == skip_blank(s, m),
    decreases m - i,
{
    if i < m {
        lemma_skip_blank_over(s, i + 1, m);
    }
}

/// Lexing `s1`, a space and `s2` from a place `i` in `s1` gives the tokens of
/// `s1` from `i` followed by those of `s2`, when `s1` holds no `"` or `;`.
proof fn lemma_lex_join_from(s1: Seq<char>, s2: Seq<char>, i: int)
    requires
        0 <= i <= s1.len(),
        forall|k: int| 0 <= k < s1.len() ==> #[trigger] s1[k] != '"' && s1[k] != ';',
        lex_from(s1, i) is Some,
        lex_from(s2, 0) is Some,
    ensures
        lex_from(s1 + seq![' '] + s2, i) == Some(lex_from(s1, i)->0 + lex_from(s2, 0)->0),
    decreases s1.len() - i,
{
    let p = s1 + seq![' '];
    let t = p + s2;
    let n: int = s1.len() as int;
    assert forall|k: int| 0 <= k < n implies #[trigger] t[k] == s1[k] by {
        assert(p[k] == s1[k]);
    }
    assert(t[n] == ' ');
    lemma_skip_blank_bounds(s1, i);
    lemma_skip_blank_plain(s1, i);
    let j = skip_blank(s1, i);
    if j == n {
        assert forall|k: int| i <= k < n + 1 implies is_blank(#[trigger] t[k]) by {
            if k < n {
                assert(t[k] == s1[k]);
                assert(is_blank(s1[k]));
            }
        }
        lemma_skip_blank_over(t, i, n + 1);
        assert(lex_step(s1, i) == LexStep::End);
        assert(lex_from(s1, i) == Some(Seq::<(Seq<char>, bool)>::empty()));
        lemma_lex_from_shift(p, s2, 0);
        assert(lex_step(t, i) == lex_step(t, n + 1));
        assert(lex_from(t, i) == lex_from(t, n + 1));
        assert(Seq::<(Seq<char>, bool)>::empty() + lex_from(s2, 0)->0 =~= lex_from(s2, 0)->0);
    } else {
        assert forall|k: int| i <= k < j implies is_blank(#[trigger] t[k]) by {
            assert(t[k] == s1[k]);
        }
        assert(t[j] == s1[j]);
        lemma_skip_blank_over(t, i, j);
        assert(skip_blank(t, j) == j);
        if j + 1 < n {
            assert(t[j + 1] == s1[j + 1]);
        }
        let c = s1[j];
        if c != '(' && c != ')' && c != '\'' && c != '#' {
            lemma_span_end_bounds(s1, j, Run::Symbol);
            let e = span_end(s1, j, Run::Symbol);
            assert forall|k: int| j <= k < e implies keeps(Run::Symbol, #[trigger] t[k]) by {
                assert(t[k] == s1[k]);
            }
            if e < n {
                assert(t[e] == s1[e]);
            }
            lemma_span_end_at(t, j, e, Run::Symbol);
            assert(t.subrange(j, e) =~= s1.subrange(j, e));
        }
        lemma_lex_step_advances(s1, i);
        match lex_step(s1, i) {
            LexStep::Token(tk, sym, k) => {
                assert(lex_step(t, i) == LexStep::Token(tk, sym, k));
                lemma_lex_join_from(s1, s2, k);
                let rest1 = lex_from(s1, k)->0;
                assert(seq![(tk, sym)] + (rest1 + lex_from(s2, 0)->0) =~= (seq![(tk, sym)] + rest1)
                    + lex_from(s2, 0)->0);
            },
            _ => {},
        }
    }
}

/// Lexing two texts joined by a space gives the tokens of the first followed
/// by the tokens of the second, when the first holds no `"` or `;` and neither
/// holds a bad `#`.
pub proof fn lemma_lex_join(s1: Seq<char>, s2: Seq<char>)
    requires
        forall|k: int| 0 <= k < s1.len() ==> #[trigger] s1[k] != '"' && s1[k] != ';',
        lex_from(s1, 0) is Some,
        lex_from(s2, 0) is Some,
    ensures
        lex_from(s1 + seq![' '] + s2, 0) == Some(lex_from(s1, 0)->0 + lex_from(s2, 0)->0),
{
    lemma_lex_join_from(s1, s2, 0);
}

/// A token as the lexer hands it out: its text, and whether it was read as a symbol.
/// Symbols are the tokens whose text a number may stand for.
#[derive(Clone, Debug, PartialEq, Eq)]
pub struct Lexeme {
    pub text: String,
    pub symbol: bool,
}

impl View for Lexeme {
    type V = (Seq<char>, bool);

    open spec fn view(&self) -> (Seq<char>, bool) {
        (self.text@, self.symbol)
    }
}

/// A cursor over the characters of a program text.
pub struct TokenIterator {
    chars: Vec<char>,
    pos: usize,
}

impl TokenIterator {
    /// The whole text.
    pub closed spec fn text(&self) -> Seq<char> {
        self.chars@
    }

    /// How many characters have been read.
    pub closed spec fn position(&self) -> int {
        self.pos as int
    }

    /// The cursor stands within the text.
    pub closed spec fn wf(&self) -> bool {
        self.pos <= self.chars.len()
    }

    /// A well-formed cursor stands within its text.
    pub proof fn lemma_wf_bounds(&self)
        requires
            self.wf(),
        ensures
            0 <= self.position() <= self.text().len(),
    {
    }

    /// A cursor at the start of `inner`.
    pub fn new(inner: Vec<char>) -> (r: TokenIterator)
        ensures
            r.wf(),
            r.text() == inner@,
            r.position() == 0,
    {
        TokenIterator { chars: inner, pos: 0 }
    }

    /// The character at the cursor, if any, without reading it.
    pub fn peek(&self) -> (r: Option<char>)
        requires
            self.wf(),
        ensures
            r == if self.position() < self.text().len() {
                Some(self.text()[self.position()])
            } else {
                None
            },
    {
        if self.pos < self.chars.len() {
            Some(self.chars[self.pos])
        } else {
            None
        }
    }

    /// The character `n` places after the cursor, if any, without reading it.
    pub fn peek_ahead(&self, n: usize) -> (r: Option<char>)
        requires
            self.wf(),
        ensures
            r == if self.position() + n < self.text().len() {
                Some(self.text()[self.position() + n])
            } else {
                None
            },
    {
        if n < self.chars.len() - self.pos {
            Some(self.chars[self.pos + n])
        } else {
            None
        }
    }

    /// Reads the character at the cursor, if any.
    pub fn next(&mut self) -> (r: Option<char>)
        requires
            old(self).wf(),
        ensures
            final(self).wf(),
            final(self).text() == old(self).text(),
            old(self).position() < old(self).text().len() ==> r == Some(old(self).text()[old(self).position()])
                && final(self).position() == old(self).position() + 1,
            old(self).position() >= old(self).text().len() ==> r is None && final(self).position()
                == old(self).position(),
    {
        if self.pos < self.chars.len() {
            let c = self.chars[self.pos];
            self.pos = self.pos + 1;
            Some(c)
        } else {
            None
        }
    }

    /// Reads characters while `pred` holds of them, and hands them out.
    pub fn take_until<F: Fn(char) -> bool>(&mut self, pred: F) -> (r: Vec<char>)
        requires
            old(self).wf(),
            forall|c: char| call_requires(pred, (c,)),
        ensures
            final(self).wf(),
            final(self).text() == old(self).text(),
            old(self).position() <= final(self).position(),
            r@ == old(self).text().subrange(old(self).position(), final(self).position()),
            forall|k: int|
                old(self).position() <= k < final(self).position() ==> call_ensures(
                    pred,
                    (old(self).text()[k],),
                    true,
                ),
            final(self).position() < final(self).text().len() ==> call_ensures(
                pred,
                (final(self).text()[final(self).position()],),
                false,
            ),
    {
        let ghost start = self.pos;
        let mut v: Vec<char> = Vec::new();
        loop
            invariant
                self.wf(),
                self.chars@ == old(self).chars@,
                start == old(self).pos,
                start <= self.pos,
                v@ == self.chars@.subrange(start as int, self.pos as int),
                forall|c: char| call_requires(pred, (c,)),
                forall|k: int| start <= k < self.pos ==> call_ensures(pred, (self.chars@[k],), true),
            ensures
                self.wf(),
                self.chars@ == old(self).chars@,
                start <= self.pos,
                v@ == self.chars@.subrange(start as int, self.pos as int),
                forall|k: int| start <= k < self.pos ==> call_ensures(pred, (self.chars@[k],), true),
                self.pos < self.chars.len() ==> call_ensures(pred, (self.chars@[self.pos as int],), false),
            decreases self.chars.len() - self.pos,
        {
            if self.pos >= self.chars.len() {
                break ;
            }
            let c = self.chars[self.pos];
            let keep = pred(c);
            if !keep {
                break ;
            }
            v.push(c);
            self.pos = self.pos + 1;
            proof {
                assert(v@ =~= self.chars@.subrange(start as int, self.pos as int));
            }
        }
        v
    }
}

/// A `String` holding the characters of `v`, in order.
fn string_of(v: &Vec<char>) -> (r: String)
    ensures
        r@ == v@,
{
    let mut s = String::new();
    let mut i: usize = 0;
    while i < v.len()
        invariant
            i <= v.len(),
            s@ == v@.take(i as int),
        decreases v.len() - i,
    {
        push_char(&mut s, v[i]);
        i = i + 1;
        proof {
            assert(s@ =~= v@.take(i as int));
        }
    }
    proof {
        assert(v@.take(i as int) =~= v@);
    }
    s
}

/// Whether the character at the cursor satisfies `f`; false at the end of the text.
fn check<F: Fn(char) -> bool>(iter: &mut TokenIterator, f: F) -> (r: bool)
    requires
        old(iter).wf(),
        forall|c: char| call_requires(f, (c,)),
    ensures
        *final(iter) == *old(iter),
        old(iter).position() < old(iter).text().len() ==> call_ensures(
            f,
            (old(iter).text()[old(iter).position()],),
            r,
        ),
        old(iter).position() >= old(iter).text().len() ==> !r,
{
    if let Some(x) = iter.peek() {
        f(x)
    } else {
        false
    }
}

/// Whether the character at the cursor is `chr`.
fn check_char(iter: &mut TokenIterator, chr: char) -> (r: bool)
    requires
        old(iter).wf(),
    ensures
        *final(iter) == *old(iter),
        r == (old(iter).position() < old(iter).text().len() && old(iter).text()[old(iter).position()]
            == chr),
{
    check(iter, |x: char| -> (b: bool) ensures b == (x == chr) { x == chr })
}

/// Reads `chr` at the cursor as a token of its own.
fn check_for(iter: &mut TokenIterator, chr: char) -> (r: Option<String>)
    requires
        old(iter).wf(),
    ensures
        final(iter).wf(),
        final(iter).text() == old(iter).text(),
        ({
            let s = old(iter).text();
            let p = old(iter).position();
            if p < s.len() && s[p] == chr {
                r matches Some(t) && t@ == seq![chr] && final(iter).position() == p + 1
            } else {
                r is None && final(iter).position() == p
            }
        }),
{
    if !check_char(iter, chr) {
        return None;
    }
    iter.next();
    let mut t = String::new();
    push_char(&mut t, chr);
    proof {
        assert(t@ =~= seq![chr]);
    }
    Some(t)
}

/// Reads a quote mark `'` at the cursor.
fn check_quote(iter: &mut TokenIterator) -> (r: Option<String>)
    requires
        old(iter).wf(),
    ensures
        final(iter).wf(),
        final(iter).text() == old(iter).text(),
        ({
            let s = old(iter).text();
            let p = old(iter).position();
            if p < s.len() && s[p] == '\'' {
                r matches Some(t) && t@ == seq!['\''] && final(iter).position() == p + 1
            } else {
                r is None && final(iter).position() == p
            }
        }),
{
    if iter.peek() == Some('\'') {
        iter.next();
        let mut t = String::new();
        push_char(&mut t, '\'');
        proof {
            assert(t@ =~= seq!['\'']);
        }
        Some(t)
    } else {
        None
    }
}

/// Skips one space or newline at the cursor.
fn skip_whitespace(iter: &mut TokenIterator) -> (r: bool)
    requires
        old(iter).wf(),
    ensures
        final(iter).wf(),
        final(iter).text() == old(iter).text(),
        ({
            let s = old(iter).text();
            let p = old(iter).position();
            if p < s.len() && is_blank(s[p]) {
                r && final(iter).position() == p + 1
            } else {
                !r && final(iter).position() == p
            }
        }),
{
    if check_char(iter, ' ') || check_char(iter, '\n') {
        iter.next();
        true
    } else {
        false
    }
}

/// Skips a `;` comment at the cursor, up to the end of its line.
fn skip_comment(iter: &mut TokenIterator) -> (r: bool)
    requires
        old(iter).wf(),
    ensures
        final(iter).wf(),
        final(iter).text() == old(iter).text(),
        ({
            let s = old(iter).text();
            let p = old(iter).position();
            if p < s.len() && s[p] == ';' {
                r && final(iter).position() == span_end(s, p, Run::Comment)
            } else {
                !r && final(iter).position() == p
            }
        }),
{
    if check_char(iter, ';') {
        let ghost p = iter.position();
        iter.take_until(|c: char| -> (b: bool) ensures b == keeps(Run::Comment, c) { c != '\n' });
        proof {
            lemma_span_end_at(iter.text(), p, iter.position(), Run::Comment);
        }
        true
    } else {
        false
    }
}

/// Reads `(` at the cursor.
fn check_lparen(iter: &mut TokenIterator) -> (r: Option<String>)
    requires
        old(iter).wf(),
    ensures
        final(iter).wf(),
        final(iter).text() == old(iter).text(),
        ({
            let s = old(iter).text();
            let p = old(iter).position();
            if p < s.len() && s[p] == '(' {
                r matches Some(t) && t@ == seq!['('] && final(iter).position() == p + 1
            } else {
                r is None && final(iter).position() == p
            }
        }),
{
    check_for(iter, '(')
}

/// Reads `)` at the cursor.
fn check_rparen(iter: &mut TokenIterator) -> (r: Option<String>)
    requires
        old(iter).wf(),
    ensures
        final(iter).wf(),
        final(iter).text() == old(iter).text(),
        ({
            let s = old(iter).text();
            let p = old(iter).position();
            if p < s.len() && s[p] == ')' {
                r matches Some(t) && t@ == seq![')'] && final(iter).position() == p + 1
            } else {
                r is None && final(iter).position() == p
            }
        }),
{
    check_for(iter, ')')
}

/// Reads a string literal at the cursor: its text without the quotes. A
/// literal that is not closed runs to the end of the text.
fn check_string(iter: &mut TokenIterator) -> (r: Option<String>)
    requires
        old(iter).wf(),
    ensures
        final(iter).wf(),
        final(iter).text() == old(iter).text(),
        ({
            let s = old(iter).text();
            let p = old(iter).position();
            if p < s.len() && s[p] == '"' {
                let e = span_end(s, p + 1, Run::Str);
                r matches Some(t) && t@ == s.subrange(p + 1, e) && final(iter).position() == if e < s.len() {
                    e + 1
                } else {
                    e
                }
            } else {
                r is None && final(iter).position() == p
            }
        }),
{
    if !check_char(iter, '"') {
        return None;
    }
    iter.next();
    let ghost p = iter.position();
    let value = iter.take_until(|c: char| -> (b: bool) ensures b == keeps(Run::Str, c) { c != '"' });
    proof {
        lemma_span_end_at(iter.text(), p, iter.position(), Run::Str);
    }
    iter.next();
    Some(string_of(&value))
}

/// Reads `#t` or `#f` at the cursor.
fn check_hash(iter: &mut TokenIterator) -> (r: Option<String>)
    requires
        old(iter).wf(),
        ({
            let s = old(iter).text();
            let p = old(iter).position();
            p < s.len() && s[p] == '#' ==> p + 1 < s.len() && (s[p + 1] == 't' || s[p + 1] == 'f')
        }),
    ensures
        final(iter).wf(),
        final(iter).text() == old(iter).text(),
        ({
            let s = old(iter).text();
            let p = old(iter).position();
            if p < s.len() && s[p] == '#' {
                r matches Some(t) && t@ == seq!['#', s[p + 1]] && final(iter).position() == p + 2
            } else {
                r is None && final(iter).position() == p
            }
        }),
{
    if !check_char(iter, '#') {
        return None;
    }
    iter.next();
    let c = iter.next();
    let mut t = String::new();
    push_char(&mut t, '#');
    if c == Some('t') {
        push_char(&mut t, 't');
    } else {
        push_char(&mut t, 'f');
    }
    proof {
        assert(t@ =~= seq!['#', old(iter).text()[old(iter).position() + 1]]);
    }
    Some(t)
}

/// Reads a symbol at the cursor: everything up to a space, a `)` or a newline.
fn check_symbol(iter: &mut TokenIterator) -> (r: Option<String>)
    requires
        old(iter).wf(),
    ensures
        final(iter).wf(),
        final(iter).text() == old(iter).text(),
        ({
            let s = old(iter).text();
            let p = old(iter).position();
            if p < s.len() {
                &&& r matches Some(t) && t@ == s.subrange(p, span_end(s, p, Run::Symbol))
                &&& final(iter).position() == span_end(s, p, Run::Symbol)
            } else {
                r is None && final(iter).position() == p
            }
        }),
{
    if !check(iter, |x: char| -> (b: bool) ensures b { true }) {
        return None;
    }
    let ghost p = iter.position();
    let value = iter.take_until(
        |c: char| -> (b: bool) ensures b == keeps(Run::Symbol, c) { c != ' ' && c != ')' && c != '\n' },
    );
    proof {
        lemma_span_end_at(iter.text(), p, iter.position(), Run::Symbol);
    }
    Some(string_of(&value))
}

/// A token that is not a symbol.
fn plain(text: String) -> (r: Lexeme)
    ensures
        r@ == (text@, false),
{
    Lexeme { text, symbol: false }
}

/// Skips the blanks and comments at the cursor.
fn skip_blanks(iter: &mut TokenIterator)
    requires
        old(iter).wf(),
    ensures
        final(iter).wf(),
        final(iter).text() == old(iter).text(),
        final(iter).position() == skip_blank(old(iter).text(), old(iter).position()),
{
    let ghost s = iter.text();
    let ghost target = skip_blank(s, iter.position());
    loop
        invariant
            iter.wf(),
            iter.text() == s,
            skip_blank(s, iter.position()) == target,
        ensures
            iter.wf(),
            iter.text() == s,
            iter.position() == target,
        decreases s.len() - iter.position(),
    {
        proof {
            lemma_span_end_bounds(s, iter.position(), Run::Comment);
        }
        let progressed = skip_whitespace(iter) || skip_comment(iter);
        if !progressed {
            break ;
        }
    }
}

/// Reads the next token, after any blanks and comments. `None` at the end of the text.
pub fn tokenise_single(iter: &mut TokenIterator) -> (r: Option<Lexeme>)
    requires
        old(iter).wf(),
        !(lex_step(old(iter).text(), old(iter).position()) is BadHash),
    ensures
        final(iter).wf(),
        final(iter).text() == old(iter).text(),
        match lex_step(old(iter).text(), old(iter).position()) {
            LexStep::End => r is None && final(iter).position() == old(iter).text().len(),
            LexStep::Token(t, sym, k) => r matches Some(l) && l@ == (t, sym) && final(iter).position() == k,
            LexStep::BadHash(_) => false,
        },
{
    let ghost s = iter.text();
    proof {
        lemma_skip_blank_bounds(s, iter.position());
    }
    skip_blanks(iter);
    if let Some(t) = check_lparen(iter) {
        return Some(plain(t));
    }
    if let Some(t) = check_rparen(iter) {
        return Some(plain(t));
    }
    if let Some(t) = check_quote(iter) {
        return Some(plain(t));
    }
    if let Some(t) = check_string(iter) {
        return Some(plain(t));
    }
    if let Some(t) = check_hash(iter) {
        return Some(plain(t));
    }
    if let Some(t) = check_symbol(iter) {
        return Some(Lexeme { text: t, symbol: true });
    }
    None
}

/// Reads all tokens from the cursor on, or the first bad `#`: the character
/// after it, or `None` where the text ends right after it.
pub fn try_tokenise(iter: &mut TokenIterator) -> (r: Result<Vec<Lexeme>, Option<char>>)
    requires
        old(iter).wf(),
    ensures
        final(iter).wf(),
        final(iter).text() == old(iter).text(),
        match r {
            Ok(v) => first_bad_hash(old(iter).text(), old(iter).position()) is None
                && lex_from(old(iter).text(), old(iter).position()) == Some(v@.map_values(|l: Lexeme| l@))
                && final(iter).position() == old(iter).text().len(),
            Err(c) => first_bad_hash(old(iter).text(), old(iter).position()) == Some(c),
        },
{
    let ghost s = iter.text();
    let ghost p0 = iter.position();
    let mut tokens: Vec<Lexeme> = Vec::new();
    loop
        invariant
            iter.wf(),
            iter.text() == s,
            s == old(iter).text(),
            p0 == old(iter).position(),
            0 <= iter.position() <= s.len(),
            first_bad_hash(s, p0) == first_bad_hash(s, iter.position()),
            lex_from(s, p0) == match lex_from(s, iter.position()) {
                Some(rest) => Some(tokens@.map_values(|l: Lexeme| l@) + rest),
                None => None::<Seq<(Seq<char>, bool)>>,
            },
        decreases s.len() - iter.position(),
    {
        let ghost p = iter.position();
        proof {
            lemma_skip_blank_bounds(s, p);
            lemma_lex_step_advances(s, p);
        }
        skip_blanks(iter);
        if iter.peek() == Some('#') {
            let c = iter.peek_ahead(1);
            if c != Some('t') && c != Some('f') {
                return Err(c);
            }
        }
        let ghost q = iter.position();
        proof {
            assert(skip_blank(s, q) == q) by {
                lemma_skip_blank_bounds(s, p);
            }
        }
        match tokenise_single(iter) {
            Some(t) => {
                proof {
                    let ghost old_tokens = tokens@.map_values(|l: Lexeme| l@);
                    assert(tokens@.push(t).map_values(|l: Lexeme| l@) =~= old_tokens.push(t@));
                    match lex_from(s, iter.position()) {
                        Some(rest) => {
                            assert(old_tokens + (seq![t@] + rest) =~= old_tokens.push(t@) + rest);
                        },
                        None => {},
                    }
                }
                tokens.push(t);
            },
            None => {
                proof {
                    assert(tokens@.map_values(|l: Lexeme| l@) + Seq::<(Seq<char>, bool)>::empty()
                        =~= tokens@.map_values(|l: Lexeme| l@));
                }
                return Ok(tokens);
            },
        }
    }
}

/// Reads all tokens from the cursor on.
pub fn tokenise(iter: &mut TokenIterator) -> (r: Vec<Lexeme>)
    requires
        old(iter).wf(),
        first_bad_hash(old(iter).text(), old(iter).position()) is None,
    ensures
        final(iter).wf(),
        final(iter).text() == old(iter).text(),
        final(iter).position() == old(iter).text().len(),
        lex_from(old(iter).text(), old(iter).position()) == Some(r@.map_values(|l: Lexeme| l@)),
{
    match try_tokenise(iter) {
        Ok(v) => v,
        Err(_) => Vec::new(),
    }
}

} // verus!
