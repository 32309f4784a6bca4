//! Trimming white space off answers and commands typed by the user.
use vstd::prelude::*;
use crate::numeral::chars_of;

verus! {

/// The characters that `char::is_whitespace` accepts: Unicode `White_Space`.
pub open spec fn is_white_space(c: char) -> bool {
    let u = c as u32;
    ||| 0x9 <= u <= 0xD
    ||| u == 0x20
    ||| u == 0x85
    ||| u == 0xA0
    ||| u == 0x1680
    ||| 0x2000 <= u <= 0x200A
    ||| u == 0x2028
    ||| u == 0x2029
    ||| u == 0x202F
    ||| u == 0x205F
    ||| u == 0x3000
}

/// How many white-space characters `s` starts with.
pub open spec fn leading_white(s: Seq<char>) -> nat
    decreases s.len(),
{
    if s.len() > 0 && is_white_space(s[0]) {
        1 + leading_white(s.drop_first())
    } else {
        0
    }
}

/// How many white-space characters `s` ends with.
pub open spec fn trailing_white(s: Seq<char>) -> nat
    decreases s.len(),
{
    if s.len() > 0 && is_white_space(s.last()) {
        1 + trailing_white(s.drop_last())
    } else {
        0
    }
}

/// `str::trim`: `s` without its leading and trailing white space.
pub open spec fn trimmed(s: Seq<char>) -> Seq<char> {
    let t = s.skip(leading_white(s) as int);
    t.take(t.len() - trailing_white(t))
}

/// Counting leading white space stops at the first other character.
proof fn lemma_leading_white(s: Seq<char>, i: int)
    requires
        0 <= i <= s.len(),
        forall|k: int| 0 <= k < i ==> is_white_space(#[trigger] s[k]),
        i < s.len() ==> !is_white_space(s[i]),
    ensures
        leading_white(s) == i,
    decreases i,
{
    if i > 0 {
        lemma_leading_white(s.drop_first(), i - 1);
    }
}

/// Counting trailing white space stops at the last other character.
proof fn lemma_trailing_white(s: Seq<char>, j: int)
    requires
        0 <= j <= s.len(),
        forall|k: int| j <= k < s.len() ==> is_white_space(#[trigger] s[k]),
        j > 0 ==> !is_white_space(s[j - 1]),
    ensures
        trailing_white(s) == s.len() - j,
    decreases s.len() - j,
{
    if j < s.len() {
        lemma_trailing_white(s.drop_last(), j);
    }
}

/// Whether `c` is white space, as `char::is_whitespace` decides.
fn white(c: char) -> (r: bool)
    ensures
        r == is_white_space(c),
{
    let u = c as u32;
    (0x9 <= u && u <= 0xD) || u == 0x20 || u == 0x85 || u == 0xA0 || u == 0x1680 || (0x2000 <= u
        && u <= 0x200A) || u == 0x2028 || u == 0x2029 || u == 0x202F || u == 0x205F || u == 0x3000
}

/// Where the text of `chars` starts and ends once its white space is trimmed off.
fn trim_bounds(chars: &Vec<char>) -> (r: (usize, usize))
    ensures
        r.0 <= r.1 <= chars@.len(),
        chars@.subrange(r.0 as int, r.1 as int) == trimmed(chars@),
{
    let mut i: usize = 0;
    while i < chars.len() && white(chars[i])
        invariant
            i <= chars.len(),
            forall|k: int| 0 <= k < i ==> is_white_space(#[trigger] chars@[k]),
        decreases chars.len() - i,
    {
        i = i + 1;
    }
    proof {
        lemma_leading_white(chars@, i as int);
    }
    let mut j: usize = chars.len();
    while j > i && white(chars[j - 1])
        invariant
            i <= j <= chars.len(),
            forall|k: int| j <= k < chars@.len() ==> is_white_space(#[trigger] chars@[k]),
        decreases j,
    {
        j = j - 1;
    }
    proof {
        let t = chars@.skip(i as int);
        assert forall|k: int| j - i <= k < t.len() implies is_white_space(#[trigger] t[k]) by {
            assert(t[k] == chars@[k + i]);
        }
        if j > i {
            assert(t[j - i - 1] == chars@[j - 1]);
        }
        lemma_trailing_white(t, j - i);
        assert(chars@.subrange(i as int, j as int) =~= t.take(t.len() - trailing_white(t)));
    }
    (i, j)
}

/// Whether `s`, trimmed, is exactly the text of `word`.
fn trimmed_is(chars: &Vec<char>, word: &str) -> (r: bool)
    ensures
        r == (trimmed(chars@) == word@),
{
    let (lo, hi) = trim_bounds(chars);
    let w = chars_of(word);
    if hi - lo != w.len() {
        return false;
    }
    let mut k: usize = 0;
    while k < w.len()
        invariant
            lo <= hi <= chars@.len(),
            hi - lo == w@.len(),
            chars@.subrange(lo as int, hi as int) == trimmed(chars@),
            k <= w@.len(),
            w@ == word@,
            forall|m: int| 0 <= m < k ==> chars@[lo + m] == w@[m],
        decreases w.len() - k,
    {
        if chars[lo + k] != w[k] {
            proof {
                assert(chars@.subrange(lo as int, hi as int)[k as int] == chars@[lo + k]);
                assert(chars@.subrange(lo as int, hi as int)[k as int] != word@[k as int]);
                assert(trimmed(chars@) != word@);
            }
            return false;
        }
        k = k + 1;
    }
    proof {
        assert(chars@.subrange(lo as int, hi as int) =~= word@);
    }
    true
}

/// Whether the user's answer, trimmed, is `y`.
pub fn is_yes(answer: &str) -> (r: bool)
    ensures
        r == (trimmed(answer@) == seq!['y']),
{
    let chars = chars_of(answer);
    proof {
        reveal_strlit("y");
        assert("y"@ =~= seq!['y']);
    }
    trimmed_is(&chars, "y")
}

/// Whether the line typed at the prompt, trimmed, is `exit`, `quit` or `q`.
pub fn is_exit_command(line: &str) -> (r: bool)
    ensures
        r == (trimmed(line@) == seq!['e', 'x', 'i', 't'] || trimmed(line@) == seq!['q', 'u', 'i', 't']
            || trimmed(line@) == seq!['q']),
{
    let chars = chars_of(line);
    proof {
        reveal_strlit("exit");
        reveal_strlit("quit");
        reveal_strlit("q");
        assert("exit"@ =~= seq!['e', 'x', 'i', 't']);
        assert("quit"@ =~= seq!['q', 'u', 'i', 't']);
        assert("q"@ =~= seq!['q']);
    }
    trimmed_is(&chars, "exit") || trimmed_is(&chars, "quit") || trimmed_is(&chars, "q")
}

/// Whether two texts are the same.
pub fn same_text(a: &str, b: &str) -> (r: bool)
    ensures
        r == (a@ == b@),
{
    let x = chars_of(a);
    let y = chars_of(b);
    if x.len() != y.len() {
        return false;
    }
    let mut k: usize = 0;
    while k < x.len()
        invariant
            x@ == a@,
            y@ == b@,
            x@.len() == y@.len(),
            k <= x@.len(),
            forall|m: int| 0 <= m < k ==> x@[m] == y@[m],
        decreases x.len() - k,
    {
        if x[k] != y[k] {
            return false;
        }
        k = k + 1;
    }
    proof {
        assert(x@ =~= y@);
    }
    true
}

/// `a <= b` in the order of `str`'s `Ord`: character by character by code
/// point, a text before every longer text that it begins.
pub open spec fn text_le(a: Seq<char>, b: Seq<char>) -> bool
    decreases a.len(),
{
    if a.len() == 0 {
        true
    } else if b.len() == 0 {
        false
    } else if a[0] != b[0] {
        (a[0] as u32) < (b[0] as u32)
    } else {
        text_le(a.drop_first(), b.drop_first())
    }
}

/// `a` followed by `b`.
pub fn concat(a: &str, b: &str) -> (r: String)
    ensures
        r@ == a@ + b@,
{
    broadcast use vstd::string::group_string_axioms;
    let mut s = a.to_string();
    s.append(b);
    s
}

} // verus!
