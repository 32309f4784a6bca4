//! Decimal numerals: the text that Rust's integer `Display` prints and the
//! text that its integer `FromStr` accepts, stated over `Seq<char>`.
use vstd::prelude::*;
use vstd::std_specs::iter::IteratorSpec;

verus! {

/// Whether `c` is one of the ASCII digits `0`..`9`.
pub open spec fn is_digit(c: char) -> bool {
    '0' as int <= c as int && c as int <= '9' as int
}

/// The value of an ASCII digit.
pub open spec fn digit_value(c: char) -> int {
    c as int - '0' as int
}

/// The ASCII digit for a value below ten.
pub open spec fn digit_char(d: int) -> char {
    ('0' as int + d) as char
}

/// Every character of `s` is an ASCII digit.
pub open spec fn all_digits(s: Seq<char>) -> bool {
    forall|i: int| 0 <= i < s.len() ==> is_digit(#[trigger] s[i])
}

/// The value of a run of digits read most significant first.
pub open spec fn digits_value(s: Seq<char>) -> nat
    decreases s.len(),
{
    if s.len() == 0 {
        0
    } else {
        (digits_value(s.drop_last()) * 10 + digit_value(s.last())) as nat
    }
}

/// The integer that a decimal numeral denotes: an optional `+` or `-`, then
/// one or more digits. `None` for any other text.
pub open spec fn numeral_value(s: Seq<char>) -> Option<int> {
    let negative = s.len() > 0 && s[0] == '-';
    let signed = s.len() > 0 && (s[0] == '-' || s[0] == '+');
    let digits = if signed { s.drop_first() } else { s };
    if digits.len() == 0 || !all_digits(digits) {
        None
    } else if negative {
        Some(-(digits_value(digits) as int))
    } else {
        Some(digits_value(digits) as int)
    }
}

/// What `str::parse::<i32>` gives back: the numeral's value where it fits.
pub open spec fn parse_i32_spec(s: Seq<char>) -> Option<i32> {
    match numeral_value(s) {
        Some(v) => if i32::MIN <= v <= i32::MAX { Some(v as i32) } else { None },
        None => None,
    }
}

/// What `str::parse::<i128>` gives back: the numeral's value where it fits.
pub open spec fn parse_i128_spec(s: Seq<char>) -> Option<i128> {
    match numeral_value(s) {
        Some(v) => if i128::MIN <= v <= i128::MAX { Some(v as i128) } else { None },
        None => None,
    }
}

/// The digits of a natural number, most significant first, without leading zeros.
pub open spec fn decimal(n: nat) -> Seq<char>
    decreases n,
{
    if n < 10 {
        seq![digit_char(n as int)]
    } else {
        decimal(n / 10).push(digit_char((n % 10) as int))
    }
}

/// The text that integer `Display` prints: a `-` for negative values, then the digits.
pub open spec fn int_text(i: int) -> Seq<char> {
    if i < 0 {
        seq!['-'] + decimal((-i) as nat)
    } else {
        decimal(i as nat)
    }
}

/// The characters of a string slice, in order.
pub fn chars_of(s: &str) -> (v: Vec<char>)
    ensures
        v@ == s@,
{
    let mut v: Vec<char> = Vec::new();
    broadcast use vstd::string::group_string_axioms;
    for c in it: s.chars()
        invariant
            it.seq() == s@,
            v@ == s@.take(it.index() as int),
    {
        v.push(c);
    }
    v
}

/// `String::push`: appends one character at the end.
#[verifier::external_body]
pub(crate) fn push_char(s: &mut String, c: char)
    ensures
        final(s)@ == old(s)@.push(c),
{
    s.push(c);
}

/// Appending a digit multiplies the value by ten and adds the digit.
proof fn lemma_digits_value_push(s: Seq<char>, c: char)
    requires
        is_digit(c),
    ensures
        digits_value(s.push(c)) == digits_value(s) * 10 + digit_value(c),
{
    assert(s.push(c).drop_last() =~= s);
}

/// Appending digits never makes the value of a digit run smaller.
proof fn lemma_digits_value_prefix(s: Seq<char>, k: int)
    requires
        all_digits(s),
        0 <= k <= s.len(),
    ensures
        digits_value(s.take(k)) <= digits_value(s),
    decreases s.len() - k,
{
    if k < s.len() {
        lemma_digits_value_prefix(s, k + 1);
        assert(is_digit(s[k]));
        lemma_digits_value_push(s.take(k), s[k]);
        assert(s.take(k + 1) =~= s.take(k).push(s[k]));
    } else {
        assert(s.take(k) =~= s);
    }
}

/// The decimal digits of `n` are at least one digit, and read back as `n`.
proof fn lemma_decimal_digits(n: nat)
    ensures
        decimal(n).len() >= 1,
        all_digits(decimal(n)),
        digits_value(decimal(n)) == n,
    decreases n,
{
    if n >= 10 {
        lemma_decimal_digits(n / 10);
        lemma_digits_value_push(decimal(n / 10), digit_char((n % 10) as int));
        assert forall|i: int| 0 <= i < decimal(n).len() implies is_digit(#[trigger] decimal(n)[i]) by {
            if i < decimal(n / 10).len() {
                assert(decimal(n)[i] == decimal(n / 10)[i]);
            }
        }
    } else {
        lemma_digits_value_push(Seq::<char>::empty(), digit_char(n as int));
        assert(seq![digit_char(n as int)] =~= Seq::<char>::empty().push(digit_char(n as int)));
    }
}

/// Reading back the text that `Display` prints for an integer gives that integer.
pub proof fn lemma_numeral_of_int_text(i: int)
    ensures
        numeral_value(int_text(i)) == Some(i),
{
    if i < 0 {
        let d = decimal((-i) as nat);
        lemma_decimal_digits((-i) as nat);
        assert((seq!['-'] + d).drop_first() =~= d);
    } else {
        lemma_decimal_digits(i as nat);
        assert(is_digit(decimal(i as nat)[0]));
    }
}

/// Appends the decimal digits of `n` to `out`.
fn push_decimal(out: &mut String, n: u128)
    ensures
        final(out)@ == old(out)@ + decimal(n as nat),
    decreases n,
{
    if n >= 10 {
        push_decimal(out, n / 10);
    }
    let d: u8 = (n % 10) as u8;
    let c: char = (48u8 + d) as char;
    proof {
        assert(c == digit_char((n % 10) as int));
    }
    let ghost mid = out@;
    push_char(out, c);
    proof {
        if n >= 10 {
            assert(final(out)@ =~= old(out)@ + decimal(n as nat));
        } else {
            assert(final(out)@ =~= old(out)@ + decimal(n as nat));
        }
    }
}

/// Appends the text that integer `Display` prints for `i` to `out`.
pub(crate) fn push_int_text(out: &mut String, i: i128)
    ensures
        final(out)@ == old(out)@ + int_text(i as int),
{
    if i < 0 {
        push_char(out, '-');
        let magnitude: u128 = ((-(i + 1)) as u128) + 1;
        push_decimal(out, magnitude);
        proof {
            assert(final(out)@ =~= old(out)@ + int_text(i as int));
        }
    } else {
        push_decimal(out, i as u128);
    }
}

/// The text that integer `Display` prints for `i`.
pub fn int_to_text(i: i128) -> (r: String)
    ensures
        r@ == int_text(i as int),
{
    let mut out = String::new();
    push_int_text(&mut out, i);
    proof {
        assert(out@ =~= int_text(i as int));
    }
    out
}

/// The text that `Display` prints for an integer holds only digits and `-`.
pub proof fn lemma_int_text_chars(i: int)
    ensures
        int_text(i).len() >= 1,
        forall|k: int| 0 <= k < int_text(i).len() ==> #[trigger] int_text(i)[k] == '-' || is_digit(int_text(i)[k]),
{
    if i < 0 {
        lemma_decimal_digits((-i) as nat);
        let d = decimal((-i) as nat);
        assert forall|k: int| 0 <= k < int_text(i).len() implies #[trigger] int_text(i)[k] == '-' || is_digit(int_text(i)[k]) by {
            if k > 0 {
                assert(int_text(i)[k] == d[k - 1]);
            }
        }
    } else {
        lemma_decimal_digits(i as nat);
    }
}

/// Reads the digit run `chars[start..end]` as a number no larger than `limit`.
/// `None` where the run is empty, holds a non-digit, or exceeds `limit`.
fn digit_run_value(chars: &Vec<char>, start: usize, end: usize, limit: u128) -> (r: Option<u128>)
    requires
        start <= end <= chars.len(),
    ensures
        ({
            let run = chars@.subrange(start as int, end as int);
            r == if run.len() > 0 && all_digits(run) && digits_value(run) <= limit {
                Some(digits_value(run) as u128)
            } else {
                None
            }
        }),
{
    let ghost run = chars@.subrange(start as int, end as int);
    if start == end {
        return None;
    }
    let mut acc: u128 = 0;
    let mut i: usize = start;
    while i < end
        invariant
            start <= i <= end <= chars.len(),
            run == chars@.subrange(start as int, end as int),
            all_digits(chars@.subrange(start as int, i as int)),
            acc == digits_value(chars@.subrange(start as int, i as int)),
            acc <= limit,
        decreases end - i,
    {
        let c = chars[i];
        if !('0' <= c && c <= '9') {
            proof {
                assert(run[i - start] == c);
            }
            return None;
        }
        let d: u128 = ((c as u32) - 48) as u128;
        proof {
            let pre = chars@.subrange(start as int, i as int);
            lemma_digits_value_push(pre, c);
            assert(chars@.subrange(start as int, i + 1) =~= pre.push(c));
        }
        let next = match acc.checked_mul(10) {
            Some(m) => m.checked_add(d),
            None => None,
        };
        match next {
            Some(v) if v <= limit => {
                acc = v;
                i = i + 1;
            },
            _ => {
                proof {
                    let pre = chars@.subrange(start as int, i + 1);
                    if all_digits(run) {
                        assert(run.take(i + 1 - start) =~= pre);
                        lemma_digits_value_prefix(run, i + 1 - start);
                    }
                }
                return None;
            },
        }
    }
    proof {
        assert(chars@.subrange(start as int, i as int) =~= run);
    }
    Some(acc)
}

/// Splits off an optional sign of `chars[lo..hi]`: whether the numeral is
/// negative, and where its digits start.
fn sign_of(chars: &Vec<char>, lo: usize, hi: usize) -> (r: (bool, usize))
    requires
        lo <= hi <= chars.len(),
    ensures
        ({
            let s = chars@.subrange(lo as int, hi as int);
            &&& r.0 == (s.len() > 0 && s[0] == '-')
            &&& r.1 == if s.len() > 0 && (s[0] == '-' || s[0] == '+') { lo + 1 } else { lo as int }
        }),
{
    if lo < hi && chars[lo] == '-' {
        (true, lo + 1)
    } else if lo < hi && chars[lo] == '+' {
        (false, lo + 1)
    } else {
        (false, lo)
    }
}

/// The digits of a numeral within `chars` between `lo` and `hi` start after its sign.
proof fn lemma_digits_of_range(chars: Seq<char>, lo: int, hi: int, start: int)
    requires
        0 <= lo <= hi <= chars.len(),
        start == if chars.subrange(lo, hi).len() > 0 && (chars.subrange(lo, hi)[0] == '-'
            || chars.subrange(lo, hi)[0] == '+') { lo + 1 } else { lo },
    ensures
        ({
            let s = chars.subrange(lo, hi);
            let signed = s.len() > 0 && (s[0] == '-' || s[0] == '+');
            chars.subrange(start, hi) == if signed { s.drop_first() } else { s }
        }),
{
    let s = chars.subrange(lo, hi);
    if s.len() > 0 && (s[0] == '-' || s[0] == '+') {
        assert(chars.subrange(start, hi) =~= s.drop_first());
    } else {
        assert(chars.subrange(start, hi) =~= s);
    }
}

/// `str::parse::<i32>` applied to the text `chars[lo..hi]`.
pub fn parse_i32_range(chars: &Vec<char>, lo: usize, hi: usize) -> (r: Option<i32>)
    requires
        lo <= hi <= chars.len(),
    ensures
        r == parse_i32_spec(chars@.subrange(lo as int, hi as int)),
{
    let (negative, start) = sign_of(chars, lo, hi);
    proof {
        lemma_digits_of_range(chars@, lo as int, hi as int, start as int);
    }
    let limit: u128 = if negative { 0x8000_0000 } else { 0x7fff_ffff };
    match digit_run_value(chars, start, hi, limit) {
        Some(v) => {
            if negative {
                Some((-(v as i64)) as i32)
            } else {
                Some(v as i32)
            }
        },
        None => None,
    }
}

/// `str::parse::<i128>` applied to the text `chars[lo..hi]`.
pub fn parse_i128_range(chars: &Vec<char>, lo: usize, hi: usize) -> (r: Option<i128>)
    requires
        lo <= hi <= chars.len(),
    ensures
        r == parse_i128_spec(chars@.subrange(lo as int, hi as int)),
{
    let (negative, start) = sign_of(chars, lo, hi);
    proof {
        lemma_digits_of_range(chars@, lo as int, hi as int, start as int);
    }
    let limit: u128 = if negative {
        0x8000_0000_0000_0000_0000_0000_0000_0000
    } else {
        0x7fff_ffff_ffff_ffff_ffff_ffff_ffff_ffff
    };
    match digit_run_value(chars, start, hi, limit) {
        Some(v) => {
            if negative {
                if v == 0x8000_0000_0000_0000_0000_0000_0000_0000 {
                    Some(i128::MIN)
                } else {
                    Some(-(v as i128))
                }
            } else {
                Some(v as i128)
            }
        },
        None => None,
    }
}

/// `str::parse::<i32>`: the value of a decimal numeral that fits in an `i32`.
pub fn parse_i32(s: &str) -> (r: Option<i32>)
    ensures
        r == parse_i32_spec(s@),
{
    let chars = chars_of(s);
    proof {
        assert(chars@.subrange(0, chars@.len() as int) =~= s@);
    }
    parse_i32_range(&chars, 0, chars.len())
}

/// `str::parse::<i128>`: the value of a decimal numeral that fits in an `i128`.
pub fn parse_i128(s: &str) -> (r: Option<i128>)
    ensures
        r == parse_i128_spec(s@),
{
    let chars = chars_of(s);
    proof {
        assert(chars@.subrange(0, chars@.len() as int) =~= s@);
    }
    parse_i128_range(&chars, 0, chars.len())
}

} // verus!
