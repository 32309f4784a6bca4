//! Exact fractions of two `i32`s, kept in lowest terms by `reduce`.
use vstd::prelude::*;
use vstd::arithmetic::div_mod::{lemma_fundamental_div_mod, lemma_div_by_multiple, lemma_mod_bound};
use crate::numeral::{chars_of, int_text, is_digit, lemma_int_text_chars, lemma_numeral_of_int_text, parse_i32_range, parse_i32_spec, push_char, push_int_text};

verus! {

/// Absolute value over the integers.
pub open spec fn iabs(a: int) -> int {
    if a < 0 { -a } else { a }
}

/// Remainder of Rust's integer `%`: it takes the sign of the dividend.
pub open spec fn trem(a: int, b: int) -> int {
    if a >= 0 { a % iabs(b) } else { -((-a) % iabs(b)) }
}

/// Quotient of Rust's integer `/`: it rounds toward zero.
pub open spec fn tdiv(a: int, b: int) -> int {
    if (a >= 0) == (b > 0) { iabs(a) / iabs(b) } else { -(iabs(a) / iabs(b)) }
}

/// Whether `x` is a value of type `i32`.
pub open spec fn fits_i32(x: int) -> bool {
    i32::MIN <= x <= i32::MAX
}

/// Euclid's algorithm exactly as `Rational::gcd` runs it, on Rust's remainder.
/// The sign of the result follows the last non-zero remainder.
pub open spec fn gcd_spec(a: int, b: int) -> int
    decreases iabs(b),
{
    if b == 0 {
        a
    } else {
        proof {
            lemma_trem_div(a, b);
        }
        gcd_spec(b, trem(a, b))
    }
}

/// `Rational::gcd` on these arguments computes no remainder that overflows.
pub open spec fn gcd_defined(a: int, b: int) -> bool {
    !(a == i32::MIN && b == -1) && !(a == -1 && b == i32::MIN)
}

/// Division and remainder of Rust's integers: `a == (a / b) * b + a % b`,
/// and the remainder is smaller than the divisor in magnitude.
pub proof fn lemma_trem_div(a: int, b: int)
    requires
        b != 0,
    ensures
        a == tdiv(a, b) * b + trem(a, b),
        iabs(trem(a, b)) < iabs(b),
        iabs(tdiv(a, b)) <= iabs(a),
        a >= 0 ==> trem(a, b) >= 0,
        a < 0 ==> trem(a, b) <= 0,
{
    let x = iabs(a);
    let d = iabs(b);
    lemma_fundamental_div_mod(x, d);
    lemma_mod_bound(x, d);
    let q = x / d;
    let r = x % d;
    assert(q >= 0) by (nonlinear_arith)
        requires x == d * q + r, 0 <= r < d, x >= 0;
    assert(q <= x) by (nonlinear_arith)
        requires x == d * q + r, 0 <= r, d >= 1, q >= 0;
    if a >= 0 && b > 0 {
        assert(a == q * b + r) by (nonlinear_arith)
            requires x == d * q + r, a == x, b == d;
    } else if a >= 0 {
        assert(a == (-q) * b + r) by (nonlinear_arith)
            requires x == d * q + r, a == x, b == -d;
    } else if b > 0 {
        assert(a == (-q) * b + (-r)) by (nonlinear_arith)
            requires x == d * q + r, a == -x, b == d;
    } else {
        assert(a == q * b + (-r)) by (nonlinear_arith)
            requires x == d * q + r, a == -x, b == -d;
    }
}

/// Rust's `/` leaves no remainder when the divisor divides the dividend.
pub proof fn lemma_tdiv_exact(x: int, g: int, k: int)
    requires
        g != 0,
        x == k * g,
    ensures
        tdiv(x, g) == k,
{
    let kk = iabs(k);
    let gg = iabs(g);
    assert(iabs(x) == kk * gg) by (nonlinear_arith)
        requires x == k * g, kk == iabs(k), gg == iabs(g);
    lemma_div_by_multiple(kk, gg);
    assert(x > 0 ==> (k > 0) == (g > 0)) by (nonlinear_arith)
        requires x == k * g, g != 0;
    assert(x < 0 ==> (k > 0) == (g < 0)) by (nonlinear_arith)
        requires x == k * g, g != 0;
    assert(x == 0 ==> k == 0) by (nonlinear_arith)
        requires x == k * g, g != 0;
}

/// The result of `gcd_spec` is zero only when both arguments are.
pub proof fn lemma_gcd_zero(a: int, b: int)
    ensures
        (gcd_spec(a, b) == 0) == (a == 0 && b == 0),
    decreases iabs(b),
{
    if b != 0 {
        lemma_trem_div(a, b);
        lemma_gcd_zero(b, trem(a, b));
    }
}

/// `gcd_spec(a, b)` divides both `a` and `b`: the cofactors are returned.
pub proof fn lemma_gcd_divides(a: int, b: int) -> (k: (int, int))
    ensures
        k.0 * gcd_spec(a, b) == a,
        k.1 * gcd_spec(a, b) == b,
    decreases iabs(b),
{
    if b == 0 {
        assert(gcd_spec(a, b) == a);
        assert(1 * a == a && 0 * a == 0) by (nonlinear_arith);
        (1, 0)
    } else {
        lemma_trem_div(a, b);
        let r = trem(a, b);
        let g = gcd_spec(b, r);
        let kk = lemma_gcd_divides(b, r);
        assert(gcd_spec(a, b) == g);
        let q = tdiv(a, b);
        assert((q * kk.0 + kk.1) * g == a) by (nonlinear_arith)
            requires a == q * b + r, kk.0 * g == b, kk.1 * g == r;
        assert(kk.0 * gcd_spec(a, b) == b);
        (q * kk.0 + kk.1, kk.0)
    }
}

/// Every common divisor `d` of `a` and `b` divides `gcd_spec(a, b)`, so no
/// common divisor is larger in magnitude: `iabs(gcd_spec(a, b))` is the greatest
/// common divisor of `a` and `b`. The quotient is returned.
pub proof fn lemma_gcd_greatest(a: int, b: int, d: int, ka: int, kb: int) -> (k: int)
    requires
        d * ka == a,
        d * kb == b,
    ensures
        d * k == gcd_spec(a, b),
        gcd_spec(a, b) != 0 ==> iabs(d) <= iabs(gcd_spec(a, b)),
    decreases iabs(b),
{
    let k = if b == 0 {
        ka
    } else {
        lemma_trem_div(a, b);
        let q = tdiv(a, b);
        let r = trem(a, b);
        assert(d * (ka - q * kb) == r) by (nonlinear_arith)
            requires d * ka == a, d * kb == b, a == q * b + r;
        lemma_gcd_greatest(b, r, d, kb, ka - q * kb)
    };
    let g = gcd_spec(a, b);
    assert(g != 0 ==> iabs(d) <= iabs(g)) by (nonlinear_arith)
        requires d * k == g;
    k
}

/// Scaling both arguments by `c` scales the result of `gcd_spec` by `c`.
proof fn lemma_gcd_scale(x: int, y: int, c: int)
    requires
        c != 0,
    ensures
        gcd_spec(x * c, y * c) == c * gcd_spec(x, y),
    decreases iabs(y),
{
    if y == 0 {
        assert(y * c == 0);
        assert(x * c == c * x) by (nonlinear_arith);
    } else {
        assert(y * c != 0) by (nonlinear_arith)
            requires y != 0, c != 0;
        lemma_trem_div(x, y);
        lemma_trem_div(x * c, y * c);
        let q = tdiv(x, y);
        let r = trem(x, y);
        assert(x * c == q * (y * c) + c * r) by (nonlinear_arith)
            requires x == q * y + r;
        assert(iabs(c * r) < iabs(y * c)) by (nonlinear_arith)
            requires iabs(r) < iabs(y), c != 0,
                iabs(r) == if r < 0 { -r } else { r },
                iabs(y) == if y < 0 { -y } else { y },
                iabs(c * r) == if c * r < 0 { -(c * r) } else { c * r },
                iabs(y * c) == if y * c < 0 { -(y * c) } else { y * c };
        if x == 0 {
            vstd::arithmetic::div_mod::lemma_small_mod(0, iabs(y) as nat);
        }
        assert(x == 0 ==> r == 0);
        assert(x * c >= 0 ==> c * r >= 0) by (nonlinear_arith)
            requires x >= 0 ==> r >= 0, x < 0 ==> r <= 0, x == 0 ==> r == 0, c != 0;
        assert(x * c < 0 ==> c * r <= 0) by (nonlinear_arith)
            requires x >= 0 ==> r >= 0, x < 0 ==> r <= 0, c != 0;
        lemma_trem_unique(x * c, y * c, q, c * r);
        assert(trem(x * c, y * c) == c * r);
        lemma_gcd_scale(y, r, c);
        assert(r * c == c * r) by (nonlinear_arith);
    }
}

/// The remainder of Rust's `%` is the one remainder with the sign of the dividend
/// that is smaller than the divisor in magnitude.
proof fn lemma_trem_unique(a: int, b: int, q: int, r: int)
    requires
        b != 0,
        a == q * b + r,
        iabs(r) < iabs(b),
        a >= 0 ==> r >= 0,
        a < 0 ==> r <= 0,
    ensures
        trem(a, b) == r,
{
    lemma_trem_div(a, b);
    let q2 = tdiv(a, b);
    let r2 = trem(a, b);
    assert((q - q2) * b == r2 - r) by (nonlinear_arith)
        requires a == q * b + r, a == q2 * b + r2;
    assert(iabs(r2 - r) < iabs(b));
    assert(q == q2) by (nonlinear_arith)
        requires (q - q2) * b == r2 - r, iabs(r2 - r) < iabs(b), b != 0,
            iabs(r2 - r) == if r2 - r < 0 { -(r2 - r) } else { r2 - r },
            iabs(b) == if b < 0 { -b } else { b };
}

/// Rust's `%` on two `i32`s, where it does not overflow.
fn remainder(a: i32, b: i32) -> (r: i32)
    requires
        b != 0,
        !(a == i32::MIN && b == -1),
    ensures
        r == trem(a as int, b as int),
{
    match a.checked_rem(b) {
        Some(r) => r,
        None => 0,
    }
}

/// Rust's `/` on two `i32`s, where it does not overflow.
fn quotient(a: i32, b: i32) -> (q: i32)
    requires
        b != 0,
        !(a == i32::MIN && b == -1),
    ensures
        q == tdiv(a as int, b as int),
{
    proof {
        lemma_trem_div(a as int, b as int);
        let x = iabs(a as int);
        let d = iabs(b as int);
        if d >= 2 {
            lemma_fundamental_div_mod(x, d);
            lemma_mod_bound(x, d);
            assert(x / d <= x / 2) by (nonlinear_arith)
                requires x == d * (x / d) + x % d, 0 <= x % d, d >= 2, x / d >= 0;
        }
    }
    match a.checked_div(b) {
        Some(q) => q,
        None => 0,
    }
}

/// An exact fraction `num / den` of two machine integers.
#[derive(Clone, Copy, Debug, PartialEq, Eq, Structural)]
pub struct Rational {
    pub num: i32,
    pub den: i32,
}

/// `Rational::reduce` runs without overflow or division by zero on `r`.
pub open spec fn can_reduce(r: Rational) -> bool {
    let g = gcd_spec(r.num as int, r.den as int);
    &&& gcd_defined(r.num as int, r.den as int)
    &&& g != 0
    &&& !(r.num == i32::MIN && g == -1)
    &&& !(r.den == i32::MIN && g == -1)
}

/// `r` with numerator and denominator divided by their `gcd_spec`.
pub open spec fn reduced(r: Rational) -> Rational {
    let g = gcd_spec(r.num as int, r.den as int);
    Rational { num: tdiv(r.num as int, g) as i32, den: tdiv(r.den as int, g) as i32 }
}

/// `a` and `b` stand for the same fraction: `a.num / a.den == b.num / b.den`.
pub open spec fn same_value(a: Rational, b: Rational) -> bool {
    a.num * b.den == b.num * a.den
}

/// Reducing divides numerator and denominator exactly by their gcd.
pub proof fn lemma_reduced_exact(r: Rational)
    requires
        can_reduce(r),
    ensures
        reduced(r).num * gcd_spec(r.num as int, r.den as int) == r.num,
        reduced(r).den * gcd_spec(r.num as int, r.den as int) == r.den,
{
    let g = gcd_spec(r.num as int, r.den as int);
    let k = lemma_gcd_divides(r.num as int, r.den as int);
    lemma_tdiv_exact(r.num as int, g, k.0);
    lemma_tdiv_exact(r.den as int, g, k.1);
    lemma_trem_div(r.num as int, g);
    lemma_trem_div(r.den as int, g);
    if r.num == i32::MIN {
        assert(g != -1);
    }
    assert(fits_i32(k.0)) by (nonlinear_arith)
        requires k.0 * g == r.num, g != 0, !(r.num == i32::MIN && g == -1), g == 1 || g == -1 || iabs(g) >= 2,
            fits_i32(r.num as int);
    assert(fits_i32(k.1)) by (nonlinear_arith)
        requires k.1 * g == r.den, g != 0, !(r.den == i32::MIN && g == -1), g == 1 || g == -1 || iabs(g) >= 2,
            fits_i32(r.den as int);
}

/// Reducing a fraction does not change the number it stands for.
pub proof fn lemma_reduce_keeps_value(r: Rational)
    requires
        can_reduce(r),
    ensures
        same_value(reduced(r), r),
{
    let g = gcd_spec(r.num as int, r.den as int);
    lemma_reduced_exact(r);
    let n = reduced(r).num as int;
    let d = reduced(r).den as int;
    assert(n * (d * g) == (n * g) * d) by (nonlinear_arith);
}

/// Reducing twice is reducing once: a reduced fraction can be reduced again,
/// and reducing it changes nothing.
pub proof fn lemma_reduced_idempotent(r: Rational)
    requires
        can_reduce(r),
    ensures
        can_reduce(reduced(r)),
        reduced(reduced(r)) == reduced(r),
{
    let g = gcd_spec(r.num as int, r.den as int);
    lemma_reduced_exact(r);
    let n = reduced(r).num as int;
    let d = reduced(r).den as int;
    lemma_gcd_scale(n, d, g);
    assert(gcd_spec(n, d) == 1) by (nonlinear_arith)
        requires g * gcd_spec(n, d) == g, g != 0;
    lemma_tdiv_exact(n, 1, n);
    lemma_tdiv_exact(d, 1, d);
    if n == i32::MIN && d == -1 {
        reveal_with_fuel(gcd_spec, 3);
        assert(trem(n, d) == 0);
        assert(gcd_spec(n, d) == -1);
    }
    if n == -1 && d == i32::MIN {
        reveal_with_fuel(gcd_spec, 3);
        assert(trem(n, d) == -1);
        assert(trem(d, -1) == 0);
        assert(gcd_spec(n, d) == -1);
    }
}

impl Rational {
    /// The fraction `num / den`, taken as it is.
    pub fn new(num: i32, den: i32) -> (r: Rational)
        ensures
            r.num == num,
            r.den == den,
    {
        Rational { num, den }
    }

    /// The whole number `i`, as `i / 1`.
    pub fn from_int(i: i32) -> (r: Rational)
        ensures
            r.num == i,
            r.den == 1,
    {
        Rational { num: i, den: 1 }
    }

    /// Euclid's algorithm on Rust's remainder: `gcd(a, 0) == a`, otherwise
    /// `gcd(b, a % b)`.
    pub fn gcd(a: i32, b: i32) -> (r: i32)
        requires
            gcd_defined(a as int, b as int),
        ensures
            r == gcd_spec(a as int, b as int),
        decreases iabs(b as int),
    {
        if b == 0 {
            a
        } else {
            let r = remainder(a, b);
            proof {
                lemma_trem_div(a as int, b as int);
            }
            Rational::gcd(b, r)
        }
    }

    /// Divides numerator and denominator by their `gcd`.
    pub fn reduce(&mut self)
        requires
            can_reduce(*old(self)),
        ensures
            *final(self) == reduced(*old(self)),
    {
        let g = Rational::gcd(self.num, self.den);
        proof {
            lemma_reduced_exact(*self);
        }
        self.num = quotient(self.num, g);
        self.den = quotient(self.den, g);
    }

    /// A reduced copy of the fraction.
    pub fn pure_reduce(&self) -> (r: Rational)
        requires
            can_reduce(*self),
        ensures
            r == reduced(*self),
    {
        let mut r = *self;
        r.reduce();
        r
    }
}

/// The fraction `n / d`, for two integers that fit in an `i32`.
pub open spec fn fraction(n: int, d: int) -> Rational {
    Rational { num: n as i32, den: d as i32 }
}

/// `a + b` runs without overflow: the products, the sum and the reduction fit.
pub open spec fn add_ok(a: Rational, b: Rational) -> bool {
    let n = a.num * b.den + a.den * b.num;
    let d = a.den * b.den;
    &&& fits_i32(a.num * b.den) &&& fits_i32(a.den * b.num)
    &&& fits_i32(n) &&& fits_i32(d)
    &&& can_reduce(fraction(n, d))
}

/// `a - b` runs without overflow.
pub open spec fn sub_ok(a: Rational, b: Rational) -> bool {
    let n = a.num * b.den - a.den * b.num;
    let d = a.den * b.den;
    &&& fits_i32(a.num * b.den) &&& fits_i32(a.den * b.num)
    &&& fits_i32(n) &&& fits_i32(d)
    &&& can_reduce(fraction(n, d))
}

/// `a * b` runs without overflow.
pub open spec fn mul_ok(a: Rational, b: Rational) -> bool {
    let n = a.num * b.num;
    let d = a.den * b.den;
    &&& fits_i32(n) &&& fits_i32(d)
    &&& can_reduce(fraction(n, d))
}

/// `a / b` runs without overflow.
pub open spec fn div_ok(a: Rational, b: Rational) -> bool {
    let n = a.num * b.den;
    let d = a.den * b.num;
    &&& fits_i32(n) &&& fits_i32(d)
    &&& can_reduce(fraction(n, d))
}

/// What `a + b` gives: `(a.num * b.den + a.den * b.num) / (a.den * b.den)`, reduced.
pub open spec fn add_result(a: Rational, b: Rational) -> Rational {
    reduced(fraction(a.num * b.den + a.den * b.num, a.den * b.den))
}

/// What `a - b` gives: `(a.num * b.den - a.den * b.num) / (a.den * b.den)`, reduced.
pub open spec fn sub_result(a: Rational, b: Rational) -> Rational {
    reduced(fraction(a.num * b.den - a.den * b.num, a.den * b.den))
}

/// What `a * b` gives: `(a.num * b.num) / (a.den * b.den)`, reduced.
pub open spec fn mul_result(a: Rational, b: Rational) -> Rational {
    reduced(fraction(a.num * b.num, a.den * b.den))
}

/// What `a / b` gives: `(a.num * b.den) / (a.den * b.num)`, reduced.
pub open spec fn div_result(a: Rational, b: Rational) -> Rational {
    reduced(fraction(a.num * b.den, a.den * b.num))
}

impl core::ops::Add for Rational {
    type Output = Rational;

    fn add(self, other: Rational) -> (r: Rational)
        ensures
            r == add_result(self, other),
    {
        Rational {
            num: self.num * other.den + self.den * other.num,
            den: self.den * other.den,
        }.pure_reduce()
    }
}

impl vstd::std_specs::ops::AddSpecImpl for Rational {
    open spec fn obeys_add_spec() -> bool {
        true
    }

    open spec fn add_req(self, rhs: Rational) -> bool {
        add_ok(self, rhs)
    }

    open spec fn add_spec(self, rhs: Rational) -> Rational {
        add_result(self, rhs)
    }
}

impl core::ops::Sub for Rational {
    type Output = Rational;

    fn sub(self, other: Rational) -> (r: Rational)
        ensures
            r == sub_result(self, other),
    {
        Rational {
            num: self.num * other.den - self.den * other.num,
            den: self.den * other.den,
        }.pure_reduce()
    }
}

impl vstd::std_specs::ops::SubSpecImpl for Rational {
    open spec fn obeys_sub_spec() -> bool {
        true
    }

    open spec fn sub_req(self, rhs: Rational) -> bool {
        sub_ok(self, rhs)
    }

    open spec fn sub_spec(self, rhs: Rational) -> Rational {
        sub_result(self, rhs)
    }
}

impl core::ops::Mul for Rational {
    type Output = Rational;

    fn mul(self, other: Rational) -> (r: Rational)
        ensures
            r == mul_result(self, other),
    {
        Rational { num: self.num * other.num, den: self.den * other.den }.pure_reduce()
    }
}

impl vstd::std_specs::ops::MulSpecImpl for Rational {
    open spec fn obeys_mul_spec() -> bool {
        true
    }

    open spec fn mul_req(self, rhs: Rational) -> bool {
        mul_ok(self, rhs)
    }

    open spec fn mul_spec(self, rhs: Rational) -> Rational {
        mul_result(self, rhs)
    }
}

impl core::ops::Div for Rational {
    type Output = Rational;

    fn div(self, other: Rational) -> (r: Rational)
        ensures
            r == div_result(self, other),
    {
        Rational { num: self.num * other.den, den: self.den * other.num }.pure_reduce()
    }
}

impl vstd::std_specs::ops::DivSpecImpl for Rational {
    open spec fn obeys_div_spec() -> bool {
        true
    }

    open spec fn div_req(self, rhs: Rational) -> bool {
        div_ok(self, rhs)
    }

    open spec fn div_spec(self, rhs: Rational) -> Rational {
        div_result(self, rhs)
    }
}

/// Addition is exact: `a + b` stands for `a.num / a.den + b.num / b.den`,
/// written with the common denominator `a.den * b.den`.
pub proof fn lemma_add_is_sum(a: Rational, b: Rational)
    requires
        add_ok(a, b),
    ensures
        add_result(a, b).num * (a.den * b.den) == add_result(a, b).den * (a.num * b.den + a.den * b.num),
{
    let f = fraction(a.num * b.den + a.den * b.num, a.den * b.den);
    lemma_reduce_keeps_value(f);
    let r = reduced(f);
    assert(f.num == a.num * b.den + a.den * b.num && f.den == a.den * b.den);
    assert(r.num * (a.den * b.den) == r.den * (a.num * b.den + a.den * b.num)) by (nonlinear_arith)
        requires r.num * f.den == f.num * r.den, f.num == a.num * b.den + a.den * b.num, f.den == a.den * b.den;
}

/// Subtraction is exact: `a - b` stands for `a.num / a.den - b.num / b.den`.
pub proof fn lemma_sub_is_difference(a: Rational, b: Rational)
    requires
        sub_ok(a, b),
    ensures
        sub_result(a, b).num * (a.den * b.den) == sub_result(a, b).den * (a.num * b.den - a.den * b.num),
{
    let f = fraction(a.num * b.den - a.den * b.num, a.den * b.den);
    lemma_reduce_keeps_value(f);
    let r = reduced(f);
    assert(f.num == a.num * b.den - a.den * b.num && f.den == a.den * b.den);
    assert(r.num * (a.den * b.den) == r.den * (a.num * b.den - a.den * b.num)) by (nonlinear_arith)
        requires r.num * f.den == f.num * r.den, f.num == a.num * b.den - a.den * b.num, f.den == a.den * b.den;
}

/// Multiplication is exact: `a * b` stands for `(a.num * b.num) / (a.den * b.den)`.
pub proof fn lemma_mul_is_product(a: Rational, b: Rational)
    requires
        mul_ok(a, b),
    ensures
        mul_result(a, b).num * (a.den * b.den) == mul_result(a, b).den * (a.num * b.num),
{
    let f = fraction(a.num * b.num, a.den * b.den);
    lemma_reduce_keeps_value(f);
    let r = reduced(f);
    assert(f.num == a.num * b.num && f.den == a.den * b.den);
    assert(r.num * (a.den * b.den) == r.den * (a.num * b.num)) by (nonlinear_arith)
        requires r.num * f.den == f.num * r.den, f.num == a.num * b.num, f.den == a.den * b.den;
}

/// Division is exact: `a / b` stands for `(a.num * b.den) / (a.den * b.num)`.
pub proof fn lemma_div_is_quotient(a: Rational, b: Rational)
    requires
        div_ok(a, b),
    ensures
        div_result(a, b).num * (a.den * b.num) == div_result(a, b).den * (a.num * b.den),
{
    let f = fraction(a.num * b.den, a.den * b.num);
    lemma_reduce_keeps_value(f);
    let r = reduced(f);
    assert(f.num == a.num * b.den && f.den == a.den * b.num);
    assert(r.num * (a.den * b.num) == r.den * (a.num * b.den)) by (nonlinear_arith)
        requires r.num * f.den == f.num * r.den, f.num == a.num * b.den, f.den == a.den * b.num;
}

/// `a + b` and `b + a` are the same fraction, and one overflows exactly when the other does.
pub proof fn lemma_add_commutes(a: Rational, b: Rational)
    ensures
        add_ok(a, b) == add_ok(b, a),
        add_result(a, b) == add_result(b, a),
{
    assert(a.num * b.den + a.den * b.num == b.num * a.den + b.den * a.num) by (nonlinear_arith);
    assert(a.den * b.den == b.den * a.den) by (nonlinear_arith);
}

/// `a * b` and `b * a` are the same fraction, and one overflows exactly when the other does.
pub proof fn lemma_mul_commutes(a: Rational, b: Rational)
    ensures
        mul_ok(a, b) == mul_ok(b, a),
        mul_result(a, b) == mul_result(b, a),
{
    assert(a.num * b.num == b.num * a.num) by (nonlinear_arith);
    assert(a.den * b.den == b.den * a.den) by (nonlinear_arith);
}

/// A fraction with a non-zero denominator minus itself is `0 / 1`.
pub proof fn lemma_sub_self_is_zero(a: Rational)
    requires
        a.den != 0,
        sub_ok(a, a),
    ensures
        sub_result(a, a) == (Rational { num: 0, den: 1 }),
{
    let d = a.den * a.den;
    assert(a.num * a.den - a.den * a.num == 0) by (nonlinear_arith);
    assert(d > 0) by (nonlinear_arith)
        requires a.den != 0, d == a.den * a.den;
    lemma_trem_div(0, d);
    assert(trem(0, d) == 0);
    assert(gcd_spec(0, d) == gcd_spec(d, 0));
    lemma_tdiv_exact(0, d, 0);
    lemma_tdiv_exact(d, d, 1);
}

/// A fraction with a non-zero numerator and denominator divided by itself is `1 / 1`.
pub proof fn lemma_div_self_is_one(a: Rational)
    requires
        a.num != 0,
        a.den != 0,
        div_ok(a, a),
    ensures
        div_result(a, a) == (Rational { num: 1, den: 1 }),
{
    let n = a.num * a.den;
    assert(a.den * a.num == n) by (nonlinear_arith)
        requires n == a.num * a.den;
    assert(n != 0) by (nonlinear_arith)
        requires a.num != 0, a.den != 0, n == a.num * a.den;
    lemma_trem_div(n, n);
    lemma_tdiv_exact(n, n, 1);
    assert(trem(n, n) == 0) by (nonlinear_arith)
        requires n == tdiv(n, n) * n + trem(n, n), tdiv(n, n) == 1;
    assert(gcd_spec(n, n) == gcd_spec(n, 0));
}

/// Adding `0 / 1` on the left reduces the other operand and changes nothing else.
pub proof fn lemma_zero_add(a: Rational)
    requires
        can_reduce(a),
    ensures
        add_ok((Rational { num: 0, den: 1 }), a),
        add_result((Rational { num: 0, den: 1 }), a) == reduced(a),
{
    let z = Rational { num: 0, den: 1 };
    assert(z.num * a.den + z.den * a.num == a.num);
    assert(z.den * a.den == a.den);
    assert(fraction(a.num as int, a.den as int) == a);
}

/// The text `Rational::to_string` prints: numerator, `%`, denominator.
pub open spec fn rational_text(r: Rational) -> Seq<char> {
    int_text(r.num as int) + seq!['%'] + int_text(r.den as int)
}

/// The first position at or after `from` where `s` holds `c`; `s.len()` if there is none.
pub open spec fn index_of(s: Seq<char>, c: char, from: int) -> int
    decreases s.len() - from,
{
    if from >= s.len() {
        s.len() as int
    } else if s[from] == c {
        from
    } else {
        index_of(s, c, from + 1)
    }
}

/// What `Rational::from_string` gives for the text `s`: the text before the first
/// `%` and the text between it and the next `%` (or the end) read as `i32`s.
pub open spec fn from_string_spec(s: Seq<char>) -> Result<Rational, Seq<char>> {
    let i = index_of(s, '%', 0);
    if i >= s.len() {
        Err("no parse"@)
    } else {
        let j = index_of(s, '%', i + 1);
        match (parse_i32_spec(s.subrange(0, i)), parse_i32_spec(s.subrange(i + 1, j))) {
            (Some(_), Some(d)) if d == 0 => Err("Cannot divide by zero"@),
            (Some(n), Some(d)) => Ok(Rational { num: n, den: d }),
            _ => Err("no parse"@),
        }
    }
}

/// The search for `c` stops within the text, at `c`, past no other `c`.
proof fn lemma_index_of_bounds(s: Seq<char>, c: char, from: int)
    requires
        0 <= from,
    ensures
        from <= index_of(s, c, from) <= s.len() || (from > s.len() && index_of(s, c, from) == s.len()),
        index_of(s, c, from) < s.len() ==> s[index_of(s, c, from)] == c,
        forall|k: int| from <= k < index_of(s, c, from) ==> s[k] != c,
    decreases s.len() - from,
{
    if from < s.len() && s[from] != c {
        lemma_index_of_bounds(s, c, from + 1);
    }
}

/// The search for `c` stops at the first `c` from where it starts.
proof fn lemma_index_of_found(s: Seq<char>, c: char, from: int, at: int)
    requires
        0 <= from <= at <= s.len(),
        at < s.len() ==> s[at] == c,
        forall|k: int| from <= k < at ==> s[k] != c,
    ensures
        index_of(s, c, from) == at,
    decreases at - from,
{
    if from < at {
        lemma_index_of_found(s, c, from + 1, at);
    }
}

/// The first position at or after `from` where `chars` holds `c`, or its length.
fn find_char(chars: &Vec<char>, c: char, from: usize) -> (r: usize)
    requires
        from <= chars.len(),
    ensures
        r == index_of(chars@, c, from as int),
{
    let mut i = from;
    while i < chars.len() && chars[i] != c
        invariant
            from <= i <= chars.len(),
            forall|k: int| from <= k < i ==> chars@[k] != c,
        decreases chars.len() - i,
    {
        i = i + 1;
    }
    proof {
        lemma_index_of_found(chars@, c, from as int, i as int);
    }
    i
}

/// Printing a fraction and reading the text back gives the same fraction,
/// for every fraction whose denominator is not zero.
pub proof fn lemma_text_round_trip(r: Rational)
    requires
        r.den != 0,
    ensures
        from_string_spec(rational_text(r)) == Ok::<Rational, Seq<char>>(r),
{
    let a = int_text(r.num as int);
    let b = int_text(r.den as int);
    let s = rational_text(r);
    lemma_int_text_chars(r.num as int);
    lemma_int_text_chars(r.den as int);
    assert(s[a.len() as int] == '%');
    assert forall|k: int| 0 <= k < a.len() implies s[k] != '%' by {
        assert(s[k] == a[k]);
        assert(a[k] == '-' || is_digit(a[k]));
    }
    lemma_index_of_found(s, '%', 0, a.len() as int);
    assert forall|k: int| a.len() + 1 <= k < s.len() implies s[k] != '%' by {
        assert(s[k] == b[k - a.len() - 1]);
        assert(b[k - a.len() - 1] == '-' || is_digit(b[k - a.len() - 1]));
    }
    lemma_index_of_found(s, '%', (a.len() + 1) as int, s.len() as int);
    assert(s.subrange(0, a.len() as int) =~= a);
    assert(s.subrange((a.len() + 1) as int, s.len() as int) =~= b);
    lemma_numeral_of_int_text(r.num as int);
    lemma_numeral_of_int_text(r.den as int);
}

impl Rational {
    /// The text `num%den`, each part as integer `Display` prints it.
    pub fn to_string(&self) -> (r: String)
        ensures
            r@ == rational_text(*self),
    {
        let mut out = String::new();
        push_int_text(&mut out, self.num as i128);
        push_char(&mut out, '%');
        push_int_text(&mut out, self.den as i128);
        proof {
            assert(out@ =~= rational_text(*self));
        }
        out
    }

    /// Reads a fraction written `num%den`. Text after a second `%` is ignored.
    /// Fails with "no parse" where there is no `%` or either part is not an
    /// `i32` numeral, and with "Cannot divide by zero" where the denominator is 0.
    pub fn from_string(s: &str) -> (r: Result<Rational, &'static str>)
        ensures
            match r {
                Ok(q) => from_string_spec(s@) == Ok::<Rational, Seq<char>>(q),
                Err(e) => from_string_spec(s@) == Err::<Rational, Seq<char>>(e@),
            },
    {
        let chars = chars_of(s);
        let i = find_char(&chars, '%', 0);
        proof {
            lemma_index_of_bounds(chars@, '%', 0);
        }
        if i >= chars.len() {
            return Err("no parse");
        }
        let j = find_char(&chars, '%', i + 1);
        proof {
            lemma_index_of_bounds(chars@, '%', i + 1);
        }
        let num = parse_i32_range(&chars, 0, i);
        let den = parse_i32_range(&chars, i + 1, j);
        match (num, den) {
            (Some(_), Some(d)) if d == 0 => Err("Cannot divide by zero"),
            (Some(n), Some(d)) => Ok(Rational { num: n, den: d }),
            _ => Err("no parse"),
        }
    }
}

impl core::str::FromStr for Rational {
    type Err = &'static str;

    fn from_str(s: &str) -> (r: Result<Self, Self::Err>)
        ensures
            match r {
                Ok(q) => from_string_spec(s@) == Ok::<Rational, Seq<char>>(q),
                Err(e) => from_string_spec(s@) == Err::<Rational, Seq<char>>(e@),
            },
    {
        Rational::from_string(s)
    }
}

/// The sum that `Rational::sum` folds: `0 / 1 + values[0] + values[1] + ...`,
/// each `+` as `Rational`'s addition does it.
pub open spec fn sum_spec(values: Seq<Rational>) -> Rational
    decreases values.len(),
{
    if values.len() == 0 {
        Rational { num: 0, den: 1 }
    } else {
        add_result(sum_spec(values.drop_last()), values.last())
    }
}

/// No addition in the fold of `values` overflows.
pub open spec fn sum_ok(values: Seq<Rational>) -> bool
    decreases values.len(),
{
    if values.len() == 0 {
        true
    } else {
        sum_ok(values.drop_last()) && add_ok(sum_spec(values.drop_last()), values.last())
    }
}

/// A sum that does not overflow has no prefix whose sum overflows.
proof fn lemma_sum_ok_prefix(values: Seq<Rational>, k: int)
    requires
        sum_ok(values),
        0 <= k <= values.len(),
    ensures
        sum_ok(values.take(k)),
    decreases values.len() - k,
{
    if k < values.len() {
        lemma_sum_ok_prefix(values, k + 1);
        assert(values.take(k + 1).drop_last() =~= values.take(k));
    } else {
        assert(values.take(k) =~= values);
    }
}

impl Rational {
    /// The sum of `values`, folded from `0 / 1` with `+`.
    pub fn sum(values: &[Rational]) -> (r: Rational)
        requires
            sum_ok(values@),
        ensures
            r == sum_spec(values@),
    {
        let mut acc = Rational::from_int(0);
        let mut i: usize = 0;
        proof {
            assert(values@.take(0) =~= Seq::<Rational>::empty());
        }
        while i < values.len()
            invariant
                i <= values.len(),
                sum_ok(values@),
                acc == sum_spec(values@.take(i as int)),
            decreases values.len() - i,
        {
            proof {
                lemma_sum_ok_prefix(values@, i + 1);
                assert(values@.take(i + 1).drop_last() =~= values@.take(i as int));
            }
            acc = acc + values[i];
            i = i + 1;
        }
        proof {
            assert(values@.take(i as int) =~= values@);
        }
        acc
    }
}

/// Whether `Rational::reduce` runs without overflow or division by zero on `r`.
pub fn can_reduce_check(r: Rational) -> (b: bool)
    ensures
        b == can_reduce(r),
{
    if (r.num == i32::MIN && r.den == -1) || (r.num == -1 && r.den == i32::MIN) {
        return false;
    }
    let g = Rational::gcd(r.num, r.den);
    g != 0 && !(r.num == i32::MIN && g == -1) && !(r.den == i32::MIN && g == -1)
}

/// Whether `a + b` runs without overflow.
pub fn add_fits(a: Rational, b: Rational) -> (r: bool)
    ensures
        r == add_ok(a, b),
{
    let (x, y) = cross_products(&a, &b);
    let ad = a.den as i64;
    let bd = b.den as i64;
    proof {
        assert(-0x8000_0000 <= ad < 0x8000_0000 && -0x8000_0000 <= bd < 0x8000_0000 ==> -0x4000_0000_0000_0000 <= ad * bd <= 0x4000_0000_0000_0000) by (nonlinear_arith);
    }
    let dd = ad * bd;
    let lo = i32::MIN as i64;
    let hi = i32::MAX as i64;
    if x < lo || x > hi || y < lo || y > hi {
        return false;
    }
    let n = x + y;
    if n < lo || n > hi || dd < lo || dd > hi {
        return false;
    }
    let f = Rational { num: n as i32, den: dd as i32 };
    assert(f == fraction(a.num * b.den + a.den * b.num, a.den * b.den));
    can_reduce_check(f)
}

impl Rational {
    /// The sum of `values`, folded from `0 / 1` with `+`, or `None` where an
    /// addition of the fold overflows.
    pub fn checked_sum(values: &[Rational]) -> (r: Option<Rational>)
        ensures
            r == if sum_ok(values@) {
                Some(sum_spec(values@))
            } else {
                None::<Rational>
            },
    {
        let mut acc = Rational::from_int(0);
        let mut i: usize = 0;
        proof {
            assert(values@.take(0) =~= Seq::<Rational>::empty());
        }
        while i < values.len()
            invariant
                i <= values.len(),
                sum_ok(values@.take(i as int)),
                acc == sum_spec(values@.take(i as int)),
            decreases values.len() - i,
        {
            proof {
                assert(values@.take(i + 1).drop_last() =~= values@.take(i as int));
                assert(values@.take(i + 1).last() == values@[i as int]);
            }
            if !add_fits(acc, values[i]) {
                proof {
                    if sum_ok(values@) {
                        lemma_sum_ok_prefix(values@, i + 1);
                    }
                }
                return None;
            }
            acc = acc + values[i];
            i = i + 1;
        }
        proof {
            assert(values@.take(i as int) =~= values@);
        }
        Some(acc)
    }
}

/// The cross products `a.num * b.den` and `a.den * b.num`, widened so that they cannot overflow.
pub(crate) fn cross_products(a: &Rational, b: &Rational) -> (r: (i64, i64))
    ensures
        r.0 == a.num * b.den,
        r.1 == a.den * b.num,
{
    let an = a.num as i64;
    let ad = a.den as i64;
    let bn = b.num as i64;
    let bd = b.den as i64;
    proof {
        assert(-0x8000_0000 <= an < 0x8000_0000 && -0x8000_0000 <= bd < 0x8000_0000 ==> -0x4000_0000_0000_0000 <= an * bd <= 0x4000_0000_0000_0000) by (nonlinear_arith);
        assert(-0x8000_0000 <= ad < 0x8000_0000 && -0x8000_0000 <= bn < 0x8000_0000 ==> -0x4000_0000_0000_0000 <= ad * bn <= 0x4000_0000_0000_0000) by (nonlinear_arith);
    }
    (an * bd, ad * bn)
}

} // verus!
