use pscm::rational::{add_fits, can_reduce_check, Rational};
use std::cmp::Ordering;

#[test]
fn gcd_follows_rust_remainder() {
    assert_eq!(Rational::gcd(12, 18), 6);
    assert_eq!(Rational::gcd(-4, 6), 2);
    assert_eq!(Rational::gcd(4, -6), -2);
    assert_eq!(Rational::gcd(7, 0), 7);
    assert_eq!(Rational::gcd(0, 5), 5);
    assert_eq!(Rational::gcd(i32::MIN, 1), 1);
}

#[test]
fn reduce_divides_by_gcd() {
    let mut r = Rational::new(6, 8);
    r.reduce();
    assert_eq!(r, Rational::new(3, 4));
    let mut s = Rational::new(4, -6);
    s.reduce();
    assert_eq!(s, Rational::new(-2, 3));
    assert_eq!(Rational::new(10, 5).pure_reduce(), Rational::new(2, 1));
    assert_eq!(Rational::new(0, 7).pure_reduce(), Rational::new(0, 1));
}

#[test]
fn constructors_keep_their_parts() {
    assert_eq!(Rational::new(3, 7), Rational { num: 3, den: 7 });
    assert_eq!(Rational::from_int(-5), Rational { num: -5, den: 1 });
}

#[test]
fn arithmetic_is_exact_and_reduced() {
    let half = Rational::new(1, 2);
    let third = Rational::new(1, 3);
    assert_eq!(half + third, Rational::new(5, 6));
    assert_eq!(half - third, Rational::new(1, 6));
    assert_eq!(half - half, Rational::new(0, 1));
    assert_eq!(Rational::new(2, 3) * Rational::new(3, 4), Rational::new(1, 2));
    assert_eq!(half / Rational::new(1, 4), Rational::new(2, 1));
    assert_eq!(third / third, Rational::new(1, 1));
    assert_eq!(half + third, third + half);
}

#[test]
fn sum_folds_from_zero() {
    let v = vec![Rational::new(1, 2), Rational::new(1, 3), Rational::new(1, 6)];
    assert_eq!(Rational::sum(&v), Rational::new(1, 1));
    assert_eq!(Rational::sum(&[]), Rational::new(0, 1));
    assert_eq!(Rational::sum(&[Rational::new(2, 4)]), Rational::new(1, 2));
}

#[test]
fn to_string_prints_num_percent_den() {
    assert_eq!(Rational::new(-3, 4).to_string(), "-3%4");
    assert_eq!(Rational::new(i32::MIN, i32::MAX).to_string(), "-2147483648%2147483647");
}

#[test]
fn from_string_reads_fractions() {
    assert_eq!(Rational::from_string("1%2"), Ok(Rational::new(1, 2)));
    assert_eq!(Rational::from_string("+1%-2"), Ok(Rational::new(1, -2)));
    assert_eq!(Rational::from_string("1%2%3"), Ok(Rational::new(1, 2)));
    assert_eq!(Rational::from_string("1%0"), Err("Cannot divide by zero"));
    assert_eq!(Rational::from_string("x%0"), Err("no parse"));
    assert_eq!(Rational::from_string("1"), Err("no parse"));
    assert_eq!(Rational::from_string("abc"), Err("no parse"));
    assert_eq!(Rational::from_string("%2"), Err("no parse"));
    assert_eq!(Rational::from_string("1%"), Err("no parse"));
    assert_eq!(Rational::from_string("3000000000%1"), Err("no parse"));
    assert_eq!("7%9".parse::<Rational>(), Ok(Rational::new(7, 9)));
}

#[test]
fn printed_fractions_read_back() {
    for r in [Rational::new(1, 2), Rational::new(-3, 4), Rational::new(i32::MIN, -1), Rational::new(0, 5)] {
        assert_eq!(Rational::from_string(&r.to_string()), Ok(r));
    }
}

#[test]
fn comparison_uses_cross_products() {
    let a = Rational::new(1, 2);
    let b = Rational::new(2, 3);
    assert_eq!(a.cmp(&b), Ordering::Less);
    assert_eq!(b.cmp(&a), Ordering::Greater);
    assert_eq!(a.cmp(&Rational::new(2, 4)), Ordering::Equal);
    assert_eq!(a.partial_cmp(&b), Some(Ordering::Less));
    assert!(a < b);
    assert!(b > a);
}

#[test]
fn checked_sum_and_reducing_twice() {
    assert_eq!(Rational::checked_sum(&[Rational::new(1, 2), Rational::new(1, 3)]), Some(Rational::new(5, 6)));
    assert_eq!(Rational::checked_sum(&[]), Some(Rational::new(0, 1)));
    assert_eq!(Rational::checked_sum(&[Rational::new(i32::MAX, 1), Rational::new(1, 1)]), None);
    let r = Rational::new(-3, 6).pure_reduce();
    assert_eq!(r, Rational::new(1, -2));
    assert_eq!(r.pure_reduce(), r);
    assert!(can_reduce_check(Rational::new(2, 4)));
    assert!(!can_reduce_check(Rational::new(0, 0)));
    assert!(add_fits(Rational::new(1, 2), Rational::new(1, 3)));
    assert!(!add_fits(Rational::new(i32::MAX, 1), Rational::new(1, 1)));
}
