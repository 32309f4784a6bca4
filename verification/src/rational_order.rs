//! Ordering of fractions by their cross products.
use vstd::prelude::*;
use core::cmp::Ordering;
use crate::rational::{Rational, cross_products, fits_i32};

verus! {

/// The ordering of two integers.
pub open spec fn order_of(a: int, b: int) -> Ordering {
    if a < b {
        Ordering::Less
    } else if a == b {
        Ordering::Equal
    } else {
        Ordering::Greater
    }
}

impl Rational {
    /// Compares `self.num * other.den` with `self.den * other.num`.
    pub fn cmp(&self, other: &Rational) -> (o: Ordering)
        requires
            fits_i32(self.num * other.den),
            fits_i32(self.den * other.num),
        ensures
            o == order_of(self.num * other.den, self.den * other.num),
    {
        let a = self.num * other.den;
        let b = self.den * other.num;
        if a < b {
            Ordering::Less
        } else if a == b {
            Ordering::Equal
        } else {
            Ordering::Greater
        }
    }
}

impl PartialOrd for Rational {
    fn partial_cmp(&self, other: &Rational) -> (o: Option<Ordering>) {
        let (a, b) = cross_products(self, other);
        if a < b {
            Some(Ordering::Less)
        } else if a == b {
            Some(Ordering::Equal)
        } else {
            Some(Ordering::Greater)
        }
    }
}

impl vstd::std_specs::cmp::PartialOrdSpecImpl for Rational {
    open spec fn obeys_partial_cmp_spec() -> bool {
        true
    }

    open spec fn partial_cmp_spec(&self, other: &Rational) -> Option<Ordering> {
        Some(order_of(self.num * other.den, self.den * other.num))
    }
}

/// Comparing two fractions either way round gives opposite answers.
pub proof fn lemma_order_flips(a: Rational, b: Rational)
    ensures
        (order_of(a.num * b.den, a.den * b.num) == Ordering::Less)
            == (order_of(b.num * a.den, b.den * a.num) == Ordering::Greater),
        (order_of(a.num * b.den, a.den * b.num) == Ordering::Equal)
            == (order_of(b.num * a.den, b.den * a.num) == Ordering::Equal),
{
    assert(a.num * b.den == b.den * a.num) by (nonlinear_arith);
    assert(a.den * b.num == b.num * a.den) by (nonlinear_arith);
}

} // verus!
