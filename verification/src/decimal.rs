//! Fixed-point decimal amounts.
//!
//! Every monetary and quantity field of the marketplace (prices, purses,
//! escrowed payments, vault balances) is an exact fixed-point number: a
//! signed 128-bit count of atomic subunits. Exactness matters because a
//! rounding error in an order's purse or payment is a fund-accounting bug.

use vstd::prelude::*;

verus! {

/// An exact fixed-point decimal, stored as a signed count of atomic
/// subunits. Comparisons are comparisons of the underlying count.
#[derive(Clone, Copy, Debug, PartialEq, Eq, Structural)]
pub struct Decimal {
    subunits: i128,
}

impl View for Decimal {
    type V = int;

    closed spec fn view(&self) -> int {
        self.subunits as int
    }
}

/// The decimal whose count of atomic subunits is the given integer,
/// reduced into the signed 128-bit range.
pub closed spec fn spec_decimal(v: int) -> Decimal {
    Decimal { subunits: v as i128 }
}

impl Decimal {
    /// The decimal holding the given count of atomic subunits.
    pub fn new(subunits: i128) -> (r: Decimal)
        ensures
            r@ == subunits as int,
            r == spec_decimal(subunits as int),
    {
        Decimal { subunits }
    }

    /// The zero amount.
    pub fn zero() -> (r: Decimal)
        ensures
            r@ == 0,
    {
        Decimal { subunits: 0 }
    }

    /// The underlying count of atomic subunits.
    pub fn subunits(&self) -> (r: i128)
        ensures
            r as int == self@,
    {
        self.subunits
    }

    /// True exactly when this amount is zero.
    pub fn is_zero(&self) -> (r: bool)
        ensures
            r == (self@ == 0),
    {
        self.subunits == 0
    }

    /// True exactly when this amount is strictly below `other`.
    pub fn lt(&self, other: &Decimal) -> (r: bool)
        ensures
            r == (self@ < other@),
    {
        self.subunits < other.subunits
    }

    /// The sum of two amounts.
    pub fn plus(&self, other: &Decimal) -> (r: Decimal)
        requires
            i128::MIN <= self@ + other@ <= i128::MAX,
        ensures
            r@ == self@ + other@,
    {
        Decimal { subunits: self.subunits + other.subunits }
    }

    /// The difference of two amounts.
    pub fn minus(&self, other: &Decimal) -> (r: Decimal)
        requires
            i128::MIN <= self@ - other@ <= i128::MAX,
        ensures
            r@ == self@ - other@,
    {
        Decimal { subunits: self.subunits - other.subunits }
    }
}

/// A decimal is recovered from its own view.
pub proof fn lemma_spec_decimal_id(d: Decimal)
    ensures
        spec_decimal(d@) == d,
{
}

/// Every decimal's view lies within the signed 128-bit subunit range.
pub proof fn lemma_decimal_in_range(d: Decimal)
    ensures
        i128::MIN <= d@ <= i128::MAX,
{
}

} // verus!
