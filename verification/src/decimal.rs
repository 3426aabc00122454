//! Fractions with eighteen decimal places.

use vstd::prelude::*;

verus! {

/// A fraction: a number with eighteen decimal places, held as the number of its
/// smallest parts.
#[derive(Debug, Clone, Copy, PartialEq, Eq, Structural)]
pub struct Decimal {
    pub atomics: u128,
}

/// The whole, in the smallest parts of a fraction.
pub const DECIMAL_ONE: u128 = 1_000_000_000_000_000_000;

impl Decimal {
    /// Nothing.
    pub fn zero() -> (r: Decimal)
        ensures
            r.atomics == 0,
    {
        Decimal { atomics: 0 }
    }

    /// The whole.
    pub fn one() -> (r: Decimal)
        ensures
            r.atomics == DECIMAL_ONE,
    {
        Decimal { atomics: DECIMAL_ONE }
    }

    /// So many hundredths.
    pub fn percent(x: u64) -> (r: Decimal)
        ensures
            r.atomics == x * (DECIMAL_ONE / 100),
    {
        let x: u128 = x as u128;
        Decimal { atomics: x * (DECIMAL_ONE / 100) }
    }

    /// The sum of two fractions; none where it does not fit.
    pub fn checked_add(self, other: Decimal) -> (r: Option<Decimal>)
        ensures
            self.atomics + other.atomics <= u128::MAX ==> r == Some(
                Decimal { atomics: (self.atomics + other.atomics) as u128 },
            ),
            self.atomics + other.atomics > u128::MAX ==> r is None,
    {
        match self.atomics.checked_add(other.atomics) {
            Some(atomics) => Some(Decimal { atomics }),
            None => None,
        }
    }
}

} // verus!
