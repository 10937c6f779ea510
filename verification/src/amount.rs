//! Exact fixed-point monetary amounts.
//!
//! An [`Amount`] counts units of 1/10000 of the currency, so it represents
//! a decimal number with exactly four fractional digits. All arithmetic on
//! amounts and balances in this crate is integer arithmetic on these unit
//! counts, which keeps every sum exact.

use vstd::prelude::*;

verus! {

/// How many units make one whole of the currency (four fractional digits).
pub const UNITS_PER_WHOLE: u64 = 10_000;

/// The largest unit count a single transaction amount may carry.
///
/// The bound exists so that account balances, which add up at most one
/// amount per distinct 32-bit transaction identifier, provably fit in an
/// `i128`. It allows amounts up to one hundred trillion whole currency
/// units, far beyond any input the engine is meant for.
pub const MAX_AMOUNT_UNITS: u64 = 1_000_000_000_000_000_000;

/// A non-negative fixed-point decimal amount: `units` counts 1/10000ths.
#[derive(Clone, Copy, Debug, PartialEq, Eq, Structural)]
pub struct Amount {
    pub units: u64,
}

impl Amount {
    /// An amount is valid when it does not exceed the per-transaction cap.
    pub open spec fn valid(self) -> bool {
        self.units <= MAX_AMOUNT_UNITS
    }

    /// The mathematical value of this amount, in 1/10000 units.
    pub open spec fn as_int(self) -> int {
        self.units as int
    }

    /// Builds the amount of `units` 1/10000ths, refusing counts over the cap.
    pub fn from_units(units: u64) -> (r: Option<Amount>)
        ensures
            r matches Some(a) ==> a == (Amount { units }) && a.valid(),
            r is None <==> units > MAX_AMOUNT_UNITS,
    {
        if units <= MAX_AMOUNT_UNITS {
            Some(Amount { units })
        } else {
            None
        }
    }

    /// The unit count this amount carries.
    pub fn units(&self) -> (u: u64)
        ensures
            u == self.units,
    {
        self.units
    }
}

} // verus!
