//! Exact non-negative decimal amounts, counted in base units of 10^-8,
//! with half-to-even rounding at four fractional digits.

use vstd::prelude::*;

verus! {

/// Base units per 10^-4 (the grain that balances are rounded to).
pub const GRAIN: u128 = 10_000;

/// Base units per whole unit of currency.
pub const ONE: u128 = 100_000_000;

/// Largest number of base units an amount may hold: just under 10^20 whole
/// units, and itself a multiple of the rounding grain.
pub const MAX_UNITS: u128 = 10_000_000_000_000_000_000_000_000_000 - 10_000;

/// An exact non-negative decimal amount with at most eight fractional
/// digits, stored as a count of base units of 10^-8.
#[derive(Clone, Copy, PartialEq, Eq, Structural, Debug)]
pub struct Amount {
    pub units: u128,
}

impl View for Amount {
    type V = int;

    open spec fn view(&self) -> int {
        self.units as int
    }
}

/// `u` rounded to a multiple of 10^4 base units (four fractional digits),
/// ties going to the even multiple.
pub open spec fn round4(u: int) -> int {
    let q = u / 10_000;
    let r = u % 10_000;
    if r < 5000 {
        q * 10_000
    } else if r > 5000 {
        (q + 1) * 10_000
    } else if q % 2 == 0 {
        q * 10_000
    } else {
        (q + 1) * 10_000
    }
}

/// Rounding never moves a value by more than half a grain, keeps it
/// non-negative, and lands on a multiple of the grain.
pub proof fn lemma_round4_bounds(u: int)
    requires
        u >= 0,
    ensures
        round4(u) % 10_000 == 0,
        u - 5000 <= round4(u) <= u + 5000,
        round4(u) >= 0,
{
    vstd::arithmetic::div_mod::lemma_fundamental_div_mod(u, 10_000);
    vstd::arithmetic::div_mod::lemma_div_is_ordered_by_denominator(u, 1, 10_000);
}

/// A value already on the grain is unchanged by rounding.
pub proof fn lemma_round4_exact(u: int)
    requires
        u >= 0,
        u % 10_000 == 0,
    ensures
        round4(u) == u,
{
    vstd::arithmetic::div_mod::lemma_fundamental_div_mod(u, 10_000);
}

/// Rounding cannot escape a grain-aligned upper bound.
pub proof fn lemma_round4_capped(u: int, b: int)
    requires
        0 <= u <= b,
        b % 10_000 == 0,
    ensures
        round4(u) <= b,
{
    vstd::arithmetic::div_mod::lemma_fundamental_div_mod(u, 10_000);
    vstd::arithmetic::div_mod::lemma_fundamental_div_mod(b, 10_000);
    if u / 10_000 == b / 10_000 {
        assert(u % 10_000 == u - (u / 10_000) * 10_000);
    } else {
        vstd::arithmetic::div_mod::lemma_div_is_ordered(u, b, 10_000);
    }
}

impl Amount {
    /// The zero amount.
    pub fn zero() -> (a: Amount)
        ensures
            a@ == 0,
    {
        Amount { units: 0 }
    }

    /// An amount holding exactly `units` base units.
    pub fn from_units(units: u128) -> (a: Amount)
        ensures
            a@ == units,
    {
        Amount { units }
    }

    /// Exact sum.
    pub fn add(self, other: Amount) -> (r: Amount)
        requires
            self@ + other@ <= u128::MAX,
        ensures
            r@ == self@ + other@,
    {
        Amount { units: self.units + other.units }
    }

    /// Exact difference.
    pub fn sub(self, other: Amount) -> (r: Amount)
        requires
            other@ <= self@,
        ensures
            r@ == self@ - other@,
    {
        Amount { units: self.units - other.units }
    }

    /// Order on amounts.
    pub fn ge(self, other: Amount) -> (r: bool)
        ensures
            r == (self@ >= other@),
    {
        self.units >= other.units
    }

    /// This amount rounded to four fractional digits, half to even.
    pub fn rounded4(self) -> (r: Amount)
        requires
            self@ + 10_000 <= u128::MAX,
        ensures
            r@ == round4(self@),
    {
        let q: u128 = self.units / 10_000;
        let r: u128 = self.units % 10_000;
        proof {
            vstd::arithmetic::div_mod::lemma_fundamental_div_mod(self@, 10_000);
        }
        if r < 5000 {
            Amount { units: q * 10_000 }
        } else if r > 5000 {
            Amount { units: (q + 1) * 10_000 }
        } else if q % 2 == 0 {
            Amount { units: q * 10_000 }
        } else {
            Amount { units: (q + 1) * 10_000 }
        }
    }
}

} // verus!
