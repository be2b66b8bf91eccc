//! Course prices as exact decimal values, and the conversion to the
//! integer minor-unit amount sent to the payment provider.
use vstd::prelude::*;

verus! {

/// Largest whole-unit part for which the minor-unit amount still fits
/// in a `u64`.
pub const MAX_PRICE_UNITS: u64 = 184467440737095515;

/// A decimal price: `units + micros / 1_000_000`, negated when
/// `negative` is set. The catalog stores prices as decimals; the
/// library never touches a floating-point representation of them.
#[derive(Clone, Copy, Debug)]
pub struct Price {
    pub negative: bool,
    pub units: u64,
    pub micros: u32,
}

impl Price {
    pub open spec fn wf(self) -> bool {
        self.micros < 1000000 && self.units <= MAX_PRICE_UNITS
    }

    /// `round(max(price, 0) * 100)`: a negative price is clamped to
    /// zero, and the fractional part rounds half away from zero.
    pub open spec fn amount_minor_spec(self) -> int {
        if self.negative {
            0
        } else {
            self.units * 100 + (self.micros + 5000) / 10000
        }
    }

    pub fn new(negative: bool, units: u64, micros: u32) -> (p: Price)
        requires
            micros < 1000000,
            units <= MAX_PRICE_UNITS,
        ensures
            p == (Price { negative, units, micros }),
            p.wf(),
    {
        Price { negative, units, micros }
    }
}

/// The amount in minor currency units charged for a price:
/// `round(max(price, 0) * 100)`.
pub fn amount_minor_units(price: &Price) -> (r: u64)
    requires
        price.wf(),
    ensures
        r == price.amount_minor_spec(),
{
    if price.negative {
        0
    } else {
        let frac: u32 = (price.micros + 5000) / 10000;
        price.units * 100 + frac as u64
    }
}

} // verus!
