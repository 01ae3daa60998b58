//! Sums of stakes, kept exactly.
//!
//! A stake takes 128 bits, so a sum of stakes may take more. The sums here keep what
//! goes over 128 bits, and are compared without loss.

use vstd::prelude::*;

verus! {

/// Two to the power 64.
pub open spec fn pow64() -> int {
    0x1_0000_0000_0000_0000
}

/// Two to the power 128.
pub open spec fn pow128() -> int {
    0x1_0000_0000_0000_0000_0000_0000_0000_0000int
}

/// A sum of stakes.
#[derive(Clone, Copy, Debug)]
pub struct StakeSum {
    high: u64,
    low: u128,
}

impl View for StakeSum {
    type V = int;

    /// The sum, as a number.
    closed spec fn view(&self) -> int {
        self.high * pow128() + self.low
    }
}

impl StakeSum {
    /// The number of times that the sum went over 128 bits.
    pub closed spec fn carries(&self) -> int {
        self.high as int
    }

    /// The empty sum.
    pub fn zero() -> (sum: Self)
        ensures
            sum@ == 0,
            sum.carries() == 0,
    {
        StakeSum { high: 0, low: 0 }
    }

    /// Adds `stake` to the sum.
    pub fn add_stake(&mut self, stake: u128)
        requires
            old(self).carries() < u64::MAX,
        ensures
            final(self)@ == old(self)@ + stake,
            final(self).carries() <= old(self).carries() + 1,
    {
        match self.low.checked_add(stake) {
            Some(low) => {
                self.low = low;
            },
            None => {
                self.low = stake - (u128::MAX - self.low) - 1;
                self.high = self.high + 1;
            },
        }
    }

    /// The sum times `factor`, in three parts of 64 bits each, the highest first: the
    /// highest part may take more.
    fn times(&self, factor: u128) -> (parts: (u128, u128, u128))
        requires
            factor <= 3,
        ensures
            self@ * factor == parts.0 * pow128() + parts.1 * pow64() + parts.2,
            parts.1 < pow64(),
            parts.2 < pow64(),
    {
        let base: u128 = 0x1_0000_0000_0000_0000;
        let low1 = self.low / base;
        let low0 = self.low % base;
        assert(low0 * factor <= 3 * low0 && low1 * factor <= 3 * low1 && self.high * factor <= 3
            * self.high && low0 * factor >= 0 && low1 * factor >= 0) by (nonlinear_arith)
            requires
                factor <= 3,
        ;
        let x0 = low0 * factor;
        let x1 = low1 * factor + x0 / base;
        let x2 = (self.high as u128) * factor + x1 / base;
        assert(self@ * factor == self.high * factor * pow128() + low1 * factor * pow64() + low0
            * factor) by (nonlinear_arith)
            requires
                self@ == self.high * pow128() + low1 * pow64() + low0,
        ;
        (x2, x1 % base, x0 % base)
    }

    /// Whether three times this sum is more than twice `total`: whether this sum is more
    /// than two thirds of `total`.
    pub fn is_more_than_two_thirds_of(&self, total: &StakeSum) -> (more: bool)
        ensures
            more == (3 * self@ > 2 * total@),
    {
        let a = self.times(3);
        let t = total.times(2);
        if a.0 != t.0 {
            a.0 > t.0
        } else if a.1 != t.1 {
            a.1 > t.1
        } else {
            a.2 > t.2
        }
    }
}

} // verus!
