//! Adding up amounts of power that were read as decimal fractions, before they are rounded.

use crate::arith::lemma_floor;
use crate::decimal::{lemma_ten_to, millionth, ten_power, Amount, Number};
use crate::wide::{lemma_natural, word_quotient, Wide};
use vstd::prelude::*;

verus! {

/// A sum of watts, in units: what was added, what was taken off, and whether a value was no number.
pub struct PowerSum {
    pub plus: int,
    pub minus: int,
    pub nan: bool,
}

/// The sum of nothing.
pub open spec fn no_power() -> PowerSum {
    PowerSum { plus: 0, minus: 0, nan: false }
}

/// A sum with one more amount.
pub open spec fn with_amount(sum: PowerSum, amount: Amount) -> PowerSum {
    match amount {
        Amount::NotANumber => PowerSum { nan: true, ..sum },
        Amount::Units(u) => if u >= 0 {
            PowerSum { plus: sum.plus + u, ..sum }
        } else {
            PowerSum { minus: sum.minus - u, ..sum }
        },
    }
}

impl PowerSum {
    /// The power that a sum comes to, in microwatts, rounded down: never less than nothing, and no
    /// more than 64 bits hold.
    pub open spec fn power(self) -> u64 {
        if self.nan {
            0
        } else {
            word_quotient(self.plus - self.minus, millionth()) as u64
        }
    }

    /// Whether a sum comes to exactly nothing.
    pub open spec fn is_zero(self) -> bool {
        !self.nan && self.plus == self.minus
    }
}

/// A running sum of watts.
#[derive(Debug)]
pub struct Watts {
    pub plus: Wide,
    pub minus: Wide,
    pub nan: bool,
}

impl View for Watts {
    type V = PowerSum;

    open spec fn view(&self) -> PowerSum {
        PowerSum { plus: self.plus@, minus: self.minus@, nan: self.nan }
    }
}

impl Watts {
    /// The sum of nothing.
    pub fn zero() -> (r: Self)
        ensures
            r@ == no_power(),
    {
        Watts { plus: Wide::zero(), minus: Wide::zero(), nan: false }
    }

    /// Adds an amount.
    pub fn add(&mut self, amount: &Number)
        ensures
            final(self)@ == with_amount(old(self)@, amount@),
    {
        match amount {
            Number::NotANumber => {
                self.nan = true;
            },
            Number::Units { negative, size } => {
                proof {
                    lemma_natural(size.limbs@);
                }
                if *negative {
                    self.minus = self.minus.plus(size);
                } else {
                    self.plus = self.plus.plus(size);
                }
            },
        }
    }

    /// The power that the sum comes to.
    pub fn power(&self) -> (r: u64)
        ensures
            r == self@.power(),
    {
        if self.nan {
            return 0;
        }
        proof {
            lemma_ten_to(324);
        }
        self.plus.quotient(&self.minus, &ten_power(324))
    }

    /// Whether the sum comes to exactly nothing.
    pub fn is_zero(&self) -> (r: bool)
        ensures
            r == self@.is_zero(),
    {
        !self.nan && self.plus.at_most(&self.minus) && self.minus.at_most(&self.plus)
    }
}

/// A sum's power is the most whole microwatts that what was added, less what was taken off,
/// suffices for: nothing if that is less than nothing, and the most that 64 bits hold if it is
/// more. A value that is no number makes it nothing.
pub proof fn law_power_of_sum(sum: PowerSum)
    ensures
        sum.nan || sum.plus <= sum.minus ==> sum.power() == 0,
        !sum.nan && sum.plus > sum.minus ==> sum.power() * millionth() <= sum.plus - sum.minus,
        !sum.nan && sum.plus > sum.minus && sum.power() < u64::MAX ==> sum.plus - sum.minus < (
        sum.power() + 1) * millionth(),
{
    lemma_ten_to(324);
    let n = sum.plus - sum.minus;
    let d = millionth();
    lemma_floor(n, d);
    if n > 0 {
        let q = n / d;
        assert(q >= 0) by (nonlinear_arith)
            requires
                n > 0,
                d >= 1,
                q == n / d,
        ;
        if q > u64::MAX {
            assert(u64::MAX * d <= q * d) by (nonlinear_arith)
                requires
                    u64::MAX <= q,
                    d >= 1,
            ;
        }
    }
}

/// An amount counts for what it is, whatever was there before.
pub proof fn law_amount_counts(sum: PowerSum, amount: Amount)
    ensures
        with_amount(sum, amount).nan <==> sum.nan || amount is NotANumber,
        amount matches Amount::Units(u) ==> with_amount(sum, amount).plus - with_amount(
            sum,
            amount,
        ).minus == sum.plus - sum.minus + u,
        sum.is_zero() <==> !sum.nan && sum.plus - sum.minus == 0,
{
}

} // verus!
