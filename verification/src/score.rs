//! Points and the currency that upgrades are bought with.

use vstd::prelude::*;

verus! {

/// Number of kills that earn one unit of currency.
pub const KILLS_PER_COIN: usize = 10;

/// What one upgrade costs.
pub const UPGRADE_PRICE: u32 = 1;

/// Apples killed in the current game.
pub struct ScoreCounter {
    pub points: usize,
}

/// Currency earned in the current game.
pub struct Currency(u32);

impl View for Currency {
    type V = nat;

    closed spec fn view(&self) -> nat {
        self.0 as nat
    }
}

impl Default for ScoreCounter {
    fn default() -> (r: Self)
        ensures
            r.points == 0,
    {
        Self { points: 0 }
    }
}

impl Default for Currency {
    fn default() -> (r: Self)
        ensures
            r@ == 0,
    {
        Self(0)
    }
}

impl Currency {
    pub fn reset(&mut self)
        ensures
            final(self)@ == 0,
    {
        self.0 = 0;
    }

    pub fn add(&mut self, val: u32)
        requires
            old(self)@ + val <= u32::MAX,
        ensures
            final(self)@ == old(self)@ + val,
    {
        self.0 += val;
    }

    /// Takes `val` from the balance if the balance covers it, and says
    /// whether it did.
    pub fn spend(&mut self, val: u32) -> (spent: bool)
        ensures
            spent == (old(self)@ >= val),
            spent ==> final(self)@ == old(self)@ - val,
            !spent ==> final(self)@ == old(self)@,
    {
        if self.0 >= val {
            self.0 -= val;
            true
        } else {
            false
        }
    }

    pub fn get(&self) -> (r: u32)
        ensures
            r == self@,
    {
        self.0
    }
}

/// The coins that the kill bringing the score to `points` earns: one for
/// every tenth kill.
pub open spec fn coins_for(points: int) -> nat {
    if points % 10 == 0 {
        1
    } else {
        0
    }
}

impl ScoreCounter {
    /// Starts a new game.
    pub fn reset(&mut self)
        ensures
            final(self).points == 0,
    {
        self.points = 0;
    }

    /// Counts one killed apple. Every tenth kill earns a coin.
    pub fn apple_killed(&mut self, currency: &mut Currency)
        requires
            old(self).points < usize::MAX,
            old(currency)@ < u32::MAX,
        ensures
            final(self).points == old(self).points + 1,
            final(currency)@ == old(currency)@ + coins_for(old(self).points + 1),
    {
        self.points += 1;
        if self.points % KILLS_PER_COIN == 0 {
            currency.add(1);
        }
    }

    /// Whether the score of a finished game beats the best score so far.
    pub fn is_high_score(&self, best: usize) -> (r: bool)
        ensures
            r == (self.points > best),
    {
        self.points > best
    }
}

} // verus!
