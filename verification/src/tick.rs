//! The simulation clock: a 16-bit step counter which wraps around.

use vstd::prelude::*;

verus! {

/// Simulation steps per second.
pub const TICKRATE: u8 = 10;

/// How many ticks behind the clock a reader looks for a settled value.
pub const DELAY: u16 = 2;

/// Number of distinct tick values; the counter wraps at this modulus.
pub open spec fn tick_modulus() -> int {
    65536
}

/// The tick `n` steps after `t`, wrapping at the modulus. `n` may be negative.
pub open spec fn tick_plus(t: u16, n: int) -> u16 {
    ((t + n) % tick_modulus()) as u16
}

/// How many steps `a` lies ahead of `b` on the wrapping clock, in `0..65536`.
pub open spec fn tick_ahead(a: u16, b: u16) -> int {
    (a - b) % tick_modulus()
}

/// Wrap-aware order: `a` is newer than `b` when it lies ahead of it by less
/// than half the clock.
pub open spec fn tick_newer(a: u16, b: u16) -> bool {
    0 < tick_ahead(a, b) < tick_modulus() / 2
}

/// The tick that is being written, not the one being played back.
#[derive(Clone, Copy, Debug)]
pub struct TickNum(pub u16);

impl TickNum {
    /// The clock at the start of a match.
    pub fn new() -> (t: TickNum)
        ensures
            t.0 == 0,
    {
        TickNum(0)
    }

    /// Puts the clock back to zero for a new match.
    pub fn reset(&mut self)
        ensures
            final(self).0 == 0,
    {
        self.0 = 0;
    }

    /// Moves the clock one step on, wrapping after the last tick value.
    pub fn advance(&mut self)
        ensures
            final(self).0 == tick_plus(old(self).0, 1),
    {
        self.0 = self.0.wrapping_add(1);
    }

    /// The tick before the current one.
    pub fn previous(&self) -> (t: u16)
        ensures
            t == tick_plus(self.0, -1),
    {
        self.0.wrapping_sub(1)
    }

    /// The tick whose values count as settled: `DELAY` steps back.
    pub fn settled(&self) -> (t: u16)
        ensures
            t == tick_plus(self.0, -(DELAY as int)),
    {
        self.0.wrapping_sub(DELAY)
    }
}

/// How many steps `a` lies ahead of `b`.
pub fn ticks_ahead(a: u16, b: u16) -> (d: u16)
    ensures
        d == tick_ahead(a, b),
{
    a.wrapping_sub(b)
}

/// Whether `a` is newer than `b` in the wrap-aware order.
pub fn is_newer(a: u16, b: u16) -> (r: bool)
    ensures
        r == tick_newer(a, b),
{
    let d: u16 = a.wrapping_sub(b);
    d != 0 && d < 32768
}

/// Stepping forward and then back returns to the same tick, also across the
/// wrap.
pub proof fn lemma_tick_plus_inverse(t: u16, n: int)
    ensures
        tick_plus(tick_plus(t, n), -n) == t,
{
    let m: int = tick_modulus();
    let q = (t + n) / m;
    assert((t + n) == q * m + (t + n) % m) by {
        vstd::arithmetic::div_mod::lemma_fundamental_div_mod(t + n, m);
    }
    let u = tick_plus(t, n) as int;
    assert(u == t + n - q * m);
    assert((u - n) % m == t) by {
        vstd::arithmetic::div_mod::lemma_fundamental_div_mod_converse(u - n, m, -q, t as int);
    }
}

} // verus!
