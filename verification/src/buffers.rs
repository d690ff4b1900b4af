//! Fixed-capacity histories indexed by tick.
//!
//! A buffer keeps one slot per residue of the tick modulo its capacity. A slot
//! remembers the tick it was written for, so a read of a tick whose slot has
//! since been taken by a later tick finds nothing instead of a stale value.

use vstd::prelude::*;
use crate::tick::tick_plus;
use crate::world::Pos;

verus! {

/// The slot which tick `t` occupies in a buffer of `cap` slots.
pub open spec fn slot_of(t: u16, cap: nat) -> int {
    t as int % cap as int
}

/// The history `m` after `value` has been written for `tick`: whatever lived
/// in the slot of `tick` is gone, and `tick` now holds `value`.
pub open spec fn overwrite<T>(m: Map<u16, T>, cap: nat, tick: u16, value: T) -> Map<u16, T> {
    m.remove_keys(Set::new(|k: u16| slot_of(k, cap) == slot_of(tick, cap))).insert(tick, value)
}

/// What a read of `tick` finds in the history `m`.
pub open spec fn lookup<T>(m: Map<u16, T>, tick: u16) -> Option<T> {
    if m.contains_key(tick) {
        Some(m[tick])
    } else {
        None
    }
}

/// The history `m` after the value of the tick before `tick` has been copied
/// into `tick`; where the earlier tick holds nothing, neither does `tick`.
pub open spec fn carried<T>(m: Map<u16, T>, cap: nat, tick: u16) -> Map<u16, T> {
    match lookup(m, tick_plus(tick, -1)) {
        Some(v) => overwrite(m, cap, tick, v),
        None => m.remove(tick),
    }
}

/// A ring of optional values, one slot per tick modulo the capacity.
pub struct CircularBuffer<T> {
    slots: Vec<Option<(u16, T)>>,
}

/// The history of an entity's position.
pub type PosBuffer = CircularBuffer<Pos>;

/// The history of the way an entity faces, in thousandths of a radian.
pub type DirBuffer = CircularBuffer<i32>;

/// The history of an entity's health.
pub type HpBuffer = CircularBuffer<u8>;

/// The history of an entity's event flags.
pub type EventBuffer = CircularBuffer<u8>;

impl<T> View for CircularBuffer<T> {
    type V = Map<u16, T>;

    /// The live part of the history: each tick that can still be read, with
    /// its value.
    closed spec fn view(&self) -> Map<u16, T> {
        Map::new(
            |t: u16|
                self.slots.len() > 0 && (self.slots[slot_of(t, self.slots.len() as nat)] matches Some(e)
                    && e.0 == t),
            |t: u16| self.slots[slot_of(t, self.slots.len() as nat)].unwrap().1,
        )
    }
}

impl<T> CircularBuffer<T> {
    /// Number of slots.
    pub closed spec fn cap(&self) -> nat {
        self.slots.len() as nat
    }

    /// Every occupied slot holds a tick that belongs there.
    pub closed spec fn wf(&self) -> bool {
        &&& 0 < self.slots.len()
        &&& forall|i: int|
            0 <= i < self.slots.len() ==> (#[trigger] self.slots[i] matches Some(e) ==> slot_of(
                e.0,
                self.slots.len() as nat,
            ) == i)
    }

    /// An empty buffer of `capacity` slots.
    pub fn new(capacity: usize) -> (b: Self)
        requires
            0 < capacity,
        ensures
            b.wf(),
            b.cap() == capacity,
            b@ == Map::<u16, T>::empty(),
    {
        let mut slots: Vec<Option<(u16, T)>> = Vec::new();
        let mut i: usize = 0;
        while i < capacity
            invariant
                i <= capacity,
                slots.len() == i,
                forall|j: int| 0 <= j < i ==> slots[j] is None,
            decreases capacity - i,
        {
            slots.push(None);
            i += 1;
        }
        let b = CircularBuffer { slots };
        assert(b@ =~= Map::<u16, T>::empty());
        b
    }

    /// A buffer of `capacity` slots in which only `tick` is written, with `value`.
    pub fn new_from(capacity: usize, tick: u16, value: T) -> (b: Self)
        requires
            0 < capacity,
        ensures
            b.wf(),
            b.cap() == capacity,
            b@ == Map::<u16, T>::empty().insert(tick, value),
    {
        let mut b = Self::new(capacity);
        b.set(tick, value);
        assert(b@ =~= Map::<u16, T>::empty().insert(tick, value));
        b
    }

    /// Number of slots.
    pub fn capacity(&self) -> (n: usize)
        requires
            self.wf(),
        ensures
            n == self.cap(),
            0 < n,
    {
        self.slots.len()
    }

    /// Writes `value` for `tick`, whatever the slot held before.
    pub fn set(&mut self, tick: u16, value: T)
        requires
            old(self).wf(),
        ensures
            final(self).wf(),
            final(self).cap() == old(self).cap(),
            final(self)@ == overwrite(old(self)@, old(self).cap(), tick, value),
            final(self)@.contains_key(tick),
            final(self)@[tick] == value,
    {
        let n = self.slots.len();
        let idx = (tick as usize) % n;
        self.slots[idx] = Some((tick, value));
        assert(final(self)@ =~= overwrite(old(self)@, old(self).cap(), tick, value));
    }

    /// Empties the slot of `tick` if it is `tick` that lives there.
    pub fn clear(&mut self, tick: u16)
        requires
            old(self).wf(),
        ensures
            final(self).wf(),
            final(self).cap() == old(self).cap(),
            final(self)@ == old(self)@.remove(tick),
    {
        let n = self.slots.len();
        let idx = (tick as usize) % n;
        let live = match &self.slots[idx] {
            Some(e) => e.0 == tick,
            None => false,
        };
        if live {
            self.slots[idx] = None;
        }
        assert(final(self)@ =~= old(self)@.remove(tick));
    }

    /// Whether `tick` can still be read.
    pub fn contains(&self, tick: u16) -> (r: bool)
        requires
            self.wf(),
        ensures
            r == self@.contains_key(tick),
    {
        let n = self.slots.len();
        let idx = (tick as usize) % n;
        match &self.slots[idx] {
            Some(e) => e.0 == tick,
            None => false,
        }
    }
}

impl<T: Copy> CircularBuffer<T> {
    /// The value written for `tick`, or nothing if `tick` was never written or
    /// its slot has since been taken by another tick.
    pub fn get(&self, tick: u16) -> (r: Option<T>)
        requires
            self.wf(),
        ensures
            r == lookup(self@, tick),
    {
        let n = self.slots.len();
        let idx = (tick as usize) % n;
        match &self.slots[idx] {
            Some(e) => if e.0 == tick {
                Some(e.1)
            } else {
                None
            },
            None => None,
        }
    }

    /// Copies the value of the tick before `tick` into `tick`. Where the
    /// earlier tick holds nothing, `tick` is left holding nothing too.
    pub fn carry_forward(&mut self, tick: u16)
        requires
            old(self).wf(),
        ensures
            final(self).wf(),
            final(self).cap() == old(self).cap(),
            final(self)@ == carried(old(self)@, old(self).cap(), tick),
            old(self)@.contains_key(tick_plus(tick, -1)) ==> lookup(final(self)@, tick) == lookup(
                old(self)@,
                tick_plus(tick, -1),
            ),
    {
        match self.get(tick.wrapping_sub(1)) {
            Some(v) => self.set(tick, v),
            None => self.clear(tick),
        }
    }
}

/// Where the tick before `tick` holds a value, `tick` holds the same value
/// after the carry-forward.
pub proof fn lemma_carried_is_defined<T>(m: Map<u16, T>, cap: nat, tick: u16)
    requires
        m.contains_key(tick_plus(tick, -1)),
    ensures
        lookup(carried(m, cap, tick), tick) == lookup(m, tick_plus(tick, -1)),
{
}

/// In a buffer whose capacity divides the number of tick values, a tick
/// shares its slot with none of the ticks that follow it within less than the
/// capacity, also across the wrap of the clock. So what is written for a tick
/// stays readable until the clock has moved on by the capacity.
pub proof fn lemma_window_keeps_slots_apart(cap: nat, t: u16, k: int)
    requires
        0 < cap,
        65536int % (cap as int) == 0,
        0 < k < cap,
    ensures
        slot_of(tick_plus(t, k), cap) != slot_of(t, cap),
{
    let c: int = cap as int;
    let sum: int = t + k;
    let later: int = tick_plus(t, k) as int;
    let q: int = sum / 65536int;
    let m: int = 65536int / c;
    vstd::arithmetic::div_mod::lemma_fundamental_div_mod(sum, 65536);
    vstd::arithmetic::div_mod::lemma_fundamental_div_mod(65536, c);
    assert(later == sum - 65536 * q);
    assert(65536 * q == c * (m * q)) by (nonlinear_arith)
        requires
            65536 == c * m,
    ;
    assert(later % c == sum % c) by {
        vstd::arithmetic::div_mod::lemma_mod_multiples_vanish(-(m * q), sum, c);
        assert(c * (-(m * q)) + sum == later) by (nonlinear_arith)
            requires
                later == sum - c * (m * q),
        ;
    }
    let a: int = t as int % c;
    vstd::arithmetic::div_mod::lemma_fundamental_div_mod(t as int, c);
    vstd::arithmetic::div_mod::lemma_mod_bound(t as int, c);
    let base: int = t as int / c;
    if sum % c == a {
        let shifted: int = a + k;
        assert(sum == c * base + shifted);
        vstd::arithmetic::div_mod::lemma_mod_multiples_vanish(base, shifted, c);
        assert(shifted % c == a);
        if shifted < c {
            vstd::arithmetic::div_mod::lemma_small_mod(shifted as nat, cap);
        } else {
            vstd::arithmetic::div_mod::lemma_mod_multiples_vanish(-1, shifted, c);
            vstd::arithmetic::div_mod::lemma_small_mod((shifted - c) as nat, cap);
        }
        assert(false);
    }
}

/// A value that has just been written is read back unchanged.
pub proof fn lemma_read_after_write<T>(m: Map<u16, T>, cap: nat, tick: u16, value: T)
    ensures
        lookup(overwrite(m, cap, tick, value), tick) == Some(value),
{
}

/// A write for one tick leaves every tick of another slot as it was.
pub proof fn lemma_write_keeps_other_slots<T>(
    m: Map<u16, T>,
    cap: nat,
    tick: u16,
    value: T,
    other: u16,
)
    requires
        slot_of(other, cap) != slot_of(tick, cap),
    ensures
        lookup(overwrite(m, cap, tick, value), other) == lookup(m, other),
{
}

/// A write for one tick makes every other tick of the same slot unreadable.
pub proof fn lemma_write_expires_same_slot<T>(
    m: Map<u16, T>,
    cap: nat,
    tick: u16,
    value: T,
    other: u16,
)
    requires
        other != tick,
        slot_of(other, cap) == slot_of(tick, cap),
    ensures
        lookup(overwrite(m, cap, tick, value), other) == None::<T>,
{
}

/// Writing the same value for the same tick twice is the same as writing it
/// once.
pub proof fn lemma_write_idempotent<T>(m: Map<u16, T>, cap: nat, tick: u16, value: T)
    ensures
        overwrite(overwrite(m, cap, tick, value), cap, tick, value) == overwrite(
            m,
            cap,
            tick,
            value,
        ),
{
    assert(overwrite(overwrite(m, cap, tick, value), cap, tick, value) =~= overwrite(
        m,
        cap,
        tick,
        value,
    ));
}

/// Writes for ticks of different slots can be made in either order.
pub proof fn lemma_writes_commute<T>(m: Map<u16, T>, cap: nat, t1: u16, v1: T, t2: u16, v2: T)
    requires
        slot_of(t1, cap) != slot_of(t2, cap),
    ensures
        overwrite(overwrite(m, cap, t1, v1), cap, t2, v2) == overwrite(
            overwrite(m, cap, t2, v2),
            cap,
            t1,
            v1,
        ),
{
    assert(overwrite(overwrite(m, cap, t1, v1), cap, t2, v2) =~= overwrite(
        overwrite(m, cap, t2, v2),
        cap,
        t1,
        v1,
    ));
}

} // verus!
