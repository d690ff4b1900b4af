//! The step of the clock with its carry-forward, the roles of host and
//! client, and the record of which packets of the other side have arrived.

use vstd::prelude::*;
use crate::buffers::{carried, lookup, overwrite};
use crate::entity::NetEntity;
use crate::tick::{lemma_tick_plus_inverse, tick_ahead, tick_newer, tick_plus, TickNum};

verus! {

/// The number which every datagram of this protocol begins with.
pub const MAGIC_NUMBER: u16 = 24835;

/// No datagram is longer than this many bytes.
pub const MAX_DATAGRAM_SIZE: usize = 1024;

/// How many ticks before the newest one an acknowledgment speaks of.
pub const ACK_WINDOW: u16 = 32;

/// Whether this participant is the host, which owns the simulation.
#[derive(Clone, Copy, Debug)]
pub struct IsHost(pub bool);

/// Whether this participant is the host.
pub fn is_host(role: &IsHost) -> (r: bool)
    ensures
        r == role.0,
{
    role.0
}

/// Whether this participant is a client.
pub fn is_client(role: &IsHost) -> (r: bool)
    ensures
        r == !role.0,
{
    !role.0
}

/// Whether the bit `k` of `field` is set.
pub open spec fn bit(field: u32, k: u32) -> bool {
    k < 32 && (field >> k) & 1 == 1
}

/// Which packets of the other side have arrived: the newest tick received,
/// and one bit for each of the `ACK_WINDOW` ticks before it, the lowest bit
/// for the tick just before.
#[derive(Clone, Copy, Debug)]
pub struct Ack {
    pub rmt_num: u16,
    pub bitfield: u32,
}

impl Ack {
    /// Whether the record says that the packet of tick `t` has arrived.
    pub open spec fn acked(&self, t: u16) -> bool {
        let d = tick_ahead(self.rmt_num, t);
        d == 0 || (1 <= d <= ACK_WINDOW && bit(self.bitfield, (d - 1) as u32))
    }

    /// Whether the record can speak of the tick `t`.
    pub open spec fn covers(&self, t: u16) -> bool {
        tick_ahead(self.rmt_num, t) <= ACK_WINDOW
    }

    /// `self` is `before` after the packet of tick `seq` has been noted: it
    /// holds `seq` and whatever `before` held, as far as it covers them, and
    /// its newest tick is the newer of `seq` and the newest of `before`.
    pub open spec fn follows(&self, before: &Ack, seq: u16) -> bool {
        &&& self.rmt_num == if tick_newer(seq, before.rmt_num) {
            seq
        } else {
            before.rmt_num
        }
        &&& forall|t: u16|
            #[trigger] self.acked(t) <==> self.covers(t) && (t == seq || before.acked(t))
    }

    /// The record at the start of a match.
    pub fn new() -> (a: Ack)
        ensures
            a.rmt_num == 0,
            a.bitfield == 0,
            forall|t: u16| #[trigger] a.acked(t) <==> t == 0,
    {
        let a = Ack { rmt_num: 0, bitfield: 0 };
        assert forall|t: u16| #[trigger] a.acked(t) <==> t == 0 by {
            let d = tick_ahead(0, t);
            if 1 <= d <= 32 {
                let k: u32 = (d - 1) as u32;
                assert((0u32 >> k) & 1 != 1) by (bit_vector);
            }
        }
        a
    }

    /// Whether the record says that the packet of tick `t` has arrived.
    pub fn is_acked(&self, t: u16) -> (r: bool)
        ensures
            r == self.acked(t),
    {
        let d: u16 = self.rmt_num.wrapping_sub(t);
        if d == 0 {
            true
        } else if d <= 32 {
            let k: u32 = (d - 1) as u32;
            (self.bitfield >> k) & 1 == 1
        } else {
            false
        }
    }

    /// The ticks which the record covers and whose packets have not arrived,
    /// newest first. A sender learns from them which of its packets to send
    /// again, if it wants to.
    pub fn lost(&self) -> (out: Vec<u16>)
        ensures
            forall|t: u16| out@.contains(t) <==> self.covers(t) && !self.acked(t),
            forall|i: int, j: int|
                0 <= i < j < out.len() ==> tick_ahead(self.rmt_num, out[i]) < tick_ahead(
                    self.rmt_num,
                    out[j],
                ),
    {
        let mut out: Vec<u16> = Vec::new();
        let mut d: u16 = 1;
        while d <= 32
            invariant
                1 <= d <= 33,
                forall|i: int|
                    0 <= i < out.len() ==> {
                        &&& 1 <= tick_ahead(self.rmt_num, #[trigger] out[i]) < d
                        &&& !self.acked(out[i])
                    },
                forall|t: u16|
                    1 <= tick_ahead(self.rmt_num, t) < d && !self.acked(t) ==> out@.contains(t),
                forall|i: int, j: int|
                    0 <= i < j < out.len() ==> tick_ahead(self.rmt_num, out[i]) < tick_ahead(
                        self.rmt_num,
                        out[j],
                    ),
            decreases 33 - d,
        {
            let t: u16 = self.rmt_num.wrapping_sub(d);
            assert(tick_ahead(self.rmt_num, t) == d);
            let ghost before = out@;
            if !self.is_acked(t) {
                out.push(t);
                assert(out@[out.len() - 1] == t);
            }
            assert forall|u: u16|
                1 <= tick_ahead(self.rmt_num, u) < d + 1 && !self.acked(u) implies out@.contains(
                u,
            ) by {
                if tick_ahead(self.rmt_num, u) == d {
                    assert(u == t);
                    assert(out@[out.len() - 1] == t);
                } else {
                    assert(before.contains(u));
                    let i = choose|i: int| 0 <= i < before.len() && before[i] == u;
                    assert(out@[i] == u);
                }
            }
            d += 1;
        }
        assert forall|t: u16| out@.contains(t) implies self.covers(t) && !self.acked(t) by {
            let i = choose|i: int| 0 <= i < out.len() && out[i] == t;
        }
        out
    }

    /// Notes that the packet of tick `seq` has arrived. A tick newer than all
    /// before becomes the newest, and the bits move up by as many places as
    /// it is newer. An older tick sets its bit if the record still covers it.
    /// Afterwards the record holds `seq` and whatever it held before, as far
    /// as it covers them.
    pub fn record(&mut self, seq: u16)
        ensures
            final(self).follows(old(self), seq),
    {
        let ahead: u16 = seq.wrapping_sub(self.rmt_num);
        if ahead == 0 {
            return ;
        }
        let field: u32 = self.bitfield;
        let ghost before = *self;
        if ahead < 32768 {
            let s: u32 = ahead as u32;
            let moved: u32 = if s > 32 {
                0
            } else if s == 32 {
                1u32 << 31
            } else {
                (field << s) | (1u32 << ((s - 1) as u32))
            };
            self.bitfield = moved;
            self.rmt_num = seq;
            proof {
                assert forall|t: u16| #[trigger]
                    self.acked(t) <==> self.covers(t) && (t == seq || before.acked(t)) by {
                    let d1 = tick_ahead(seq, t);
                    let d0 = tick_ahead(before.rmt_num, t);
                    if 1 <= d1 <= 32 {
                        let k: u32 = (d1 - 1) as u32;
                        lemma_moved_bits(field, s, k);
                        if d1 >= s {
                            assert(d0 == d1 - s);
                        } else {
                            assert(d0 == d1 - s + 65536);
                        }
                    }
                }
            }
        } else {
            let behind: u16 = self.rmt_num.wrapping_sub(seq);
            if behind <= 32 {
                let b: u32 = (behind - 1) as u32;
                self.bitfield = field | (1u32 << b);
                proof {
                    assert forall|t: u16| #[trigger]
                        self.acked(t) <==> self.covers(t) && (t == seq || before.acked(t)) by {
                        let d = tick_ahead(before.rmt_num, t);
                        if 1 <= d <= 32 {
                            let k: u32 = (d - 1) as u32;
                            lemma_set_bit(field, b, k);
                        }
                    }
                }
            }
        }
    }
}

/// The bits of a record after its newest tick has moved on by `s`.
proof fn lemma_moved_bits(field: u32, s: u32, k: u32)
    requires
        1 <= s,
        k < 32,
    ensures
        s > 32 ==> !bit(0, k),
        s == 32 ==> (bit(1u32 << 31, k) <==> k == 31),
        s < 32 ==> (bit((field << s) | (1u32 << ((s - 1) as u32)), k) <==> (if k >= s {
            bit(field, (k - s) as u32)
        } else {
            k == s - 1
        })),
{
    assert((0u32 >> k) & 1 != 1) by (bit_vector);
    assert(k < 32 ==> (((1u32 << 31) >> k) & 1 == 1 <==> k == 31)) by (bit_vector);
    if s < 32 {
        let j: u32 = (s - 1) as u32;
        if k >= s {
            let m: u32 = (k - s) as u32;
            assert((((field << s) | (1u32 << j)) >> k) & 1 == (field >> m) & 1) by (bit_vector)
                requires
                    1 <= s < 32,
                    s <= k < 32,
                    j == s - 1,
                    m == k - s,
            ;
        } else {
            assert(((((field << s) | (1u32 << j)) >> k) & 1 == 1) <==> k == j) by (bit_vector)
                requires
                    1 <= s < 32,
                    k < s,
                    j == s - 1,
            ;
        }
    }
}

/// Setting one bit leaves the others as they are.
proof fn lemma_set_bit(field: u32, b: u32, k: u32)
    requires
        b < 32,
        k < 32,
    ensures
        bit(field | (1u32 << b), k) <==> bit(field, k) || k == b,
{
    assert((((field | (1u32 << b)) >> k) & 1 == 1) <==> ((field >> k) & 1 == 1 || k == b))
        by (bit_vector)
        requires
            b < 32,
            k < 32,
    ;
}

/// Carries the state of every entity over into `tick`: position, direction
/// and health as they were at the tick before, and no events.
pub fn carry_forward_all(tick: u16, buffers: &mut Vec<NetEntity>)
    requires
        forall|i: int| 0 <= i < old(buffers).len() ==> (#[trigger] old(buffers)[i]).wf(),
    ensures
        final(buffers).len() == old(buffers).len(),
        forall|i: int|
            0 <= i < final(buffers).len() ==> is_carried(
                &old(buffers)[i],
                #[trigger] &final(buffers)[i],
                tick,
            ),
        forall|i: int|
            0 <= i < final(buffers).len() && old(buffers)[i].defined_at(tick_plus(tick, -1)) ==> (
            #[trigger] final(buffers)[i]).defined_at(tick),
        forall|i: int|
            0 <= i < final(buffers).len() ==> lookup((#[trigger] final(buffers)[i]).events@, tick)
                == Some(0u8),
{
    let n = buffers.len();
    let mut k: usize = 0;
    while k < n
        invariant
            n == buffers.len(),
            n == old(buffers).len(),
            k <= n,
            forall|i: int| 0 <= i < n ==> (#[trigger] old(buffers)[i]).wf(),
            forall|i: int| k <= i < n ==> buffers[i] == old(buffers)[i],
            forall|i: int| 0 <= i < k ==> is_carried(&old(buffers)[i], #[trigger] &buffers[i], tick),
        decreases n - k,
    {
        assert(old(buffers)[k as int].wf());
        buffers[k].pos.carry_forward(tick);
        buffers[k].dir.carry_forward(tick);
        buffers[k].hp.carry_forward(tick);
        buffers[k].events.set(tick, 0);
        k += 1;
    }
}

/// Moves the clock one tick on and carries the state of every entity over
/// into the new tick. An entity whose position, direction and health were
/// known at the old tick has them known at the new one, and no entity has
/// events at the new tick.
pub fn increment_tick(tick: &mut TickNum, buffers: &mut Vec<NetEntity>)
    requires
        forall|i: int| 0 <= i < old(buffers).len() ==> (#[trigger] old(buffers)[i]).wf(),
    ensures
        final(tick).0 == tick_plus(old(tick).0, 1),
        final(buffers).len() == old(buffers).len(),
        forall|i: int|
            0 <= i < final(buffers).len() ==> is_carried(
                &old(buffers)[i],
                #[trigger] &final(buffers)[i],
                final(tick).0,
            ),
        forall|i: int|
            0 <= i < final(buffers).len() && old(buffers)[i].defined_at(old(tick).0) ==> (
            #[trigger] final(buffers)[i]).defined_at(final(tick).0),
        forall|i: int|
            0 <= i < final(buffers).len() ==> lookup(
                (#[trigger] final(buffers)[i]).events@,
                final(tick).0,
            ) == Some(0u8),
{
    proof {
        lemma_tick_plus_inverse(tick.0, 1);
    }
    tick.advance();
    carry_forward_all(tick.0, buffers);
}

/// `after` is `before` with its state carried over into `tick`.
pub open spec fn is_carried(before: &NetEntity, after: &NetEntity, tick: u16) -> bool {
    &&& after.wf()
    &&& after.id == before.id
    &&& after.pos.cap() == before.pos.cap()
    &&& after.dir.cap() == before.dir.cap()
    &&& after.hp.cap() == before.hp.cap()
    &&& after.events.cap() == before.events.cap()
    &&& after.pos@ == carried(before.pos@, before.pos.cap(), tick)
    &&& after.dir@ == carried(before.dir@, before.dir.cap(), tick)
    &&& after.hp@ == carried(before.hp@, before.hp.cap(), tick)
    &&& after.events@ == overwrite(before.events@, before.events.cap(), tick, 0u8)
}

} // verus!
