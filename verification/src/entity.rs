//! A networked entity: its id and the histories of what is replicated of it.

use vstd::prelude::*;
use crate::buffers::{lookup, overwrite, DirBuffer, EventBuffer, HpBuffer, PosBuffer};
use crate::world::Pos;

verus! {

/// The health of an entity as the game rules see it.
#[derive(Clone, Copy, Debug)]
pub struct Health {
    pub current: u8,
    pub max: u8,
    pub dead: bool,
}

/// What the host knows of an entity at one tick.
#[derive(Clone, Copy, PartialEq, Eq, Structural, Debug)]
pub struct Snapshot {
    pub pos: Pos,
    pub hp: u8,
    pub events: u8,
}

/// Values to write into the histories of an entity for one tick. A field
/// that is empty leaves its history alone.
#[derive(Clone, Copy, Debug)]
pub struct Update {
    pub pos: Option<Pos>,
    pub dir: Option<i32>,
    pub hp: Option<u8>,
    pub events: Option<u8>,
}

/// The history `m` after `v`, if there is one, has been written for `seq`.
pub open spec fn written<T>(m: Map<u16, T>, cap: nat, seq: u16, v: Option<T>) -> Map<u16, T> {
    match v {
        Some(x) => overwrite(m, cap, seq, x),
        None => m,
    }
}

/// What raising `flag` among the events of `tick` writes, where `events` is
/// the history of events before: the flags set there already, and `flag`.
pub open spec fn flag_update(events: Map<u16, u8>, tick: u16, flag: u8) -> Update {
    Update {
        pos: None,
        dir: None,
        hp: None,
        events: Some(
            match lookup(events, tick) {
                Some(e) => e | flag,
                None => flag,
            },
        ),
    }
}

/// A player or an enemy, with one history for each replicated attribute.
pub struct NetEntity {
    pub id: u8,
    pub pos: PosBuffer,
    pub dir: DirBuffer,
    pub hp: HpBuffer,
    pub events: EventBuffer,
}

impl NetEntity {
    /// Each history is well formed.
    pub open spec fn wf(&self) -> bool {
        &&& self.pos.wf()
        &&& self.dir.wf()
        &&& self.hp.wf()
        &&& self.events.wf()
    }

    /// Position, direction and health are known at `tick`.
    pub open spec fn defined_at(&self, tick: u16) -> bool {
        &&& self.pos@.contains_key(tick)
        &&& self.dir@.contains_key(tick)
        &&& self.hp@.contains_key(tick)
    }

    /// The snapshot of the entity at `tick`: its position and health, where
    /// both are known, with its event flags, which count as none where they
    /// are not known.
    pub open spec fn snapshot_at(&self, tick: u16) -> Option<Snapshot> {
        if self.pos@.contains_key(tick) && self.hp@.contains_key(tick) {
            Some(
                Snapshot {
                    pos: self.pos@[tick],
                    hp: self.hp@[tick],
                    events: match lookup(self.events@, tick) {
                        Some(e) => e,
                        None => 0,
                    },
                },
            )
        } else {
            None
        }
    }

    /// `self` is `before` after `u` has been written for `seq`.
    pub open spec fn updated_from(&self, before: &NetEntity, seq: u16, u: Update) -> bool {
        &&& self.wf()
        &&& self.id == before.id
        &&& self.pos.cap() == before.pos.cap()
        &&& self.dir.cap() == before.dir.cap()
        &&& self.hp.cap() == before.hp.cap()
        &&& self.events.cap() == before.events.cap()
        &&& self.pos@ == written(before.pos@, before.pos.cap(), seq, u.pos)
        &&& self.dir@ == written(before.dir@, before.dir.cap(), seq, u.dir)
        &&& self.hp@ == written(before.hp@, before.hp.cap(), seq, u.hp)
        &&& self.events@ == written(before.events@, before.events.cap(), seq, u.events)
    }

    /// `self` has just entered the world at `tick` with the given position,
    /// direction and health, and without events: nothing else is written in
    /// its histories, each of which has `capacity` slots.
    pub open spec fn is_fresh(
        &self,
        id: u8,
        capacity: nat,
        tick: u16,
        pos: Pos,
        dir: i32,
        hp: u8,
    ) -> bool {
        &&& self.wf()
        &&& self.id == id
        &&& self.pos.cap() == capacity
        &&& self.dir.cap() == capacity
        &&& self.hp.cap() == capacity
        &&& self.events.cap() == capacity
        &&& self.pos@ == Map::<u16, Pos>::empty().insert(tick, pos)
        &&& self.dir@ == Map::<u16, i32>::empty().insert(tick, dir)
        &&& self.hp@ == Map::<u16, u8>::empty().insert(tick, hp)
        &&& self.events@ == Map::<u16, u8>::empty().insert(tick, 0u8)
    }

    /// An entity that enters the world at `tick` with the given position,
    /// direction and health, and without events. Each history has `capacity`
    /// slots.
    pub fn new(id: u8, capacity: usize, tick: u16, pos: Pos, dir: i32, hp: u8) -> (e: NetEntity)
        requires
            0 < capacity,
        ensures
            e.is_fresh(id, capacity as nat, tick, pos, dir, hp),
            e.defined_at(tick),
            e.snapshot_at(tick) == Some(Snapshot { pos, hp, events: 0 }),
    {
        NetEntity {
            id,
            pos: PosBuffer::new_from(capacity, tick, pos),
            dir: DirBuffer::new_from(capacity, tick, dir),
            hp: HpBuffer::new_from(capacity, tick, hp),
            events: EventBuffer::new_from(capacity, tick, 0),
        }
    }

    /// Writes the fields of `u` that are there for `seq`.
    pub fn apply(&mut self, seq: u16, u: &Update)
        requires
            old(self).wf(),
        ensures
            final(self).updated_from(old(self), seq, *u),
    {
        if let Some(p) = u.pos {
            self.pos.set(seq, p);
        }
        if let Some(d) = u.dir {
            self.dir.set(seq, d);
        }
        if let Some(h) = u.hp {
            self.hp.set(seq, h);
        }
        if let Some(e) = u.events {
            self.events.set(seq, e);
        }
    }

    /// Writes `snap` for `tick`. A read of `tick` then gives `snap` back.
    pub fn write_snapshot(&mut self, tick: u16, snap: Snapshot)
        requires
            old(self).wf(),
        ensures
            final(self).updated_from(
                old(self),
                tick,
                Update { pos: Some(snap.pos), dir: None, hp: Some(snap.hp), events: Some(snap.events) },
            ),
            final(self).snapshot_at(tick) == Some(snap),
    {
        self.pos.set(tick, snap.pos);
        self.hp.set(tick, snap.hp);
        self.events.set(tick, snap.events);
    }

    /// The snapshot of the entity at `tick`, if position and health are known
    /// there.
    pub fn snapshot(&self, tick: u16) -> (r: Option<Snapshot>)
        requires
            self.wf(),
        ensures
            r == self.snapshot_at(tick),
    {
        let pos = match self.pos.get(tick) {
            Some(p) => p,
            None => {
                return None;
            },
        };
        let hp = match self.hp.get(tick) {
            Some(h) => h,
            None => {
                return None;
            },
        };
        let events = match self.events.get(tick) {
            Some(e) => e,
            None => 0,
        };
        Some(Snapshot { pos, hp, events })
    }

    /// Sets the flags of `flag` among the events of `tick`, beside those
    /// that are set there already.
    pub fn raise(&mut self, tick: u16, flag: u8)
        requires
            old(self).wf(),
        ensures
            final(self).updated_from(old(self), tick, flag_update(old(self).events@, tick, flag)),
    {
        let events = match self.events.get(tick) {
            Some(e) => e | flag,
            None => flag,
        };
        self.events.set(tick, events);
    }
}

/// Writes `u` for `seq` into the histories of every entity with the id `id`,
/// and leaves all other entities as they are.
pub fn apply_to(entities: &mut Vec<NetEntity>, id: u8, seq: u16, u: &Update)
    requires
        forall|i: int| 0 <= i < old(entities).len() ==> (#[trigger] old(entities)[i]).wf(),
    ensures
        final(entities).len() == old(entities).len(),
        forall|i: int|
            0 <= i < old(entities).len() ==> if old(entities)[i].id == id {
                (#[trigger] final(entities)[i]).updated_from(&old(entities)[i], seq, *u)
            } else {
                final(entities)[i] == old(entities)[i]
            },
        forall|i: int| 0 <= i < final(entities).len() ==> (#[trigger] final(entities)[i]).wf(),
{
    let n = entities.len();
    let mut k: usize = 0;
    while k < n
        invariant
            n == entities.len(),
            n == old(entities).len(),
            k <= n,
            forall|i: int| 0 <= i < n ==> (#[trigger] old(entities)[i]).wf(),
            forall|i: int| k <= i < n ==> entities[i] == old(entities)[i],
            forall|i: int|
                0 <= i < k ==> if old(entities)[i].id == id {
                    (#[trigger] entities[i]).updated_from(&old(entities)[i], seq, *u)
                } else {
                    entities[i] == old(entities)[i]
                },
        decreases n - k,
    {
        assert(old(entities)[k as int].wf());
        if entities[k].id == id {
            entities[k].apply(seq, u);
        }
        k += 1;
    }
}

} // verus!
