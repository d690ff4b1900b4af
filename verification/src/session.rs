//! One participant's side of a match: its role, its clock, the entities it
//! tracks, and, for each connection, what it has heard from the other end.

use vstd::prelude::*;
use crate::buffers::lookup;
use crate::entity::{NetEntity, Update};
use crate::net::{carry_forward_all, is_carried, Ack, IsHost};
use crate::packets::{
    decode, encoding, enemy_tick_update, handle_packet, lemma_encoding_injective, EnemyTick,
    EnemyTickEvent, Packet,
};
use crate::player::{
    handle_packet_client, handle_packet_host, player_tick_update, user_cmd_update, PlayerTick,
    PlayerTickEvent, UserCmd, UserCmdEvent,
};
use crate::tick::{is_newer, lemma_tick_plus_inverse, tick_newer, tick_plus, TickNum};

verus! {

/// One connection: a client's to the host, or the host's to one client.
#[derive(Clone, Copy, Debug)]
pub struct Link {
    /// Which packets of the other end have arrived here.
    pub ack: Ack,
    /// What the other end last said of the packets that arrived there.
    pub peer: Ack,
}

/// The state of one participant.
pub struct Session {
    /// Host or client; fixed for the match.
    pub role: IsHost,
    /// The tick that is being written.
    pub tick: TickNum,
    /// The player this participant controls.
    pub local: u8,
    /// The connections, each with its own record of what has arrived.
    pub links: Vec<Link>,
    pub players: Vec<NetEntity>,
    pub enemies: Vec<NetEntity>,
}

/// `after` is the connection `before` after the packet `p` has come in over
/// it, at a participant of the role `role`. A packet that is not for the role
/// changes nothing. The tick of a snapshot or a command is noted as arrived.
/// An acknowledgment replaces the one kept, unless it is older.
pub open spec fn link_after(before: Link, after: Link, role: IsHost, p: Packet) -> bool {
    if !accepts(role, p) {
        after == before
    } else {
        match p {
            Packet::Ack { rmt_num, bitfield } => {
                &&& after.ack == before.ack
                &&& after.peer == if tick_newer(before.peer.rmt_num, rmt_num) {
                    before.peer
                } else {
                    Ack { rmt_num, bitfield }
                }
            },
            _ => {
                &&& after.peer == before.peer
                &&& seq_of(p) matches Some(seq)
                &&& after.ack.follows(&before.ack, seq)
            },
        }
    }
}

/// The tick which a packet speaks of, where it speaks of one.
pub open spec fn seq_of(p: Packet) -> Option<u16> {
    match p {
        Packet::PlayerTick(e) => Some(e.seq_num),
        Packet::EnemyTick(e) => Some(e.seq_num),
        Packet::UserCmd(e) => Some(e.seq_num),
        Packet::Ack { .. } => None,
    }
}

/// Whether a participant of the role `role` takes the packet `p`: the host
/// takes commands, a client takes snapshots, and both take acknowledgments.
pub open spec fn accepts(role: IsHost, p: Packet) -> bool {
    match p {
        Packet::PlayerTick(_) => !role.0,
        Packet::EnemyTick(_) => !role.0,
        Packet::UserCmd(_) => role.0,
        Packet::Ack { .. } => true,
    }
}

/// The packets that tell the snapshots at `tick` of those of `players` that
/// have one, in order.
pub open spec fn player_ticks(players: Seq<NetEntity>, tick: u16) -> Seq<Packet>
    decreases players.len(),
{
    if players.len() == 0 {
        Seq::empty()
    } else {
        let e = players.last();
        let rest = player_ticks(players.drop_last(), tick);
        match e.snapshot_at(tick) {
            Some(s) => rest.push(
                Packet::PlayerTick(
                    PlayerTickEvent {
                        seq_num: tick,
                        id: e.id,
                        tick: PlayerTick { pos: s.pos, hp: s.hp },
                    },
                ),
            ),
            None => rest,
        }
    }
}

/// The packets that tell the snapshots at `tick` of those of `enemies` that
/// have one, in order.
pub open spec fn enemy_ticks(enemies: Seq<NetEntity>, tick: u16) -> Seq<Packet>
    decreases enemies.len(),
{
    if enemies.len() == 0 {
        Seq::empty()
    } else {
        let e = enemies.last();
        let rest = enemy_ticks(enemies.drop_last(), tick);
        match e.snapshot_at(tick) {
            Some(s) => rest.push(
                Packet::EnemyTick(
                    EnemyTickEvent {
                        seq_num: tick,
                        tick: EnemyTick { id: e.id, pos: s.pos, hp: s.hp, events: s.events },
                    },
                ),
            ),
            None => rest,
        }
    }
}

/// The packets that tell position and direction at `tick` of those of
/// `players` that have the id `local` and know both, in order.
pub open spec fn user_cmds(players: Seq<NetEntity>, local: u8, tick: u16) -> Seq<Packet>
    decreases players.len(),
{
    if players.len() == 0 {
        Seq::empty()
    } else {
        let e = players.last();
        let rest = user_cmds(players.drop_last(), local, tick);
        if e.id == local && e.pos@.contains_key(tick) && e.dir@.contains_key(tick) {
            rest.push(
                Packet::UserCmd(
                    UserCmdEvent {
                        seq_num: tick,
                        id: e.id,
                        tick: UserCmd { pos: e.pos@[tick], dir: e.dir@[tick] },
                    },
                ),
            )
        } else {
            rest
        }
    }
}

/// All of `entities` are well formed.
pub open spec fn all_wf(entities: Seq<NetEntity>) -> bool {
    forall|i: int| 0 <= i < entities.len() ==> (#[trigger] entities[i]).wf()
}

/// `after` is `before` with `u` written for `seq` into every entity with the
/// id `id`.
pub open spec fn all_updated(
    before: Seq<NetEntity>,
    after: Seq<NetEntity>,
    id: u8,
    seq: u16,
    u: Update,
) -> bool {
    &&& after.len() == before.len()
    &&& forall|i: int|
        0 <= i < before.len() ==> if before[i].id == id {
            (#[trigger] after[i]).updated_from(&before[i], seq, u)
        } else {
            after[i] == before[i]
        }
}

impl Session {
    /// Every entity is well formed.
    pub open spec fn wf(&self) -> bool {
        all_wf(self.players@) && all_wf(self.enemies@)
    }

    /// What the participant sends over the connection `link` after the
    /// simulation of a tick: the host the snapshots of all players and
    /// enemies, a client the command for its own player; then, either of
    /// them, the acknowledgment of that connection, if there is such a
    /// connection.
    pub open spec fn outgoing(&self, link: int) -> Seq<Packet> {
        let told = if self.role.0 {
            player_ticks(self.players@, self.tick.0) + enemy_ticks(self.enemies@, self.tick.0)
        } else {
            user_cmds(self.players@, self.local, self.tick.0)
        };
        if 0 <= link < self.links@.len() {
            told.push(
                Packet::Ack {
                    rmt_num: self.links@[link].ack.rmt_num,
                    bitfield: self.links@[link].ack.bitfield,
                },
            )
        } else {
            told
        }
    }

    /// What the packet `p` makes of the entities of `before`: a snapshot or
    /// a command that is for the role is written into the histories of the
    /// entity it speaks of, and nothing else changes.
    pub open spec fn entities_after(&self, before: &Session, p: Packet) -> bool {
        if !accepts(before.role, p) {
            self.players@ == before.players@ && self.enemies@ == before.enemies@
        } else {
            match p {
                Packet::PlayerTick(e) => {
                    &&& all_updated(
                        before.players@,
                        self.players@,
                        e.id,
                        e.seq_num,
                        player_tick_update(e.tick),
                    )
                    &&& self.enemies@ == before.enemies@
                },
                Packet::EnemyTick(e) => {
                    &&& all_updated(
                        before.enemies@,
                        self.enemies@,
                        e.tick.id,
                        e.seq_num,
                        enemy_tick_update(e.tick),
                    )
                    &&& self.players@ == before.players@
                },
                Packet::UserCmd(e) => {
                    &&& all_updated(
                        before.players@,
                        self.players@,
                        e.id,
                        e.seq_num,
                        user_cmd_update(e.tick),
                    )
                    &&& self.enemies@ == before.enemies@
                },
                Packet::Ack { .. } => {
                    self.players@ == before.players@ && self.enemies@ == before.enemies@
                },
            }
        }
    }

    /// `self` is `before` after the packet `p` has come in over the
    /// connection `link`. Only that connection and the entities that the
    /// packet speaks of can have changed.
    pub open spec fn after_packet(&self, before: &Session, link: int, p: Packet) -> bool {
        &&& self.role == before.role
        &&& self.tick == before.tick
        &&& self.local == before.local
        &&& self.wf()
        &&& self.entities_after(before, p)
        &&& self.links@.len() == before.links@.len()
        &&& forall|j: int|
            0 <= j < before.links@.len() && j != link ==> self.links@[j] == before.links@[j]
        &&& link_after(before.links@[link], self.links@[link], before.role, p)
    }

    /// A participant at the start of a match, without entities.
    pub fn new(is_host: bool, local: u8) -> (s: Session)
        ensures
            s.wf(),
            s.role.0 == is_host,
            s.local == local,
            s.tick.0 == 0,
            s.links@.len() == 0,
            s.players@.len() == 0,
            s.enemies@.len() == 0,
    {
        Session {
            role: IsHost(is_host),
            tick: TickNum::new(),
            local,
            links: Vec::new(),
            players: Vec::new(),
            enemies: Vec::new(),
        }
    }

    /// Opens a connection, over which nothing has arrived yet, and gives
    /// its number.
    pub fn connect(&mut self) -> (link: usize)
        ensures
            link == old(self).links@.len(),
            final(self).links@.len() == old(self).links@.len() + 1,
            forall|j: int| 0 <= j < old(self).links@.len() ==> final(self).links@[j] == old(self).links@[j],
            final(self).links@[link as int].ack.rmt_num == 0,
            final(self).links@[link as int].ack.bitfield == 0,
            final(self).links@[link as int].peer.rmt_num == 0,
            final(self).links@[link as int].peer.bitfield == 0,
            final(self).role == old(self).role,
            final(self).tick == old(self).tick,
            final(self).local == old(self).local,
            final(self).players@ == old(self).players@,
            final(self).enemies@ == old(self).enemies@,
    {
        let link = self.links.len();
        self.links.push(Link { ack: Ack::new(), peer: Ack::new() });
        link
    }

    /// Moves the clock one tick on and carries every entity over into the new
    /// tick.
    pub fn advance(&mut self)
        requires
            old(self).wf(),
        ensures
            final(self).wf(),
            final(self).role == old(self).role,
            final(self).local == old(self).local,
            final(self).links@ == old(self).links@,
            final(self).tick.0 == tick_plus(old(self).tick.0, 1),
            final(self).players@.len() == old(self).players@.len(),
            final(self).enemies@.len() == old(self).enemies@.len(),
            forall|i: int|
                0 <= i < final(self).players@.len() ==> is_carried(
                    &old(self).players@[i],
                    #[trigger] &final(self).players@[i],
                    final(self).tick.0,
                ),
            forall|i: int|
                0 <= i < final(self).enemies@.len() ==> is_carried(
                    &old(self).enemies@[i],
                    #[trigger] &final(self).enemies@[i],
                    final(self).tick.0,
                ),
            forall|i: int|
                0 <= i < final(self).players@.len() && old(self).players@[i].defined_at(
                    old(self).tick.0,
                ) ==> (#[trigger] final(self).players@[i]).defined_at(final(self).tick.0),
            forall|i: int|
                0 <= i < final(self).enemies@.len() && old(self).enemies@[i].defined_at(
                    old(self).tick.0,
                ) ==> (#[trigger] final(self).enemies@[i]).defined_at(final(self).tick.0),
            forall|i: int|
                0 <= i < final(self).players@.len() ==> lookup(
                    (#[trigger] final(self).players@[i]).events@,
                    final(self).tick.0,
                ) == Some(0u8),
            forall|i: int|
                0 <= i < final(self).enemies@.len() ==> lookup(
                    (#[trigger] final(self).enemies@[i]).events@,
                    final(self).tick.0,
                ) == Some(0u8),
    {
        proof {
            lemma_tick_plus_inverse(self.tick.0, 1);
        }
        self.tick.advance();
        carry_forward_all(self.tick.0, &mut self.players);
        carry_forward_all(self.tick.0, &mut self.enemies);
    }

    /// Takes a datagram that has come in over the connection `link`. What
    /// is no datagram of the protocol is dropped, and so is a packet that is
    /// not for this role, or one that comes over no connection; the answer
    /// is then `false` and nothing has changed.
    pub fn receive(&mut self, link: usize, bytes: &Vec<u8>) -> (taken: bool)
        requires
            old(self).wf(),
        ensures
            final(self).wf(),
            link >= old(self).links@.len() || (forall|p: Packet| encoding(p) != bytes@) ==> !taken
                && *final(self) == *old(self),
            link < old(self).links@.len() ==> forall|p: Packet|
                encoding(p) == bytes@ ==> taken == accepts(old(self).role, p) && final(self).after_packet(old(self), link as int, p),
    {
        if link >= self.links.len() {
            return false;
        }
        let packet = match decode(bytes) {
            Some(p) => p,
            None => {
                return false;
            },
        };
        proof {
            assert forall|p: Packet| encoding(p) == bytes@ implies p == packet by {
                lemma_encoding_injective(p, packet);
            }
        }
        match packet {
            Packet::PlayerTick(e) => {
                if self.role.0 {
                    return false;
                }
                handle_packet_client(&mut self.players, &e);
                self.links[link].ack.record(e.seq_num);
                true
            },
            Packet::EnemyTick(e) => {
                if self.role.0 {
                    return false;
                }
                handle_packet(&mut self.enemies, &e);
                self.links[link].ack.record(e.seq_num);
                true
            },
            Packet::UserCmd(e) => {
                if !self.role.0 {
                    return false;
                }
                handle_packet_host(&mut self.players, &e);
                self.links[link].ack.record(e.seq_num);
                true
            },
            Packet::Ack { rmt_num, bitfield } => {
                if !is_newer(self.links[link].peer.rmt_num, rmt_num) {
                    self.links[link].peer = Ack { rmt_num, bitfield };
                }
                true
            },
        }
    }

    /// The packets to send over the connection `link` after the simulation
    /// of the current tick.
    pub fn outbound(&self, link: usize) -> (out: Vec<Packet>)
        requires
            self.wf(),
        ensures
            out@ == self.outgoing(link as int),
    {
        let tick: u16 = self.tick.0;
        let mut out: Vec<Packet> = Vec::new();
        if self.role.0 {
            let mut k: usize = 0;
            assert(self.players@.take(0) =~= Seq::<NetEntity>::empty());
            while k < self.players.len()
                invariant
                    self.wf(),
                    k <= self.players.len(),
                    out@ == player_ticks(self.players@.take(k as int), tick),
                decreases self.players.len() - k,
            {
                assert(self.players@.take(k + 1).drop_last() =~= self.players@.take(k as int));
                assert(self.players@.take(k + 1).last() == self.players@[k as int]);
                assert(self.players@[k as int].wf());
                let e = &self.players[k];
                if let Some(s) = e.snapshot(tick) {
                    out.push(
                        Packet::PlayerTick(
                            PlayerTickEvent {
                                seq_num: tick,
                                id: e.id,
                                tick: PlayerTick { pos: s.pos, hp: s.hp },
                            },
                        ),
                    );
                }
                k += 1;
            }
            assert(self.players@.take(k as int) =~= self.players@);
            let ghost first = out@;
            let mut j: usize = 0;
            assert(self.enemies@.take(0) =~= Seq::<NetEntity>::empty());
            while j < self.enemies.len()
                invariant
                    self.wf(),
                    j <= self.enemies.len(),
                    out@ == first + enemy_ticks(self.enemies@.take(j as int), tick),
                decreases self.enemies.len() - j,
            {
                assert(self.enemies@.take(j + 1).drop_last() =~= self.enemies@.take(j as int));
                assert(self.enemies@.take(j + 1).last() == self.enemies@[j as int]);
                assert(self.enemies@[j as int].wf());
                let e = &self.enemies[j];
                if let Some(s) = e.snapshot(tick) {
                    out.push(
                        Packet::EnemyTick(
                            EnemyTickEvent {
                                seq_num: tick,
                                tick: EnemyTick { id: e.id, pos: s.pos, hp: s.hp, events: s.events },
                            },
                        ),
                    );
                }
                j += 1;
            }
            assert(self.enemies@.take(j as int) =~= self.enemies@);
        } else {
            let mut k: usize = 0;
            assert(self.players@.take(0) =~= Seq::<NetEntity>::empty());
            while k < self.players.len()
                invariant
                    self.wf(),
                    k <= self.players.len(),
                    out@ == user_cmds(self.players@.take(k as int), self.local, tick),
                decreases self.players.len() - k,
            {
                assert(self.players@.take(k + 1).drop_last() =~= self.players@.take(k as int));
                assert(self.players@.take(k + 1).last() == self.players@[k as int]);
                assert(self.players@[k as int].wf());
                let e = &self.players[k];
                if e.id == self.local {
                    if let Some(pos) = e.pos.get(tick) {
                        if let Some(dir) = e.dir.get(tick) {
                            out.push(
                                Packet::UserCmd(
                                    UserCmdEvent {
                                        seq_num: tick,
                                        id: e.id,
                                        tick: UserCmd { pos, dir },
                                    },
                                ),
                            );
                        }
                    }
                }
                k += 1;
            }
            assert(self.players@.take(k as int) =~= self.players@);
        }
        if link < self.links.len() {
            let ack = self.links[link].ack;
            out.push(Packet::Ack { rmt_num: ack.rmt_num, bitfield: ack.bitfield });
        }
        out
    }
}

} // verus!
