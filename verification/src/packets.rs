//! The datagrams of the protocol as bytes.
//!
//! Every datagram begins with the magic number and a byte which says what it
//! carries. Numbers are written with their low byte first, signed ones in
//! two's complement.

use vstd::prelude::*;
use crate::entity::{apply_to, NetEntity, Update};
use crate::net::{Ack, MAGIC_NUMBER, MAX_DATAGRAM_SIZE};
use crate::player::{PlayerTick, PlayerTickEvent, UserCmd, UserCmdEvent};
use crate::world::Pos;

verus! {

/// What the host tells of an enemy for one tick.
#[derive(Clone, Copy, PartialEq, Eq, Structural, Debug)]
pub struct EnemyTick {
    pub id: u8,
    pub pos: Pos,
    pub hp: u8,
    pub events: u8,
}

/// A snapshot of an enemy for the tick `seq_num`, as it came from the host.
#[derive(Clone, Copy, PartialEq, Eq, Structural, Debug)]
pub struct EnemyTickEvent {
    pub seq_num: u16,
    pub tick: EnemyTick,
}

/// What a datagram carries.
#[derive(Clone, Copy, PartialEq, Eq, Structural, Debug)]
pub enum Packet {
    PlayerTick(PlayerTickEvent),
    EnemyTick(EnemyTickEvent),
    UserCmd(UserCmdEvent),
    Ack { rmt_num: u16, bitfield: u32 },
}

/// The byte that marks a snapshot of a player.
pub const KIND_PLAYER_TICK: u8 = 1;

/// The byte that marks a snapshot of an enemy.
pub const KIND_ENEMY_TICK: u8 = 2;

/// The byte that marks a command of a client.
pub const KIND_USER_CMD: u8 = 3;

/// The byte that marks an acknowledgment.
pub const KIND_ACK: u8 = 4;

/// The two bytes of `x`, low byte first.
pub open spec fn le16(x: u16) -> Seq<u8> {
    seq![(x % 256) as u8, (x / 256) as u8]
}

/// The four bytes of `x`, low byte first.
pub open spec fn le32(x: u32) -> Seq<u8> {
    seq![
        (x % 256) as u8,
        (x / 256 % 256) as u8,
        (x / 256 / 256 % 256) as u8,
        (x / 256 / 256 / 256) as u8,
    ]
}

/// The two's complement of `x` in 32 bits.
pub open spec fn twos(x: i32) -> u32 {
    if x < 0 {
        (x + 0x1_0000_0000) as u32
    } else {
        x as u32
    }
}

/// The bytes of a position: `x`, then `y`.
pub open spec fn pos_bytes(p: Pos) -> Seq<u8> {
    le32(twos(p.x)) + le32(twos(p.y))
}

/// What follows the magic number in the datagram that carries `p`.
pub open spec fn body(p: Packet) -> Seq<u8> {
    match p {
        Packet::PlayerTick(e) => seq![KIND_PLAYER_TICK] + le16(e.seq_num) + seq![e.id] + pos_bytes(
            e.tick.pos,
        ) + seq![e.tick.hp],
        Packet::EnemyTick(e) => seq![KIND_ENEMY_TICK] + le16(e.seq_num) + seq![e.tick.id]
            + pos_bytes(e.tick.pos) + seq![e.tick.hp, e.tick.events],
        Packet::UserCmd(e) => seq![KIND_USER_CMD] + le16(e.seq_num) + seq![e.id] + pos_bytes(
            e.tick.pos,
        ) + le32(twos(e.tick.dir)),
        Packet::Ack { rmt_num, bitfield } => seq![KIND_ACK] + le16(rmt_num) + le32(bitfield),
    }
}

/// The datagram that carries `p`.
pub open spec fn encoding(p: Packet) -> Seq<u8> {
    le16(MAGIC_NUMBER) + body(p)
}

/// Appends the two bytes of `x`.
fn put16(out: &mut Vec<u8>, x: u16)
    ensures
        final(out)@ == old(out)@ + le16(x),
{
    out.push((x % 256) as u8);
    out.push((x / 256) as u8);
    assert(final(out)@ =~= old(out)@ + le16(x));
}

/// Appends the four bytes of `x`.
fn put32(out: &mut Vec<u8>, x: u32)
    ensures
        final(out)@ == old(out)@ + le32(x),
{
    out.push((x % 256) as u8);
    out.push((x / 256 % 256) as u8);
    out.push((x / 256 / 256 % 256) as u8);
    out.push((x / 256 / 256 / 256) as u8);
    assert(final(out)@ =~= old(out)@ + le32(x));
}

/// The two's complement of `x`.
fn to_twos(x: i32) -> (u: u32)
    ensures
        u == twos(x),
{
    if x < 0 {
        (x as i64 + 0x1_0000_0000) as u32
    } else {
        x as u32
    }
}

/// The number whose two's complement is `u`.
fn from_twos(u: u32) -> (x: i32)
    ensures
        twos(x) == u,
{
    if u >= 0x8000_0000 {
        (u as i64 - 0x1_0000_0000) as i32
    } else {
        u as i32
    }
}

/// Appends the four bytes of `x`.
fn put_signed(out: &mut Vec<u8>, x: i32)
    ensures
        final(out)@ == old(out)@ + le32(twos(x)),
{
    put32(out, to_twos(x));
}

/// Appends the eight bytes of `p`.
fn put_pos(out: &mut Vec<u8>, p: Pos)
    ensures
        final(out)@ == old(out)@ + pos_bytes(p),
{
    put_signed(out, p.x);
    put_signed(out, p.y);
    assert(final(out)@ =~= old(out)@ + pos_bytes(p));
}

/// The number whose two bytes stand at `at`.
fn get16(bytes: &Vec<u8>, at: usize) -> (x: u16)
    requires
        at + 2 <= bytes.len(),
    ensures
        le16(x) == bytes@.subrange(at as int, at + 2),
{
    let x: u16 = bytes[at] as u16 + 256 * (bytes[at + 1] as u16);
    assert(le16(x) =~= bytes@.subrange(at as int, at + 2));
    x
}

/// The number whose four bytes stand at `at`.
fn get32(bytes: &Vec<u8>, at: usize) -> (x: u32)
    requires
        at + 4 <= bytes.len(),
    ensures
        le32(x) == bytes@.subrange(at as int, at + 4),
{
    let high: u32 = bytes[at + 2] as u32 + 256 * (bytes[at + 3] as u32);
    let mid: u32 = bytes[at + 1] as u32 + 256 * high;
    let x: u32 = bytes[at] as u32 + 256 * mid;
    assert(x % 256 == bytes[at as int] && x / 256 == mid);
    assert(mid % 256 == bytes[at + 1] && mid / 256 == high);
    assert(high % 256 == bytes[at + 2] && high / 256 == bytes[at + 3]);
    assert(le32(x) =~= bytes@.subrange(at as int, at + 4));
    x
}

/// The signed number whose four bytes stand at `at`.
fn get_signed(bytes: &Vec<u8>, at: usize) -> (x: i32)
    requires
        at + 4 <= bytes.len(),
    ensures
        le32(twos(x)) == bytes@.subrange(at as int, at + 4),
{
    from_twos(get32(bytes, at))
}

/// The position whose eight bytes stand at `at`.
fn get_pos(bytes: &Vec<u8>, at: usize) -> (p: Pos)
    requires
        at + 8 <= bytes.len(),
    ensures
        pos_bytes(p) == bytes@.subrange(at as int, at + 8),
{
    let p = Pos { x: get_signed(bytes, at), y: get_signed(bytes, at + 4) };
    assert(pos_bytes(p) =~= bytes@.subrange(at as int, at + 8)) by {
        assert(bytes@.subrange(at as int, at + 8) =~= bytes@.subrange(at as int, at + 4)
            + bytes@.subrange(at + 4, at + 8));
    }
    p
}

/// The datagram that carries `p`.
pub fn encode(p: &Packet) -> (out: Vec<u8>)
    ensures
        out@ == encoding(*p),
        out.len() <= MAX_DATAGRAM_SIZE,
{
    let mut out: Vec<u8> = Vec::new();
    put16(&mut out, MAGIC_NUMBER);
    match p {
        Packet::PlayerTick(e) => {
            out.push(KIND_PLAYER_TICK);
            put16(&mut out, e.seq_num);
            out.push(e.id);
            put_pos(&mut out, e.tick.pos);
            out.push(e.tick.hp);
        },
        Packet::EnemyTick(e) => {
            out.push(KIND_ENEMY_TICK);
            put16(&mut out, e.seq_num);
            out.push(e.tick.id);
            put_pos(&mut out, e.tick.pos);
            out.push(e.tick.hp);
            out.push(e.tick.events);
        },
        Packet::UserCmd(e) => {
            out.push(KIND_USER_CMD);
            put16(&mut out, e.seq_num);
            out.push(e.id);
            put_pos(&mut out, e.tick.pos);
            put_signed(&mut out, e.tick.dir);
        },
        Packet::Ack { rmt_num, bitfield } => {
            out.push(KIND_ACK);
            put16(&mut out, *rmt_num);
            put32(&mut out, *bitfield);
        },
    }
    assert(out@ =~= encoding(*p));
    out
}

/// What the datagram `bytes` carries, or nothing where `bytes` is no
/// datagram of this protocol: too short or too long for its kind, without
/// the magic number, or of no known kind.
pub fn decode(bytes: &Vec<u8>) -> (r: Option<Packet>)
    ensures
        r matches Some(p) ==> encoding(p) == bytes@,
        r is None ==> forall|p: Packet| encoding(p) != bytes@,
{
    let n = bytes.len();
    if n < 3 {
        assert forall|p: Packet| encoding(p) != bytes@ by {
            assert(encoding(p).len() >= 3);
        }
        return None;
    }
    let magic = get16(bytes, 0);
    if magic != MAGIC_NUMBER {
        assert forall|p: Packet| encoding(p) != bytes@ by {
            if encoding(p) == bytes@ {
                assert(encoding(p).subrange(0, 2) =~= le16(MAGIC_NUMBER));
                assert(le16(magic)[0] == le16(MAGIC_NUMBER)[0]);
                assert(le16(magic)[1] == le16(MAGIC_NUMBER)[1]);
            }
        }
        return None;
    }
    let kind = bytes[2];
    let ghost b = bytes@;
    proof {
        assert forall|p: Packet| encoding(p) == b implies body(p)[0] == kind by {
            assert(encoding(p)[2] == body(p)[0]);
        }
    }
    if kind == KIND_PLAYER_TICK && n == 15 {
        let e = PlayerTickEvent {
            seq_num: get16(bytes, 3),
            id: bytes[5],
            tick: PlayerTick { pos: get_pos(bytes, 6), hp: bytes[14] },
        };
        assert(encoding(Packet::PlayerTick(e)) =~= b) by {
            assert(b =~= b.subrange(0, 2) + seq![b[2]] + b.subrange(3, 5) + seq![b[5]]
                + b.subrange(6, 14) + seq![b[14]]);
        }
        Some(Packet::PlayerTick(e))
    } else if kind == KIND_ENEMY_TICK && n == 16 {
        let e = EnemyTickEvent {
            seq_num: get16(bytes, 3),
            tick: EnemyTick { id: bytes[5], pos: get_pos(bytes, 6), hp: bytes[14], events: bytes[15] },
        };
        assert(encoding(Packet::EnemyTick(e)) =~= b) by {
            assert(b =~= b.subrange(0, 2) + seq![b[2]] + b.subrange(3, 5) + seq![b[5]]
                + b.subrange(6, 14) + seq![b[14], b[15]]);
        }
        Some(Packet::EnemyTick(e))
    } else if kind == KIND_USER_CMD && n == 18 {
        let e = UserCmdEvent {
            seq_num: get16(bytes, 3),
            id: bytes[5],
            tick: UserCmd { pos: get_pos(bytes, 6), dir: get_signed(bytes, 14) },
        };
        assert(encoding(Packet::UserCmd(e)) =~= b) by {
            assert(b =~= b.subrange(0, 2) + seq![b[2]] + b.subrange(3, 5) + seq![b[5]]
                + b.subrange(6, 14) + b.subrange(14, 18));
        }
        Some(Packet::UserCmd(e))
    } else if kind == KIND_ACK && n == 9 {
        let rmt_num = get16(bytes, 3);
        let bitfield = get32(bytes, 5);
        assert(encoding(Packet::Ack { rmt_num, bitfield }) =~= b) by {
            assert(b =~= b.subrange(0, 2) + seq![b[2]] + b.subrange(3, 5) + b.subrange(5, 9));
        }
        Some(Packet::Ack { rmt_num, bitfield })
    } else {
        assert forall|p: Packet| encoding(p) != b by {
            if encoding(p) == b {
                assert(body(p)[0] == kind);
                assert(encoding(p).len() == n);
            }
        }
        None
    }
}

/// Different packets have different datagrams.
pub proof fn lemma_encoding_injective(p: Packet, q: Packet)
    requires
        encoding(p) == encoding(q),
    ensures
        p == q,
{
    let a = encoding(p);
    let b = encoding(q);
    assert(a[2] == b[2]);
    assert(a.len() == b.len());
    match (p, q) {
        (Packet::PlayerTick(e), Packet::PlayerTick(f)) => {
            lemma_le16_injective(e.seq_num, f.seq_num, a.subrange(3, 5), b.subrange(3, 5));
            assert(a[5] == b[5]);
            lemma_pos_injective(e.tick.pos, f.tick.pos, a.subrange(6, 14), b.subrange(6, 14));
            assert(a[14] == b[14]);
        },
        (Packet::EnemyTick(e), Packet::EnemyTick(f)) => {
            lemma_le16_injective(e.seq_num, f.seq_num, a.subrange(3, 5), b.subrange(3, 5));
            assert(a[5] == b[5]);
            lemma_pos_injective(e.tick.pos, f.tick.pos, a.subrange(6, 14), b.subrange(6, 14));
            assert(a[14] == b[14]);
            assert(a[15] == b[15]);
        },
        (Packet::UserCmd(e), Packet::UserCmd(f)) => {
            lemma_le16_injective(e.seq_num, f.seq_num, a.subrange(3, 5), b.subrange(3, 5));
            assert(a[5] == b[5]);
            lemma_pos_injective(e.tick.pos, f.tick.pos, a.subrange(6, 14), b.subrange(6, 14));
            lemma_signed_injective(e.tick.dir, f.tick.dir, a.subrange(14, 18), b.subrange(14, 18));
        },
        (Packet::Ack { rmt_num: r1, bitfield: b1 }, Packet::Ack { rmt_num: r2, bitfield: b2 }) => {
            lemma_le16_injective(r1, r2, a.subrange(3, 5), b.subrange(3, 5));
            lemma_le32_injective(b1, b2, a.subrange(5, 9), b.subrange(5, 9));
        },
        _ => {},
    }
}

/// Different numbers have different bytes.
proof fn lemma_le16_injective(x: u16, y: u16, a: Seq<u8>, b: Seq<u8>)
    requires
        a == b,
        a =~= le16(x),
        b =~= le16(y),
    ensures
        x == y,
{
    assert(le16(x)[0] == le16(y)[0]);
    assert(le16(x)[1] == le16(y)[1]);
}

/// Different numbers have different bytes.
proof fn lemma_le32_injective(x: u32, y: u32, a: Seq<u8>, b: Seq<u8>)
    requires
        a == b,
        a =~= le32(x),
        b =~= le32(y),
    ensures
        x == y,
{
    assert(le32(x)[0] == le32(y)[0]);
    assert(le32(x)[1] == le32(y)[1]);
    assert(le32(x)[2] == le32(y)[2]);
    assert(le32(x)[3] == le32(y)[3]);
}

/// Different signed numbers have different bytes.
proof fn lemma_signed_injective(x: i32, y: i32, a: Seq<u8>, b: Seq<u8>)
    requires
        a == b,
        a =~= le32(twos(x)),
        b =~= le32(twos(y)),
    ensures
        x == y,
{
    lemma_le32_injective(twos(x), twos(y), a, b);
}

/// Different positions have different bytes.
proof fn lemma_pos_injective(p: Pos, q: Pos, a: Seq<u8>, b: Seq<u8>)
    requires
        a == b,
        a =~= pos_bytes(p),
        b =~= pos_bytes(q),
    ensures
        p == q,
{
    lemma_signed_injective(p.x, q.x, a.subrange(0, 4), b.subrange(0, 4));
    lemma_signed_injective(p.y, q.y, a.subrange(4, 8), b.subrange(4, 8));
}

/// What a snapshot of an enemy writes.
pub open spec fn enemy_tick_update(t: EnemyTick) -> Update {
    Update { pos: Some(t.pos), dir: None, hp: Some(t.hp), events: Some(t.events) }
}

/// The client takes a snapshot of an enemy from the host: position, health
/// and events of the enemy it speaks of are written for the tick of the
/// snapshot. Every other enemy stays as it is.
pub fn handle_packet(enemies: &mut Vec<NetEntity>, ev: &EnemyTickEvent)
    requires
        forall|i: int| 0 <= i < old(enemies).len() ==> (#[trigger] old(enemies)[i]).wf(),
    ensures
        final(enemies).len() == old(enemies).len(),
        forall|i: int|
            0 <= i < old(enemies).len() ==> if old(enemies)[i].id == ev.tick.id {
                (#[trigger] final(enemies)[i]).updated_from(
                    &old(enemies)[i],
                    ev.seq_num,
                    enemy_tick_update(ev.tick),
                )
            } else {
                final(enemies)[i] == old(enemies)[i]
            },
        forall|i: int| 0 <= i < final(enemies).len() ==> (#[trigger] final(enemies)[i]).wf(),
{
    let u = Update {
        pos: Some(ev.tick.pos),
        dir: None,
        hp: Some(ev.tick.hp),
        events: Some(ev.tick.events),
    };
    apply_to(enemies, ev.tick.id, ev.seq_num, &u);
}

} // verus!
