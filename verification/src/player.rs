//! What host and client do with the state of players: the client writes its
//! own prediction and takes the host's snapshots, the host takes the clients'
//! commands.

use vstd::prelude::*;
use crate::buffers::{overwrite, PosBuffer};
use crate::entity::{apply_to, NetEntity, Update};
use crate::world::Pos;

verus! {

/// No more players than this take part in a match.
pub const MAX_PLAYERS: usize = 4;

/// Health of a player that has taken no damage.
pub const PLAYER_DEFAULT_HP: u8 = 100;

/// What the host tells of a player for one tick.
#[derive(Clone, Copy, PartialEq, Eq, Structural, Debug)]
pub struct PlayerTick {
    pub pos: Pos,
    pub hp: u8,
}

/// A snapshot of the player `id` for the tick `seq_num`, as it came from the
/// host.
#[derive(Clone, Copy, PartialEq, Eq, Structural, Debug)]
pub struct PlayerTickEvent {
    pub seq_num: u16,
    pub id: u8,
    pub tick: PlayerTick,
}

/// What a client tells of its player for one tick: where it is and which way
/// it faces, in thousandths of a radian.
#[derive(Clone, Copy, PartialEq, Eq, Structural, Debug)]
pub struct UserCmd {
    pub pos: Pos,
    pub dir: i32,
}

/// A command for the player `id` for the tick `seq_num`, as it came from a
/// client.
#[derive(Clone, Copy, PartialEq, Eq, Structural, Debug)]
pub struct UserCmdEvent {
    pub seq_num: u16,
    pub id: u8,
    pub tick: UserCmd,
}

/// What a snapshot of a player writes.
pub open spec fn player_tick_update(t: PlayerTick) -> Update {
    Update { pos: Some(t.pos), dir: None, hp: Some(t.hp), events: None }
}

/// What a command writes.
pub open spec fn user_cmd_update(c: UserCmd) -> Update {
    Update { pos: Some(c.pos), dir: Some(c.dir), hp: None, events: None }
}

/// Writes the position which the local player has now into its history for
/// `tick`. This is the client's prediction.
pub fn update_buffer(tick: u16, player_pos_buffer: &mut PosBuffer, current_pos: Pos)
    requires
        old(player_pos_buffer).wf(),
    ensures
        final(player_pos_buffer).wf(),
        final(player_pos_buffer).cap() == old(player_pos_buffer).cap(),
        final(player_pos_buffer)@ == overwrite(
            old(player_pos_buffer)@,
            old(player_pos_buffer).cap(),
            tick,
            current_pos,
        ),
{
    player_pos_buffer.set(tick, current_pos);
}

/// The client takes a snapshot from the host: position and health of the
/// player it speaks of are written for the tick of the snapshot. Every other
/// player stays as it is.
pub fn handle_packet_client(players: &mut Vec<NetEntity>, ev: &PlayerTickEvent)
    requires
        forall|i: int| 0 <= i < old(players).len() ==> (#[trigger] old(players)[i]).wf(),
    ensures
        final(players).len() == old(players).len(),
        forall|i: int|
            0 <= i < old(players).len() ==> if old(players)[i].id == ev.id {
                (#[trigger] final(players)[i]).updated_from(
                    &old(players)[i],
                    ev.seq_num,
                    player_tick_update(ev.tick),
                )
            } else {
                final(players)[i] == old(players)[i]
            },
        forall|i: int| 0 <= i < final(players).len() ==> (#[trigger] final(players)[i]).wf(),
{
    let u = Update { pos: Some(ev.tick.pos), dir: None, hp: Some(ev.tick.hp), events: None };
    apply_to(players, ev.id, ev.seq_num, &u);
}

/// The host takes a command from a client: position and direction of the
/// player it speaks of are written for the tick of the command, as the client
/// reports them. Every other player stays as it is.
pub fn handle_packet_host(players: &mut Vec<NetEntity>, ev: &UserCmdEvent)
    requires
        forall|i: int| 0 <= i < old(players).len() ==> (#[trigger] old(players)[i]).wf(),
    ensures
        final(players).len() == old(players).len(),
        forall|i: int|
            0 <= i < old(players).len() ==> if old(players)[i].id == ev.id {
                (#[trigger] final(players)[i]).updated_from(
                    &old(players)[i],
                    ev.seq_num,
                    user_cmd_update(ev.tick),
                )
            } else {
                final(players)[i] == old(players)[i]
            },
        forall|i: int| 0 <= i < final(players).len() ==> (#[trigger] final(players)[i]).wf(),
{
    let u = Update { pos: Some(ev.tick.pos), dir: Some(ev.tick.dir), hp: None, events: None };
    apply_to(players, ev.id, ev.seq_num, &u);
}

} // verus!
