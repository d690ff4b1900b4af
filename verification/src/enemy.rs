//! What an enemy does each tick: whom it takes as its target, and where it
//! moves.

use vstd::prelude::*;
use crate::buffers::{lookup, overwrite, PosBuffer};
use crate::entity::{flag_update, NetEntity};
use crate::grid::V2;
use crate::math::{dist_sq, distance_squared, is_step, step_toward, within, within_or_at};
use crate::tick::tick_plus;
use crate::timers::{elapsed_nanos, has_finished, timer_reset};
use crate::world::{find_next, steers_by, Pos, WorldMap};
use bevy::time::Timer;

verus! {

/// World units an enemy moves in one tick.
pub const ENEMY_SPEED: u16 = 15;

/// Health of an ordinary enemy.
pub const ENEMY_MAX_HP: u8 = 100;

/// An enemy takes a player as its target who comes nearer than this.
pub const AGGRO_RANGE: u32 = 200;

/// An enemy that is no farther than this from where it is going stays where
/// it is. The attack of an ordinary enemy reaches those who are nearer.
pub const CIRCLE_RADIUS: u32 = 64;

/// Event flag: the enemy attacked this tick.
pub const ATTACK_BITFLAG: u8 = 1;

/// Event flag: the enemy took a target this tick.
pub const AGGRO_BITFLAG: u8 = 2;

/// The id of the player an enemy pursues, if it pursues one.
#[derive(Clone, Copy, Debug)]
pub struct Aggro(pub Option<u8>);

/// Where an enemy was put into the world, and where it returns when idle.
#[derive(Clone, Copy, Debug)]
pub struct SpawnPosition(pub Pos);

/// What an enemy needs to know of a player: who it is, whether it is dead,
/// and where it was at the previous tick, if that is known.
#[derive(Clone, Copy, Debug)]
pub struct PlayerSample {
    pub id: u8,
    pub dead: bool,
    pub pos: Option<Pos>,
}

/// A player can be a target when it lives and its position is known.
pub open spec fn candidate(p: PlayerSample) -> bool {
    !p.dead && p.pos is Some
}

/// The player `i` is the candidate nearest to `from`, and the first of those
/// that are equally near.
pub open spec fn is_nearest(players: Seq<PlayerSample>, from: Pos, i: int) -> bool {
    &&& 0 <= i < players.len()
    &&& candidate(players[i])
    &&& forall|j: int|
        0 <= j < players.len() && candidate(#[trigger] players[j]) ==> {
            &&& j < i ==> dist_sq(players[j].pos->0, from) > dist_sq(players[i].pos->0, from)
            &&& j >= i ==> dist_sq(players[j].pos->0, from) >= dist_sq(players[i].pos->0, from)
        }
}

/// Some candidate is less than `radius` away from `from`.
pub open spec fn in_range(players: Seq<PlayerSample>, from: Pos, radius: nat) -> bool {
    exists|j: int|
        0 <= j < players.len() && candidate(#[trigger] players[j]) && dist_sq(
            players[j].pos->0,
            from,
        ) < radius * radius
}

/// The player with the id `id` lives.
pub open spec fn alive(players: Seq<PlayerSample>, id: u8) -> bool {
    exists|j: int| 0 <= j < players.len() && (#[trigger] players[j]).id == id && !players[j].dead
}

/// The position of the last of `players` that has the id `id`, if there is
/// such a player and its position is known.
pub open spec fn position_of(players: Seq<PlayerSample>, id: u8) -> Option<Pos>
    decreases players.len(),
{
    if players.len() == 0 {
        None
    } else if players.last().id == id {
        players.last().pos
    } else {
        position_of(players.drop_last(), id)
    }
}

/// Where an enemy wants to be: with its target while it has one, else at the
/// place where it was spawned. A target whose position is not known gives no
/// destination.
pub open spec fn destination(aggro: Aggro, spawn: SpawnPosition, players: Seq<PlayerSample>) -> Option<
    Pos,
> {
    match aggro.0 {
        None => Some(spawn.0),
        Some(id) => position_of(players, id),
    }
}

/// The target of an enemy after a tick in which it stood at `from`. An idle
/// enemy takes the nearest candidate that is in range. An enemy with a target
/// keeps it while the target lives and some candidate is in range, and is
/// idle again otherwise.
pub open spec fn aggro_after(
    current: Aggro,
    players: Seq<PlayerSample>,
    from: Pos,
    next: Aggro,
) -> bool {
    match current.0 {
        None => if in_range(players, from, AGGRO_RANGE as nat) {
            exists|i: int| is_nearest(players, from, i) && next.0 == Some(#[trigger] players[i].id)
        } else {
            next.0 is None
        },
        Some(t) => next.0 == if in_range(players, from, AGGRO_RANGE as nat) && alive(players, t) {
            Some(t)
        } else {
            None
        },
    }
}

/// Some player can be a target.
pub open spec fn any_candidate(players: Seq<PlayerSample>) -> bool {
    exists|j: int| 0 <= j < players.len() && candidate(#[trigger] players[j])
}

/// The target of an enemy after a tick at which its own position is not
/// known. It takes no target then. It keeps the target it has while the
/// target lives and some player can be a target, and is idle again otherwise.
pub open spec fn aggro_unseen(current: Aggro, players: Seq<PlayerSample>) -> Aggro {
    match current.0 {
        Some(t) => if any_candidate(players) && alive(players, t) {
            current
        } else {
            Aggro(None)
        },
        None => Aggro(None),
    }
}

/// What `decide_aggro` makes of the target `current`: see `aggro_after` and
/// `aggro_unseen`.
pub open spec fn aggro_decided(
    current: Aggro,
    enemy_prev: Option<Pos>,
    players: Seq<PlayerSample>,
    next: Aggro,
) -> bool {
    match enemy_prev {
        Some(from) => aggro_after(current, players, from, next),
        None => next == aggro_unseen(current, players),
    }
}

/// Whether some player can be a target.
pub fn has_candidate(players: &Vec<PlayerSample>) -> (r: bool)
    ensures
        r == any_candidate(players@),
{
    let mut k: usize = 0;
    while k < players.len()
        invariant
            k <= players.len(),
            forall|j: int| 0 <= j < k ==> !candidate(#[trigger] players[j]),
        decreases players.len() - k,
    {
        if !players[k].dead && players[k].pos.is_some() {
            return true;
        }
        k += 1;
    }
    false
}

/// The candidate nearest to `from`, if there is a candidate.
pub fn nearest_player(players: &Vec<PlayerSample>, from: Pos) -> (r: Option<usize>)
    ensures
        match r {
            Some(i) => is_nearest(players@, from, i as int),
            None => forall|j: int| 0 <= j < players.len() ==> !candidate(#[trigger] players[j]),
        },
{
    let mut best: Option<usize> = None;
    let mut best_distance: u128 = 0;
    let mut k: usize = 0;
    while k < players.len()
        invariant
            k <= players.len(),
            match best {
                Some(i) => {
                    &&& i < k
                    &&& candidate(players[i as int])
                    &&& best_distance == dist_sq(players[i as int].pos->0, from)
                    &&& forall|j: int|
                        0 <= j < k && candidate(#[trigger] players[j]) ==> {
                            &&& j < i ==> dist_sq(players[j].pos->0, from) > best_distance
                            &&& j >= i ==> dist_sq(players[j].pos->0, from) >= best_distance
                        }
                },
                None => forall|j: int| 0 <= j < k ==> !candidate(#[trigger] players[j]),
            },
        decreases players.len() - k,
    {
        let p = &players[k];
        if !p.dead {
            if let Some(pos) = p.pos {
                let d: u128 = distance_squared(pos, from);
                if best.is_none() || d < best_distance {
                    best = Some(k);
                    best_distance = d;
                }
            }
        }
        k += 1;
    }
    best
}

/// Whether the player with the id `id` lives.
pub fn is_alive(players: &Vec<PlayerSample>, id: u8) -> (r: bool)
    ensures
        r == alive(players@, id),
{
    let mut k: usize = 0;
    while k < players.len()
        invariant
            k <= players.len(),
            forall|j: int| 0 <= j < k ==> !((#[trigger] players[j]).id == id && !players[j].dead),
        decreases players.len() - k,
    {
        if players[k].id == id && !players[k].dead {
            return true;
        }
        k += 1;
    }
    false
}

/// The position of the last of `players` that has the id `id`.
pub fn player_position(players: &Vec<PlayerSample>, id: u8) -> (r: Option<Pos>)
    ensures
        r == position_of(players@, id),
{
    let mut k: usize = players.len();
    assert(players@.take(k as int) =~= players@);
    while k > 0
        invariant
            k <= players.len(),
            position_of(players@, id) == position_of(players@.take(k as int), id),
        decreases k,
    {
        k -= 1;
        assert(players@.take(k + 1).last() == players[k as int]);
        assert(players@.take(k + 1).drop_last() =~= players@.take(k as int));
        if players[k].id == id {
            return players[k].pos;
        }
    }
    assert(players@.take(0).len() == 0);
    None
}

/// Decides the target of an enemy for this tick and resets the attack timer
/// of an enemy that has just taken a target; the answer says whether it has,
/// and the caller then shows the sign. See `decide_aggro` for the decision.
pub fn fixed_aggro(
    aggro: &mut Aggro,
    enemy_prev: Option<Pos>,
    players: &Vec<PlayerSample>,
    wep_timer: &mut Timer,
) -> (became_aggroed: bool)
    ensures
        aggro_decided(*old(aggro), enemy_prev, players@, *final(aggro)),
        became_aggroed == (old(aggro).0 is None && final(aggro).0 is Some),
        became_aggroed ==> !has_finished(*final(wep_timer)) && elapsed_nanos(*final(wep_timer))
            == 0,
        !became_aggroed ==> *final(wep_timer) == *old(wep_timer),
{
    let became_aggroed = decide_aggro(aggro, enemy_prev, players);
    if became_aggroed {
        timer_reset(wep_timer);
    }
    became_aggroed
}

/// Decides the target of an enemy for this tick. `enemy_prev` is where the
/// enemy stood at the previous tick. Where that is not known, nobody counts
/// as in range or out of it: the enemy takes no target, and gives up the one
/// it has only where that one has died or no player can be a target. The
/// answer says whether the enemy has just taken a target.
pub fn decide_aggro(
    aggro: &mut Aggro,
    enemy_prev: Option<Pos>,
    players: &Vec<PlayerSample>,
) -> (became_aggroed: bool)
    ensures
        aggro_decided(*old(aggro), enemy_prev, players@, *final(aggro)),
        became_aggroed == (old(aggro).0 is None && final(aggro).0 is Some),
{
    let from = match enemy_prev {
        Some(p) => p,
        None => {
            if let Some(t) = aggro.0 {
                if !(has_candidate(players) && is_alive(players, t)) {
                    aggro.0 = None;
                }
            }
            return false;
        },
    };
    let nearest = nearest_player(players, from);
    let close = match nearest {
        Some(i) => within(players[i].pos.unwrap(), from, AGGRO_RANGE),
        None => false,
    };
    proof {
        if in_range(players@, from, AGGRO_RANGE as nat) {
            let j = choose|j: int|
                0 <= j < players.len() && candidate(#[trigger] players[j]) && dist_sq(
                    players[j].pos->0,
                    from,
                ) < AGGRO_RANGE * AGGRO_RANGE;
            assert(candidate(players[j]));
            assert(close);
        }
        if close {
            assert(candidate(players[nearest->0 as int]));
        }
        assert(close == in_range(players@, from, AGGRO_RANGE as nat));
    }
    match aggro.0 {
        None => {
            if close {
                let i = nearest.unwrap();
                aggro.0 = Some(players[i].id);
                assert(is_nearest(players@, from, i as int) && final(aggro).0 == Some(
                    players[i as int].id,
                ));
                true
            } else {
                false
            }
        },
        Some(t) => {
            if !(close && is_alive(players, t)) {
                aggro.0 = None;
            }
            false
        },
    }
}

/// What an enemy sees of the player `e` at `tick`: who it is, whether it is
/// dead, and where it was at the tick before.
pub open spec fn sample_of(e: NetEntity, dead: bool, tick: u16) -> PlayerSample {
    PlayerSample { id: e.id, dead, pos: lookup(e.pos@, tick_plus(tick, -1)) }
}

/// What an enemy sees of `players` at `tick`; `dead` says of each in order
/// whether it is dead.
pub open spec fn samples_of(players: Seq<NetEntity>, dead: Seq<bool>, tick: u16) -> Seq<
    PlayerSample,
> {
    Seq::new(players.len(), |i: int| sample_of(players[i], dead[i], tick))
}

/// Gathers what an enemy sees of the players at `tick`: each player where it
/// was at the tick before.
pub fn sample_players(players: &Vec<NetEntity>, dead: &Vec<bool>, tick: u16) -> (out: Vec<
    PlayerSample,
>)
    requires
        forall|i: int| 0 <= i < players.len() ==> (#[trigger] players[i]).wf(),
        dead.len() == players.len(),
    ensures
        out@ == samples_of(players@, dead@, tick),
{
    let prev: u16 = tick.wrapping_sub(1);
    let mut out: Vec<PlayerSample> = Vec::new();
    let mut k: usize = 0;
    while k < players.len()
        invariant
            k <= players.len(),
            dead.len() == players.len(),
            prev == tick_plus(tick, -1),
            forall|i: int| 0 <= i < players.len() ==> (#[trigger] players[i]).wf(),
            out.len() == k,
            forall|i: int| 0 <= i < k ==> #[trigger] out[i] == sample_of(players[i], dead[i], tick),
        decreases players.len() - k,
    {
        assert(players[k as int].wf());
        out.push(PlayerSample { id: players[k].id, dead: dead[k], pos: players[k].pos.get(prev) });
        k += 1;
    }
    assert(out@ =~= samples_of(players@, dead@, tick));
    out
}

/// The aggro step of one enemy at `tick`: the enemy and the players are
/// taken where they were at the tick before, the target is decided as
/// `fixed_aggro` does, and an enemy that has just taken a target gets the flag
/// for it among its events of `tick`. The answer says whether it has.
pub fn aggro_step(
    tick: u16,
    enemy: &mut NetEntity,
    aggro: &mut Aggro,
    wep_timer: &mut Timer,
    players: &Vec<NetEntity>,
    dead: &Vec<bool>,
) -> (became_aggroed: bool)
    requires
        old(enemy).wf(),
        forall|i: int| 0 <= i < players.len() ==> (#[trigger] players[i]).wf(),
        dead.len() == players.len(),
    ensures
        aggro_decided(
            *old(aggro),
            lookup(old(enemy).pos@, tick_plus(tick, -1)),
            samples_of(players@, dead@, tick),
            *final(aggro),
        ),
        became_aggroed == (old(aggro).0 is None && final(aggro).0 is Some),
        became_aggroed ==> !has_finished(*final(wep_timer)) && elapsed_nanos(*final(wep_timer))
            == 0,
        !became_aggroed ==> *final(wep_timer) == *old(wep_timer),
        became_aggroed ==> final(enemy).updated_from(
            old(enemy),
            tick,
            flag_update(old(enemy).events@, tick, AGGRO_BITFLAG),
        ),
        !became_aggroed ==> *final(enemy) == *old(enemy),
{
    let samples = sample_players(players, dead, tick);
    let enemy_prev = enemy.pos.get(tick.wrapping_sub(1));
    let became_aggroed = fixed_aggro(aggro, enemy_prev, &samples, wep_timer);
    if became_aggroed {
        enemy.raise(tick, AGGRO_BITFLAG);
    }
    became_aggroed
}

/// The move of one enemy at `tick`: the players are taken where they were at
/// the tick before, and the enemy moves as `fixed_move` says.
pub fn move_step(
    tick: u16,
    enemy: &mut NetEntity,
    aggro: &Aggro,
    spawn_pos: &SpawnPosition,
    players: &Vec<NetEntity>,
    dead: &Vec<bool>,
    map: &WorldMap,
)
    requires
        old(enemy).wf(),
        forall|i: int| 0 <= i < players.len() ==> (#[trigger] players[i]).wf(),
        dead.len() == players.len(),
        map.wf(),
    ensures
        final(enemy).wf(),
        final(enemy).id == old(enemy).id,
        final(enemy).dir == old(enemy).dir,
        final(enemy).hp == old(enemy).hp,
        final(enemy).events == old(enemy).events,
        final(enemy).pos.cap() == old(enemy).pos.cap(),
        moved_in(
            old(enemy).pos@,
            old(enemy).pos.cap(),
            tick,
            destination(*aggro, *spawn_pos, samples_of(players@, dead@, tick)),
            map,
            final(enemy).pos@,
        ),
{
    let samples = sample_players(players, dead, tick);
    fixed_move(tick, &mut enemy.pos, aggro, spawn_pos, &samples, map);
}

/// `after` is the history of positions `before` after an enemy with the
/// destination `dest` has moved at `tick`. Nothing is written where the
/// position at the tick before or the destination is not known, or where the
/// enemy is no farther from its destination than `CIRCLE_RADIUS`. Otherwise
/// the place it has moved to is written for `tick`.
pub open spec fn moved_in(
    before: Map<u16, Pos>,
    cap: nat,
    tick: u16,
    dest: Option<Pos>,
    map: &WorldMap,
    after: Map<u16, Pos>,
) -> bool {
    match (lookup(before, tick_plus(tick, -1)), dest) {
        (Some(prev), Some(dest)) => if dist_sq(prev, dest) <= CIRCLE_RADIUS * CIRCLE_RADIUS {
            after == before
        } else {
            exists|next: Pos| #[trigger]
                moved(map, prev, dest, next) && after == overwrite(before, cap, tick, next)
        },
        _ => after == before,
    }
}

/// `next` is where an enemy at `prev` stands after it has moved one tick
/// towards `dest` over `map`: it steers for the waypoint of a shortest walk
/// and makes a step of `ENEMY_SPEED` towards it.
pub open spec fn moved(map: &WorldMap, prev: Pos, dest: Pos, next: Pos) -> bool {
    exists|path: Seq<V2>, waypoint: Pos| #[trigger]
        steers_by(map, prev, dest, path, waypoint) && is_step(
            prev,
            waypoint,
            ENEMY_SPEED as nat,
            next,
        )
}

/// Where an enemy at `prev` stands after it has moved one tick towards
/// `dest`, or nothing where it stays: it moves only where it is farther from
/// `dest` than `CIRCLE_RADIUS`.
pub fn steer(map: &WorldMap, prev: Pos, dest: Pos) -> (r: Option<Pos>)
    requires
        map.wf(),
    ensures
        r is None <==> dist_sq(prev, dest) <= CIRCLE_RADIUS * CIRCLE_RADIUS,
        r matches Some(next) ==> moved(map, prev, dest, next),
{
    if within_or_at(prev, dest, CIRCLE_RADIUS) {
        return None;
    }
    let posit = find_next(map, prev, dest);
    let next = step_toward(prev, posit, ENEMY_SPEED);
    proof {
        let path = choose|path: Seq<V2>| steers_by(map, prev, dest, path, posit);
        assert(steers_by(map, prev, dest, path, posit) && is_step(
            prev,
            posit,
            ENEMY_SPEED as nat,
            next,
        ));
    }
    Some(next)
}

/// Moves an enemy for the tick `tick`. The enemy starts from where it stood
/// at the previous tick and heads for its destination. Its new position is
/// written for `tick`. Nothing is written where the earlier position or the
/// destination is not known, or where the enemy is no farther from its
/// destination than `CIRCLE_RADIUS`.
pub fn fixed_move(
    tick: u16,
    epb: &mut PosBuffer,
    aggro: &Aggro,
    spawn_pos: &SpawnPosition,
    players: &Vec<PlayerSample>,
    map: &WorldMap,
)
    requires
        old(epb).wf(),
        map.wf(),
    ensures
        final(epb).wf(),
        final(epb).cap() == old(epb).cap(),
        moved_in(
            old(epb)@,
            old(epb).cap(),
            tick,
            destination(*aggro, *spawn_pos, players@),
            map,
            final(epb)@,
        ),
{
    let prev = match epb.get(tick.wrapping_sub(1)) {
        Some(p) => p,
        None => {
            return ;
        },
    };
    let dest = match aggro.0 {
        None => Some(spawn_pos.0),
        Some(id) => player_position(players, id),
    };
    let dest = match dest {
        Some(d) => d,
        None => {
            return ;
        },
    };
    match steer(map, prev, dest) {
        Some(next) => {
            epb.set(tick, next);
        },
        None => {},
    }
}

/// A player who stands exactly `AGGRO_RANGE` away along an axis is out of
/// range; one unit nearer it is in range.
pub proof fn lemma_range_is_strict(from: Pos, p: PlayerSample, q: Pos)
    requires
        candidate(p),
        p.pos == Some(q),
        q.y == from.y,
    ensures
        q.x - from.x == AGGRO_RANGE ==> !in_range(seq![p], from, AGGRO_RANGE as nat),
        q.x - from.x == AGGRO_RANGE - 1 ==> in_range(seq![p], from, AGGRO_RANGE as nat),
{
    let players = seq![p];
    assert(players[0] == p);
    if q.x - from.x == AGGRO_RANGE {
        assert(dist_sq(q, from) == 40000);
        assert(AGGRO_RANGE * AGGRO_RANGE == 40000);
    }
    if q.x - from.x == AGGRO_RANGE - 1 {
        assert(dist_sq(q, from) == 39601);
        assert(candidate(players[0]) && dist_sq(players[0].pos->0, from) < AGGRO_RANGE
            * AGGRO_RANGE);
    }
}

} // verus!
