//! Attacks of enemies on players, and the health of enemies.

use vstd::prelude::*;
use crate::buffers::{lookup, EventBuffer, HpBuffer};
use crate::enemy::{
    Aggro, SpawnPosition, ATTACK_BITFLAG, CIRCLE_RADIUS, ENEMY_MAX_HP,
};
use crate::entity::{flag_update, Health, NetEntity, Update};
use crate::math::{dist_sq, within};
use crate::player::{MAX_PLAYERS, PLAYER_DEFAULT_HP};
use crate::tick::{tick_plus, TickNum, DELAY};
use crate::timers::{elapsed_nanos, has_finished, timer_finished, timer_reset};
use crate::world::Pos;
use bevy::time::Timer;

verus! {

/// Reach of the attack of a special enemy.
pub const SPECIAL_ATTACK_RADIUS: u32 = 96;

/// Health of a special enemy.
pub const SPECIAL_MAX_HP: u8 = 150;

/// Health which an idle enemy gains each time it recovers.
pub const REGEN_STEP: u8 = 10;

/// Health which the sword of a player takes from an enemy.
pub const SWORD_DAMAGE: u8 = 40;

/// Health which each power-up of the kind adds to the damage of the sword.
pub const DAMAGE_DEALT_UP: u8 = 10;

/// The id of the player who last hit an enemy, if any has.
#[derive(Clone, Copy, Debug)]
pub struct LastAttacker(pub Option<u8>);

/// What an attack needs to know of a player: where it stands, whether a
/// shield protects it, and how much health a hit would cost it.
#[derive(Clone, Copy, Debug)]
pub struct Victim {
    pub pos: Pos,
    pub shielded: bool,
    pub damage: u8,
}

/// What has happened to the life of an entity.
#[derive(Clone, Copy, PartialEq, Eq, Structural, Debug)]
pub enum LifeChange {
    Unchanged,
    Died,
    Revived,
}

/// How far the attack of an enemy reaches.
pub open spec fn attack_radius(is_special: bool) -> nat {
    if is_special {
        SPECIAL_ATTACK_RADIUS as nat
    } else {
        CIRCLE_RADIUS as nat
    }
}

/// Whether an attack from `from` costs `v` health: the player stands within
/// reach, no shield protects it, and the hit would do damage.
pub open spec fn is_hit(v: Victim, from: Pos, is_special: bool) -> bool {
    &&& dist_sq(v.pos, from) < attack_radius(is_special) * attack_radius(is_special)
    &&& !v.shielded
    &&& v.damage > 0
}

/// The health left after a hit of `damage`, on a player whose health at this
/// tick is `known`; a player whose health is not known counts as unhurt.
pub open spec fn health_after_hit(known: Option<u8>, damage: u8) -> u8 {
    let hp: int = match known {
        Some(h) => h as int,
        None => PLAYER_DEFAULT_HP as int,
    };
    if hp >= damage {
        (hp - damage) as u8
    } else {
        0
    }
}

/// `after` is the player `before` after an attack at `tick` from `from`.
pub open spec fn struck(
    before: &NetEntity,
    after: &NetEntity,
    v: Victim,
    tick: u16,
    from: Pos,
    is_special: bool,
) -> bool {
    if is_hit(v, from, is_special) {
        after.updated_from(
            before,
            tick,
            Update {
                pos: None,
                dir: None,
                hp: Some(health_after_hit(lookup(before.hp@, tick), v.damage)),
                events: None,
            },
        )
    } else {
        *after == *before
    }
}

/// Lets an enemy attack, given whether its attack timer has run out. It
/// attacks when it lives, has a target, and the timer has run out; the answer
/// says whether it did. An attack raises the attack flag of the enemy for
/// `tick` and takes health from every player that is hit. `victims` speaks of
/// the players in their order.
pub fn resolve_attack(
    tick: u16,
    enemy: &mut NetEntity,
    enemy_hp: &Health,
    aggro: &Aggro,
    timer_finished: bool,
    enemy_pos: Pos,
    is_special: bool,
    players: &mut Vec<NetEntity>,
    victims: &Vec<Victim>,
) -> (attacked: bool)
    requires
        old(enemy).wf(),
        forall|i: int| 0 <= i < old(players).len() ==> (#[trigger] old(players)[i]).wf(),
        victims.len() == old(players).len(),
    ensures
        attacked == (enemy_hp.current > 0 && aggro.0 is Some && timer_finished),
        final(players).len() == old(players).len(),
        forall|i: int| 0 <= i < final(players).len() ==> (#[trigger] final(players)[i]).wf(),
        final(enemy).wf(),
        !attacked ==> *final(enemy) == *old(enemy) && final(players)@ == old(players)@,
        attacked ==> final(enemy).updated_from(
            old(enemy),
            tick,
            flag_update(old(enemy).events@, tick, ATTACK_BITFLAG),
        ),
        attacked ==> forall|i: int|
            0 <= i < final(players).len() ==> struck(
                &old(players)[i],
                #[trigger] &final(players)[i],
                victims[i],
                tick,
                enemy_pos,
                is_special,
            ),
{
    if enemy_hp.current == 0 || aggro.0.is_none() || !timer_finished {
        return false;
    }
    enemy.raise(tick, ATTACK_BITFLAG);
    let radius: u32 = if is_special {
        SPECIAL_ATTACK_RADIUS
    } else {
        CIRCLE_RADIUS
    };
    let n = players.len();
    let mut k: usize = 0;
    while k < n
        invariant
            n == players.len(),
            n == old(players).len(),
            n == victims.len(),
            k <= n,
            radius == attack_radius(is_special),
            forall|i: int| 0 <= i < n ==> (#[trigger] old(players)[i]).wf(),
            forall|i: int| k <= i < n ==> players[i] == old(players)[i],
            forall|i: int|
                0 <= i < k ==> struck(
                    &old(players)[i],
                    #[trigger] &players[i],
                    victims[i],
                    tick,
                    enemy_pos,
                    is_special,
                ),
            forall|i: int| 0 <= i < k ==> (#[trigger] players[i]).wf(),
        decreases n - k,
    {
        assert(old(players)[k as int].wf());
        let v = &victims[k];
        if within(v.pos, enemy_pos, radius) && !v.shielded && v.damage > 0 {
            let known: u8 = match players[k].hp.get(tick) {
                Some(h) => h,
                None => PLAYER_DEFAULT_HP,
            };
            let left: u8 = if known >= v.damage {
                known - v.damage
            } else {
                0
            };
            players[k].hp.set(tick, left);
        }
        k += 1;
    }
    true
}

/// The damage of the sword of a player who holds `stacks` power-ups for it,
/// which is never more than a health can hold.
pub open spec fn sword_damage_of(stacks: u8) -> u8 {
    if SWORD_DAMAGE + stacks * DAMAGE_DEALT_UP > u8::MAX {
        u8::MAX
    } else {
        (SWORD_DAMAGE + stacks * DAMAGE_DEALT_UP) as u8
    }
}

/// The sword of the player `attacker`, who holds `stacks` power-ups for it,
/// hits an enemy: the enemy loses the damage of the sword from its health,
/// down to nothing, and remembers who hit it.
pub fn sword_hit(health: &mut Health, last_attacker: &mut LastAttacker, attacker: u8, stacks: u8)
    ensures
        final(last_attacker).0 == Some(attacker),
        final(health).max == old(health).max,
        final(health).dead == old(health).dead,
        final(health).current == if old(health).current >= sword_damage_of(stacks) {
            (old(health).current - sword_damage_of(stacks)) as u8
        } else {
            0
        },
{
    let step: u16 = DAMAGE_DEALT_UP as u16;
    assert(stacks * step <= 255 * 10) by (nonlinear_arith)
        requires
            0 <= stacks <= 255,
            step == 10,
    ;
    let raised: u16 = stacks as u16 * step + SWORD_DAMAGE as u16;
    let damage: u8 = if raised > 255 {
        255
    } else {
        raised as u8
    };
    last_attacker.0 = Some(attacker);
    health.current = if health.current >= damage {
        health.current - damage
    } else {
        0
    };
}

/// What is counted for a player.
#[derive(Clone, Copy, PartialEq, Eq, Structural, Debug)]
pub struct Stats {
    pub score: u8,
    pub enemies_killed: u8,
    pub camps_captured: u8,
}

/// A player with what is counted for it.
#[derive(Clone, Copy, PartialEq, Eq, Structural, Debug)]
pub struct PlayerStats {
    pub id: u8,
    pub stats: Stats,
}

/// A camp: how many of its enemies live, and whether it is held by them.
#[derive(Clone, Copy, PartialEq, Eq, Structural, Debug)]
pub struct CampState {
    pub id: u8,
    pub current_enemies: u8,
    pub status: bool,
}

/// Points for a kill.
pub const KILL_SCORE: u8 = 1;

/// Points for each camp that stands empty when an enemy dies.
pub const CAMP_SCORE: u8 = 5;

/// `c` after an enemy of the camp `camp` has died: that camp has one enemy
/// less, if it had any.
pub open spec fn camp_after_kill(c: CampState, camp: u8) -> CampState {
    if c.id == camp && c.current_enemies > 0 {
        CampState { id: c.id, current_enemies: (c.current_enemies - 1) as u8, status: c.status }
    } else {
        c
    }
}

/// How many of `camps` are held and stand empty once an enemy of the camp
/// `camp` has died.
pub open spec fn emptied(camps: Seq<CampState>, camp: u8) -> nat
    decreases camps.len(),
{
    if camps.len() == 0 {
        0
    } else {
        let last = camp_after_kill(camps.last(), camp);
        emptied(camps.drop_last(), camp) + if last.current_enemies == 0 && last.status {
            1nat
        } else {
            0nat
        }
    }
}

/// `n` as a count, which stops at the most it can hold.
pub open spec fn capped(n: int) -> u8 {
    if n > u8::MAX {
        u8::MAX
    } else {
        n as u8
    }
}

/// What is counted for a player after it has killed an enemy while `k` held
/// camps stood empty.
pub open spec fn stats_after_kill(s: Stats, k: nat) -> Stats {
    Stats {
        score: capped(s.score + CAMP_SCORE * k + KILL_SCORE),
        enemies_killed: capped(s.enemies_killed + 1),
        camps_captured: capped(s.camps_captured + k),
    }
}

/// Books the death of an enemy of the camp `camp` at the hands of the player
/// `killer`. The camp loses an enemy. The killer gets the points for the kill
/// and, for every held camp that then stands empty, the points for a camp.
pub fn settle_kill(
    killer: u8,
    camp: u8,
    players: &mut Vec<PlayerStats>,
    camps: &mut Vec<CampState>,
)
    ensures
        final(camps).len() == old(camps).len(),
        forall|i: int|
            0 <= i < old(camps).len() ==> #[trigger] final(camps)[i] == camp_after_kill(
                old(camps)[i],
                camp,
            ),
        final(players).len() == old(players).len(),
        forall|i: int|
            0 <= i < old(players).len() ==> #[trigger] final(players)[i] == if old(players)[i].id
                == killer {
                PlayerStats {
                    id: killer,
                    stats: stats_after_kill(old(players)[i].stats, emptied(old(camps)@, camp)),
                }
            } else {
                old(players)[i]
            },
{
    let n = camps.len();
    let mut k: usize = 0;
    let mut i: usize = 0;
    assert(old(camps)@.take(0) =~= Seq::<CampState>::empty());
    while i < n
        invariant
            n == camps.len(),
            n == old(camps).len(),
            i <= n,
            k <= i,
            k == emptied(old(camps)@.take(i as int), camp),
            forall|j: int| i <= j < n ==> camps[j] == old(camps)[j],
            forall|j: int| 0 <= j < i ==> #[trigger] camps[j] == camp_after_kill(old(camps)[j], camp),
        decreases n - i,
    {
        assert(old(camps)@.take(i + 1).drop_last() =~= old(camps)@.take(i as int));
        assert(old(camps)@.take(i + 1).last() == old(camps)[i as int]);
        let mut c = camps[i];
        if c.id == camp && c.current_enemies > 0 {
            c.current_enemies = c.current_enemies - 1;
        }
        if c.current_enemies == 0 && c.status {
            k += 1;
        }
        camps[i] = c;
        i += 1;
    }
    assert(old(camps)@.take(n as int) =~= old(camps)@);
    let m = players.len();
    let mut j: usize = 0;
    while j < m
        invariant
            m == players.len(),
            m == old(players).len(),
            j <= m,
            k == emptied(old(camps)@, camp),
            forall|h: int| j <= h < m ==> players[h] == old(players)[h],
            forall|h: int|
                0 <= h < j ==> #[trigger] players[h] == if old(players)[h].id == killer {
                    PlayerStats {
                        id: killer,
                        stats: stats_after_kill(old(players)[h].stats, emptied(old(camps)@, camp)),
                    }
                } else {
                    old(players)[h]
                },
        decreases m - j,
    {
        if players[j].id == killer {
            let s = players[j].stats;
            let score: u8 = if k >= 51 {
                255
            } else {
                cap(s.score as usize + 5 * k + 1)
            };
            let camps_captured: u8 = if k >= 255 {
                255
            } else {
                cap(s.camps_captured as usize + k)
            };
            let enemies_killed: u8 = cap(s.enemies_killed as usize + 1);
            players[j] = PlayerStats {
                id: killer,
                stats: Stats { score, enemies_killed, camps_captured },
            };
        }
        j += 1;
    }
}

/// `n` as a count, which stops at the most it can hold.
fn cap(n: usize) -> (r: u8)
    ensures
        r == capped(n as int),
{
    if n > 255 {
        255
    } else {
        n as u8
    }
}

/// Whether the attack flag of an enemy is set at the tick that counts as
/// settled, `DELAY` ticks behind the clock. Flags that are not known count
/// as not set.
pub fn attack_settled(events: &EventBuffer, tick: &TickNum) -> (r: bool)
    requires
        events.wf(),
    ensures
        r == match lookup(events@, tick_plus(tick.0, -(DELAY as int))) {
            Some(e) => e & ATTACK_BITFLAG != 0,
            None => false,
        },
{
    match events.get(tick.settled()) {
        Some(e) => e & ATTACK_BITFLAG != 0,
        None => false,
    }
}

/// The host brings the health of an enemy up to what its history says for
/// `tick`. An enemy whose health has fallen to nothing dies; the caller then
/// counts the kill. Where the history says nothing, nothing changes.
pub fn update_enemies(hp: &mut Health, hb: &HpBuffer, tick: u16) -> (change: LifeChange)
    requires
        hb.wf(),
    ensures
        final(hp).max == old(hp).max,
        match lookup(hb@, tick) {
            None => *final(hp) == *old(hp) && change == LifeChange::Unchanged,
            Some(h) => {
                &&& final(hp).current == h
                &&& final(hp).dead == (old(hp).dead || h == 0)
                &&& change == if h == 0 && !old(hp).dead {
                    LifeChange::Died
                } else {
                    LifeChange::Unchanged
                }
            },
        },
{
    let next: u8 = match hb.get(tick) {
        Some(h) => h,
        None => {
            return LifeChange::Unchanged;
        },
    };
    hp.current = next;
    if next == 0 && !hp.dead {
        hp.dead = true;
        LifeChange::Died
    } else {
        LifeChange::Unchanged
    }
}

/// A client brings the health of an enemy up to what its history says for
/// `tick`. An enemy whose health has fallen to nothing dies, and a dead one
/// that has health again lives. Where the history says nothing, nothing
/// changes.
pub fn health_simulate(hp: &mut Health, hb: &HpBuffer, tick: u16) -> (change: LifeChange)
    requires
        hb.wf(),
    ensures
        match lookup(hb@, tick) {
            None => *final(hp) == *old(hp) && change == LifeChange::Unchanged,
            Some(h) => {
                &&& final(hp).current == h
                &&& final(hp).max == ENEMY_MAX_HP
                &&& final(hp).dead == (h == 0)
                &&& change == if h > 0 && old(hp).dead {
                    LifeChange::Revived
                } else if h == 0 && !old(hp).dead {
                    LifeChange::Died
                } else {
                    LifeChange::Unchanged
                }
            },
        },
{
    let next: u8 = match hb.get(tick) {
        Some(h) => h,
        None => {
            return LifeChange::Unchanged;
        },
    };
    hp.current = next;
    hp.max = ENEMY_MAX_HP;
    if next > 0 && hp.dead {
        hp.dead = false;
        LifeChange::Revived
    } else if next == 0 && !hp.dead {
        hp.dead = true;
        LifeChange::Died
    } else {
        LifeChange::Unchanged
    }
}

/// An enemy rests when it has no target and stood nearer than
/// `CIRCLE_RADIUS` to its spawn position at the previous tick.
pub open spec fn rests(aggro: Aggro, prev: Option<Pos>, spawn: SpawnPosition) -> bool {
    aggro.0 is None && prev is Some && dist_sq(spawn.0, prev->0) < CIRCLE_RADIUS * CIRCLE_RADIUS
}

/// Whether an enemy rests. Its recovery timer runs only while it does.
pub fn is_resting(aggro: &Aggro, prev: Option<Pos>, spawn: &SpawnPosition) -> (r: bool)
    ensures
        r == rests(*aggro, prev, *spawn),
{
    match prev {
        Some(p) => aggro.0.is_none() && within(spawn.0, p, CIRCLE_RADIUS),
        None => false,
    }
}

/// Lets a resting enemy whose recovery timer has run out recover
/// `REGEN_STEP` health, if it has less than its full health. The answer says
/// whether it did.
pub fn recover(hp: &mut Health, resting: bool, timer_finished: bool) -> (gained: bool)
    ensures
        gained == (resting && timer_finished && old(hp).current < old(hp).max),
        final(hp).max == old(hp).max,
        final(hp).dead == old(hp).dead,
        final(hp).current == if !gained {
            old(hp).current
        } else if old(hp).current + REGEN_STEP > u8::MAX {
            u8::MAX
        } else {
            (old(hp).current + REGEN_STEP) as u8
        },
{
    if resting && timer_finished && hp.current < hp.max {
        hp.current = if hp.current > u8::MAX - REGEN_STEP {
            u8::MAX
        } else {
            hp.current + REGEN_STEP
        };
        true
    } else {
        false
    }
}

/// Lets an enemy attack if its attack timer has run out, and resets the
/// timer when it has attacked. See `resolve_attack` for what an attack does.
pub fn attack_simulate(
    tick: u16,
    enemy: &mut NetEntity,
    enemy_hp: &Health,
    aggro: &Aggro,
    spawn_timer: &mut Timer,
    enemy_pos: Pos,
    is_special: bool,
    players: &mut Vec<NetEntity>,
    victims: &Vec<Victim>,
) -> (attacked: bool)
    requires
        old(enemy).wf(),
        forall|i: int| 0 <= i < old(players).len() ==> (#[trigger] old(players)[i]).wf(),
        victims.len() == old(players).len(),
    ensures
        attacked == (enemy_hp.current > 0 && aggro.0 is Some && has_finished(*old(spawn_timer))),
        attacked ==> !has_finished(*final(spawn_timer)) && elapsed_nanos(*final(spawn_timer)) == 0,
        !attacked ==> *final(spawn_timer) == *old(spawn_timer),
        final(players).len() == old(players).len(),
        forall|i: int| 0 <= i < final(players).len() ==> (#[trigger] final(players)[i]).wf(),
        final(enemy).wf(),
        !attacked ==> *final(enemy) == *old(enemy) && final(players)@ == old(players)@,
        attacked ==> final(enemy).updated_from(
            old(enemy),
            tick,
            flag_update(old(enemy).events@, tick, ATTACK_BITFLAG),
        ),
        attacked ==> forall|i: int|
            0 <= i < final(players).len() ==> struck(
                &old(players)[i],
                #[trigger] &final(players)[i],
                victims[i],
                tick,
                enemy_pos,
                is_special,
            ),
{
    let finished = timer_finished(spawn_timer);
    let attacked = resolve_attack(
        tick,
        enemy,
        enemy_hp,
        aggro,
        finished,
        enemy_pos,
        is_special,
        players,
        victims,
    );
    if attacked {
        timer_reset(spawn_timer);
    }
    attacked
}

/// Lets an enemy recover that rests and whose recovery timer has run out.
/// The caller lets the timer run while `is_resting` says that the enemy
/// rests.
pub fn enemy_regen_health(
    hp: &mut Health,
    aggro: &Aggro,
    prev: Option<Pos>,
    spawn: &SpawnPosition,
    timer: &Timer,
) -> (gained: bool)
    ensures
        final(hp).max == old(hp).max,
        final(hp).dead == old(hp).dead,
        gained == (rests(*aggro, prev, *spawn) && has_finished(*timer) && old(hp).current < old(hp).max),
        final(hp).current == if !gained {
            old(hp).current
        } else if old(hp).current + REGEN_STEP > u8::MAX {
            u8::MAX
        } else {
            (old(hp).current + REGEN_STEP) as u8
        },
{
    if !is_resting(aggro, prev, spawn) {
        return false;
    }
    let finished = timer_finished(timer);
    recover(hp, true, finished)
}

/// An enemy that enters the world at `tick` at `pos`, with the health of
/// its kind.
pub fn spawn_enemy(id: u8, capacity: usize, tick: u16, pos: Pos, is_special: bool) -> (r: (
    NetEntity,
    Health,
    SpawnPosition,
))
    requires
        0 < capacity,
    ensures
        r.0.is_fresh(
            id,
            capacity as nat,
            tick,
            pos,
            0,
            if is_special { SPECIAL_MAX_HP } else { ENEMY_MAX_HP },
        ),
        r.1.current == r.1.max,
        r.1.max == if is_special { SPECIAL_MAX_HP } else { ENEMY_MAX_HP },
        !r.1.dead,
        r.2.0 == pos,
{
    let enemy_hp: u8 = if is_special {
        SPECIAL_MAX_HP
    } else {
        ENEMY_MAX_HP
    };
    let e = NetEntity::new(id, capacity, tick, pos, 0, enemy_hp);
    (e, Health { current: enemy_hp, max: enemy_hp, dead: false }, SpawnPosition(pos))
}

/// Where the player `i` enters the world.
pub open spec fn player_start(i: int) -> Pos {
    Pos { x: (i * 100) as i32, y: (i * 100) as i32 }
}

/// The players of a match as they enter the world at `tick`: `MAX_PLAYERS`
/// of them, with the ids from zero up, each at its own place and unhurt.
pub fn create_players(capacity: usize, tick: u16) -> (players: Vec<NetEntity>)
    requires
        0 < capacity,
    ensures
        players.len() == MAX_PLAYERS,
        forall|i: int|
            0 <= i < players.len() ==> {
                (#[trigger] players[i]).is_fresh(
                    i as u8,
                    capacity as nat,
                    tick,
                    player_start(i),
                    0,
                    PLAYER_DEFAULT_HP,
                )
            },
{
    let mut players: Vec<NetEntity> = Vec::new();
    let mut i: usize = 0;
    while i < MAX_PLAYERS
        invariant
            i <= MAX_PLAYERS,
            players.len() == i,
            0 < capacity,
            forall|j: int|
                0 <= j < players.len() ==> {
                    (#[trigger] players[j]).is_fresh(
                        j as u8,
                        capacity as nat,
                        tick,
                        player_start(j),
                        0,
                        PLAYER_DEFAULT_HP,
                    )
                },
        decreases MAX_PLAYERS - i,
    {
        let at: i32 = (i as i32) * 100;
        let e = NetEntity::new(i as u8, capacity, tick, Pos { x: at, y: at }, 0, PLAYER_DEFAULT_HP);
        players.push(e);
        i += 1;
    }
    players
}

} // verus!
