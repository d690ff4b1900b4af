use netsim::buffers::PosBuffer;
use bevy::time::{Timer, TimerMode};
use netsim::combat::{
    attack_settled, attack_simulate, create_players, enemy_regen_health, health_simulate,
    is_resting, recover, resolve_attack, settle_kill, spawn_enemy, sword_hit, update_enemies,
    CampState, LastAttacker, LifeChange, PlayerStats, Stats, Victim, CAMP_SCORE, DAMAGE_DEALT_UP,
    KILL_SCORE, REGEN_STEP, SPECIAL_ATTACK_RADIUS, SPECIAL_MAX_HP, SWORD_DAMAGE,
};
use netsim::enemy::{
    aggro_step, decide_aggro, fixed_aggro, fixed_move, has_candidate, is_alive, move_step,
    nearest_player, player_position, sample_players, steer, Aggro, PlayerSample, SpawnPosition,
    AGGRO_BITFLAG, AGGRO_RANGE, ATTACK_BITFLAG, CIRCLE_RADIUS, ENEMY_MAX_HP, ENEMY_SPEED,
};
use netsim::math::within_or_at;
use std::time::Duration;
use netsim::entity::{Health, NetEntity, Snapshot};
use netsim::grid::Grid;
use netsim::net::increment_tick;
use netsim::tick::TickNum;
use netsim::world::{Pos, WorldMap};

fn pos(x: i32, y: i32) -> Pos {
    Pos { x, y }
}

fn player(id: u8, x: i32, y: i32) -> PlayerSample {
    PlayerSample { id, dead: false, pos: Some(pos(x, y)) }
}

fn open_map() -> WorldMap {
    WorldMap::new(Grid::new(64, 64).unwrap(), 16).unwrap()
}

#[test]
fn constants_of_the_enemy() {
    assert_eq!(ENEMY_SPEED, 15);
    assert_eq!(AGGRO_RANGE, 200);
    assert_eq!(CIRCLE_RADIUS, 64);
    assert_eq!(ENEMY_MAX_HP, 100);
    assert_eq!(ATTACK_BITFLAG, 1);
    assert_eq!(AGGRO_BITFLAG, 2);
}

#[test]
fn player_on_the_boundary_is_out_of_range() {
    let mut aggro = Aggro(None);
    let became = decide_aggro(&mut aggro, Some(pos(0, 0)), &vec![player(3, 200, 0)]);
    assert!(!became);
    assert_eq!(aggro.0, None);
    let became = decide_aggro(&mut aggro, Some(pos(0, 0)), &vec![player(3, 0, -200)]);
    assert!(!became);
    assert_eq!(aggro.0, None);
    let became = decide_aggro(&mut aggro, Some(pos(0, 0)), &vec![player(3, 120, 160)]);
    assert!(!became);
    assert_eq!(aggro.0, None);
}

#[test]
fn player_one_unit_inside_the_boundary_is_taken() {
    let mut aggro = Aggro(None);
    let became = decide_aggro(&mut aggro, Some(pos(0, 0)), &vec![player(3, 199, 0)]);
    assert!(became);
    assert_eq!(aggro.0, Some(3));
    let mut other = Aggro(None);
    assert!(decide_aggro(&mut other, Some(pos(0, 0)), &vec![player(4, 120, 159)]));
    assert_eq!(other.0, Some(4));
}

#[test]
fn nearest_living_player_is_taken() {
    let players = vec![
        player(0, 150, 0),
        PlayerSample { id: 1, dead: true, pos: Some(pos(10, 0)) },
        PlayerSample { id: 2, dead: false, pos: None },
        player(3, 0, 100),
        player(4, 100, 0),
    ];
    assert_eq!(nearest_player(&players, pos(0, 0)), Some(3));
    let mut aggro = Aggro(None);
    assert!(decide_aggro(&mut aggro, Some(pos(0, 0)), &players));
    assert_eq!(aggro.0, Some(3));
    assert_eq!(nearest_player(&players, pos(140, 0)), Some(0));
}

#[test]
fn no_candidates_no_target() {
    let players = vec![
        PlayerSample { id: 1, dead: true, pos: Some(pos(10, 0)) },
        PlayerSample { id: 2, dead: false, pos: None },
    ];
    assert_eq!(nearest_player(&players, pos(0, 0)), None);
    assert_eq!(nearest_player(&Vec::new(), pos(0, 0)), None);
    let mut aggro = Aggro(None);
    assert!(!decide_aggro(&mut aggro, Some(pos(0, 0)), &players));
    assert_eq!(aggro.0, None);
}

#[test]
fn target_is_kept_while_it_lives_and_someone_is_in_range() {
    let players = vec![player(0, 500, 0), player(1, 10, 0)];
    let mut aggro = Aggro(Some(0));
    assert!(!decide_aggro(&mut aggro, Some(pos(0, 0)), &players));
    assert_eq!(aggro.0, Some(0));
}

#[test]
fn target_is_lost_when_nobody_is_in_range() {
    let players = vec![player(0, 500, 0), player(1, 0, 201)];
    let mut aggro = Aggro(Some(0));
    assert!(!decide_aggro(&mut aggro, Some(pos(0, 0)), &players));
    assert_eq!(aggro.0, None);
}

#[test]
fn target_is_lost_when_it_dies() {
    let players = vec![PlayerSample { id: 0, dead: true, pos: Some(pos(5, 0)) }, player(1, 10, 0)];
    let mut aggro = Aggro(Some(0));
    assert!(!decide_aggro(&mut aggro, Some(pos(0, 0)), &players));
    assert_eq!(aggro.0, None);
    assert!(decide_aggro(&mut aggro, Some(pos(0, 0)), &players));
    assert_eq!(aggro.0, Some(1));
    assert!(!is_alive(&players, 0));
    assert!(is_alive(&players, 1));
    assert!(!is_alive(&players, 2));
}

#[test]
fn unknown_enemy_position_takes_no_target_and_keeps_a_living_one() {
    let players = vec![player(0, 5, 0), player(9, 5000, 0)];
    let mut idle = Aggro(None);
    assert!(!decide_aggro(&mut idle, None, &players));
    assert_eq!(idle.0, None);
    let mut busy = Aggro(Some(9));
    assert!(!decide_aggro(&mut busy, None, &players));
    assert_eq!(busy.0, Some(9));
}

#[test]
fn unknown_enemy_position_gives_up_a_dead_or_missing_target() {
    let players = vec![player(0, 5, 0), PlayerSample { id: 9, dead: true, pos: Some(pos(1, 0)) }];
    let mut dead = Aggro(Some(9));
    assert!(!decide_aggro(&mut dead, None, &players));
    assert_eq!(dead.0, None);
    let mut missing = Aggro(Some(7));
    assert!(!decide_aggro(&mut missing, None, &players));
    assert_eq!(missing.0, None);
}

#[test]
fn unknown_enemy_position_gives_up_the_target_when_nobody_can_be_one() {
    let hidden = vec![PlayerSample { id: 9, dead: false, pos: None }];
    let mut busy = Aggro(Some(9));
    assert!(!decide_aggro(&mut busy, None, &hidden));
    assert_eq!(busy.0, None);
    let mut alone = Aggro(Some(9));
    assert!(!decide_aggro(&mut alone, None, &Vec::new()));
    assert_eq!(alone.0, None);
    let others = vec![
        PlayerSample { id: 9, dead: false, pos: None },
        PlayerSample { id: 1, dead: true, pos: Some(pos(0, 0)) },
    ];
    let mut third = Aggro(Some(9));
    assert!(!decide_aggro(&mut third, None, &others));
    assert_eq!(third.0, None);
    assert!(!has_candidate(&others));
    assert!(has_candidate(&vec![player(1, 0, 0)]));
}

#[test]
fn target_is_given_up_when_every_living_player_is_out_of_range_or_none_is_known() {
    let far = vec![player(9, 201, 0), player(1, 0, -300)];
    let mut a = Aggro(Some(9));
    assert!(!decide_aggro(&mut a, Some(pos(0, 0)), &far));
    assert_eq!(a.0, None);
    let none = vec![PlayerSample { id: 9, dead: false, pos: None }];
    let mut b = Aggro(Some(9));
    assert!(!decide_aggro(&mut b, Some(pos(0, 0)), &none));
    assert_eq!(b.0, None);
}

#[test]
fn position_of_a_player_by_id() {
    let players = vec![
        player(0, 1, 1),
        player(1, 2, 2),
        PlayerSample { id: 2, dead: false, pos: None },
        player(1, 3, 3),
    ];
    assert_eq!(player_position(&players, 0), Some(pos(1, 1)));
    assert_eq!(player_position(&players, 1), Some(pos(3, 3)));
    assert_eq!(player_position(&players, 2), None);
    assert_eq!(player_position(&players, 7), None);
}

#[test]
fn aggroed_enemy_moves_one_step_towards_its_target() {
    let map = open_map();
    let mut tick = TickNum(40);
    let mut enemies = vec![NetEntity::new(7, 16, 40, pos(0, 0), 0, 100)];
    increment_tick(&mut tick, &mut enemies);
    let players = vec![player(1, 100, 0)];
    let mut aggro = Aggro(None);
    assert!(decide_aggro(&mut aggro, enemies[0].pos.get(tick.previous()), &players));
    assert_eq!(aggro.0, Some(1));
    fixed_move(tick.0, &mut enemies[0].pos, &aggro, &SpawnPosition(pos(0, 0)), &players, &map);
    let now = enemies[0].pos.get(41).unwrap();
    assert!(now.x > 0 && now.x <= 15);
    assert_eq!(now, pos(15, 0));
    assert_eq!(enemies[0].pos.get(40), Some(pos(0, 0)));
}

#[test]
fn enemy_keeps_moving_tick_after_tick() {
    let map = open_map();
    let mut tick = TickNum(0);
    let mut enemies = vec![NetEntity::new(7, 16, 0, pos(0, 0), 0, 100)];
    let players = vec![player(1, 100, 0)];
    let aggro = Aggro(Some(1));
    let spawn = SpawnPosition(pos(0, 0));
    let mut seen = Vec::new();
    for _ in 0..5 {
        increment_tick(&mut tick, &mut enemies);
        fixed_move(tick.0, &mut enemies[0].pos, &aggro, &spawn, &players, &map);
        seen.push(enemies[0].pos.get(tick.0).unwrap());
    }
    assert_eq!(seen, vec![pos(15, 0), pos(30, 0), pos(45, 0), pos(45, 0), pos(45, 0)]);
}

#[test]
fn enemy_near_its_destination_writes_nothing() {
    let map = open_map();
    let mut epb = PosBuffer::new_from(8, 4, pos(40, 0));
    fixed_move(5, &mut epb, &Aggro(Some(1)), &SpawnPosition(pos(0, 0)), &vec![player(1, 100, 0)], &map);
    assert_eq!(epb.get(5), None);
    assert_eq!(steer(&map, pos(40, 0), pos(100, 0)), None);
    assert_eq!(steer(&map, pos(37, 0), pos(100, 0)), None);
    assert_eq!(steer(&map, pos(36, 0), pos(100, 0)), None);
    assert_eq!(steer(&map, pos(35, 0), pos(100, 0)), Some(pos(50, 0)));
}

#[test]
fn enemy_exactly_at_the_arrival_radius_stays() {
    let map = open_map();
    let mut tick = TickNum(4);
    let mut enemies = vec![NetEntity::new(7, 16, 4, pos(0, 0), 0, 100)];
    increment_tick(&mut tick, &mut enemies);
    fixed_move(5, &mut enemies[0].pos, &Aggro(None), &SpawnPosition(pos(64, 0)), &Vec::new(), &map);
    assert_eq!(enemies[0].pos.get(5), Some(pos(0, 0)));
    let mut bare = PosBuffer::new_from(8, 4, pos(0, 0));
    fixed_move(5, &mut bare, &Aggro(None), &SpawnPosition(pos(64, 0)), &Vec::new(), &map);
    assert_eq!(bare.get(5), None);
    fixed_move(5, &mut bare, &Aggro(None), &SpawnPosition(pos(0, -64)), &Vec::new(), &map);
    assert_eq!(bare.get(5), None);
    assert_eq!(steer(&map, pos(0, 0), pos(64, 0)), None);
    assert_eq!(steer(&map, pos(0, 0), pos(65, 0)), Some(pos(15, 0)));
    assert!(within_or_at(pos(0, 0), pos(64, 0), 64));
    assert!(!within_or_at(pos(0, 0), pos(65, 0), 64));
    assert!(within_or_at(pos(0, 0), pos(0, 0), 0));
}

#[test]
fn idle_enemy_returns_to_its_spawn_position() {
    let map = open_map();
    let mut epb = PosBuffer::new_from(8, 4, pos(0, 0));
    fixed_move(5, &mut epb, &Aggro(None), &SpawnPosition(pos(0, -100)), &vec![player(1, 100, 0)], &map);
    assert_eq!(epb.get(5), Some(pos(0, -15)));
}

#[test]
fn enemy_without_known_position_or_target_writes_nothing() {
    let map = open_map();
    let mut epb = PosBuffer::new_from(8, 3, pos(0, 0));
    fixed_move(5, &mut epb, &Aggro(None), &SpawnPosition(pos(0, -100)), &Vec::new(), &map);
    assert_eq!(epb.get(5), None);
    let mut known = PosBuffer::new_from(8, 4, pos(0, 0));
    fixed_move(5, &mut known, &Aggro(Some(2)), &SpawnPosition(pos(0, -100)), &vec![player(1, 100, 0)], &map);
    assert_eq!(known.get(5), None);
    let hidden = vec![PlayerSample { id: 2, dead: false, pos: None }];
    fixed_move(5, &mut known, &Aggro(Some(2)), &SpawnPosition(pos(0, -100)), &hidden, &map);
    assert_eq!(known.get(5), None);
}

#[test]
fn enemy_steers_along_a_slope() {
    let map = open_map();
    assert_eq!(steer(&map, pos(0, 0), pos(0, 100)), Some(pos(0, 15)));
    let next = steer(&map, pos(8, 8), pos(-300, -300)).unwrap();
    assert!(next.x < 8 || next.y < 8);
    let dx = (next.x - 8) as i64;
    let dy = (next.y - 8) as i64;
    assert!(dx * dx + dy * dy <= 225);
    assert!(dx * dx + dy * dy >= 196);
}

fn victim(x: i32, y: i32, shielded: bool, damage: u8) -> Victim {
    Victim { pos: pos(x, y), shielded, damage }
}

fn alive(current: u8) -> Health {
    Health { current, max: 100, dead: false }
}

#[test]
fn attack_hits_players_within_reach() {
    let mut enemy = NetEntity::new(9, 8, 5, pos(0, 0), 0, 100);
    let mut players = vec![
        NetEntity::new(0, 8, 5, pos(10, 0), 0, 100),
        NetEntity::new(1, 8, 5, pos(64, 0), 0, 100),
        NetEntity::new(2, 8, 5, pos(63, 0), 0, 10),
        NetEntity::new(3, 8, 4, pos(0, 63), 0, 100),
    ];
    let victims = vec![
        victim(10, 0, false, 15),
        victim(64, 0, false, 15),
        victim(63, 0, false, 15),
        victim(0, 63, false, 15),
    ];
    let attacked = resolve_attack(
        5, &mut enemy, &alive(50), &Aggro(Some(0)), true, pos(0, 0), false, &mut players, &victims,
    );
    assert!(attacked);
    assert_eq!(enemy.events.get(5), Some(ATTACK_BITFLAG));
    assert_eq!(players[0].hp.get(5), Some(85));
    assert_eq!(players[1].hp.get(5), Some(100));
    assert_eq!(players[2].hp.get(5), Some(0));
    assert_eq!(players[3].hp.get(5), Some(85));
    assert_eq!(players[0].pos.get(5), Some(pos(10, 0)));
}

#[test]
fn attack_spares_shielded_and_undamaged_players() {
    let mut enemy = NetEntity::new(9, 8, 5, pos(0, 0), 0, 100);
    enemy.raise(5, AGGRO_BITFLAG);
    let mut players = vec![
        NetEntity::new(0, 8, 5, pos(10, 0), 0, 100),
        NetEntity::new(1, 8, 5, pos(10, 0), 0, 100),
    ];
    let victims = vec![victim(10, 0, true, 15), victim(10, 0, false, 0)];
    assert!(resolve_attack(
        5, &mut enemy, &alive(50), &Aggro(Some(0)), true, pos(0, 0), false, &mut players, &victims,
    ));
    assert_eq!(enemy.events.get(5), Some(ATTACK_BITFLAG | AGGRO_BITFLAG));
    assert_eq!(players[0].hp.get(5), Some(100));
    assert_eq!(players[1].hp.get(5), Some(100));
}

#[test]
fn special_enemy_reaches_farther() {
    let mut enemy = NetEntity::new(9, 8, 5, pos(0, 0), 0, 150);
    let mut players = vec![
        NetEntity::new(0, 8, 5, pos(95, 0), 0, 100),
        NetEntity::new(1, 8, 5, pos(96, 0), 0, 100),
    ];
    let victims = vec![victim(95, 0, false, 15), victim(96, 0, false, 15)];
    assert!(resolve_attack(
        5, &mut enemy, &alive(50), &Aggro(Some(0)), true, pos(0, 0), true, &mut players, &victims,
    ));
    assert_eq!(players[0].hp.get(5), Some(85));
    assert_eq!(players[1].hp.get(5), Some(100));
}

#[test]
fn no_attack_without_life_target_or_timer() {
    let mut enemy = NetEntity::new(9, 8, 5, pos(0, 0), 0, 100);
    let mut players = vec![NetEntity::new(0, 8, 5, pos(10, 0), 0, 100)];
    let victims = vec![victim(10, 0, false, 15)];
    assert!(!resolve_attack(
        5, &mut enemy, &alive(0), &Aggro(Some(0)), true, pos(0, 0), false, &mut players, &victims,
    ));
    assert!(!resolve_attack(
        5, &mut enemy, &alive(50), &Aggro(None), true, pos(0, 0), false, &mut players, &victims,
    ));
    assert!(!resolve_attack(
        5, &mut enemy, &alive(50), &Aggro(Some(0)), false, pos(0, 0), false, &mut players, &victims,
    ));
    assert_eq!(enemy.events.get(5), Some(0));
    assert_eq!(players[0].hp.get(5), Some(100));
}

#[test]
fn attack_is_seen_after_the_delay() {
    let mut enemy = NetEntity::new(9, 8, 5, pos(0, 0), 0, 100);
    enemy.raise(5, ATTACK_BITFLAG);
    assert!(!attack_settled(&enemy.events, &TickNum(5)));
    assert!(!attack_settled(&enemy.events, &TickNum(6)));
    assert!(attack_settled(&enemy.events, &TickNum(7)));
    assert!(!attack_settled(&enemy.events, &TickNum(8)));
    enemy.events.set(6, AGGRO_BITFLAG);
    assert!(!attack_settled(&enemy.events, &TickNum(8)));
}

#[test]
fn host_sees_an_enemy_die() {
    let mut e = NetEntity::new(9, 8, 5, pos(0, 0), 0, 40);
    let mut hp = Health { current: 100, max: 100, dead: false };
    assert_eq!(update_enemies(&mut hp, &e.hp, 5), LifeChange::Unchanged);
    assert_eq!(hp.current, 40);
    assert!(!hp.dead);
    assert_eq!(update_enemies(&mut hp, &e.hp, 6), LifeChange::Unchanged);
    assert_eq!(hp.current, 40);
    e.hp.set(6, 0);
    assert_eq!(update_enemies(&mut hp, &e.hp, 6), LifeChange::Died);
    assert_eq!(hp.current, 0);
    assert!(hp.dead);
    assert_eq!(update_enemies(&mut hp, &e.hp, 6), LifeChange::Unchanged);
    assert!(hp.dead);
    assert_eq!(hp.max, 100);
}

#[test]
fn client_sees_an_enemy_die_and_live_again() {
    let mut e = NetEntity::new(9, 8, 5, pos(0, 0), 0, 0);
    let mut hp = Health { current: 100, max: 150, dead: false };
    assert_eq!(health_simulate(&mut hp, &e.hp, 4), LifeChange::Unchanged);
    assert_eq!(hp.max, 150);
    assert_eq!(health_simulate(&mut hp, &e.hp, 5), LifeChange::Died);
    assert!(hp.dead);
    assert_eq!(hp.max, 100);
    assert_eq!(health_simulate(&mut hp, &e.hp, 5), LifeChange::Unchanged);
    e.hp.set(6, 30);
    assert_eq!(health_simulate(&mut hp, &e.hp, 6), LifeChange::Revived);
    assert!(!hp.dead);
    assert_eq!(hp.current, 30);
    assert_eq!(health_simulate(&mut hp, &e.hp, 6), LifeChange::Unchanged);
}

#[test]
fn resting_enemy_recovers() {
    let spawn = SpawnPosition(pos(0, 0));
    assert!(is_resting(&Aggro(None), Some(pos(63, 0)), &spawn));
    assert!(!is_resting(&Aggro(None), Some(pos(64, 0)), &spawn));
    assert!(!is_resting(&Aggro(Some(1)), Some(pos(0, 0)), &spawn));
    assert!(!is_resting(&Aggro(None), None, &spawn));
    let mut hp = Health { current: 85, max: 100, dead: false };
    assert!(!recover(&mut hp, false, true));
    assert!(!recover(&mut hp, true, false));
    assert_eq!(hp.current, 85);
    assert!(recover(&mut hp, true, true));
    assert_eq!(hp.current, 95);
    assert!(recover(&mut hp, true, true));
    assert_eq!(hp.current, 105);
    assert!(!recover(&mut hp, true, true));
    assert_eq!(hp.current, 105);
    let mut full = Health { current: 250, max: 255, dead: false };
    assert!(recover(&mut full, true, true));
    assert_eq!(full.current, 255);
}

#[test]
fn spawned_enemy_has_the_health_of_its_kind() {
    let (e, hp, spawn) = spawn_enemy(4, 8, 30, pos(5, 6), false);
    assert_eq!(e.id, 4);
    assert_eq!(e.snapshot(30), Some(Snapshot { pos: pos(5, 6), hp: 100, events: 0 }));
    assert_eq!(hp.current, 100);
    assert_eq!(hp.max, 100);
    assert!(!hp.dead);
    assert_eq!(spawn.0, pos(5, 6));
    let (s, shp, _) = spawn_enemy(5, 8, 30, pos(5, 6), true);
    assert_eq!(s.hp.get(30), Some(150));
    assert_eq!(shp.max, 150);
    assert_eq!(s.pos.capacity(), 8);
}

#[test]
fn players_enter_the_world_at_their_places() {
    let players = create_players(8, 3);
    assert_eq!(players.len(), 4);
    for i in 0..4 {
        assert_eq!(players[i].id, i as u8);
        let at = (i as i32) * 100;
        assert_eq!(players[i].snapshot(3), Some(Snapshot { pos: pos(at, at), hp: 100, events: 0 }));
        assert_eq!(players[i].dir.get(3), Some(0));
        assert_eq!(players[i].snapshot(2), None);
    }
}

fn running_timer(seconds: u64) -> Timer {
    Timer::new(Duration::from_secs(seconds), TimerMode::Once)
}

fn finished_timer(seconds: u64) -> Timer {
    let mut t = running_timer(seconds);
    t.tick(Duration::from_secs(seconds));
    t
}

#[test]
fn taking_a_target_resets_the_attack_timer() {
    let mut timer = finished_timer(4);
    assert!(timer.finished());
    let mut aggro = Aggro(None);
    assert!(fixed_aggro(&mut aggro, Some(pos(0, 0)), &vec![player(3, 199, 0)], &mut timer));
    assert_eq!(aggro.0, Some(3));
    assert!(!timer.finished());
    assert_eq!(timer.elapsed(), Duration::ZERO);
}

#[test]
fn keeping_or_lacking_a_target_leaves_the_attack_timer_alone() {
    let mut timer = finished_timer(4);
    let mut aggro = Aggro(Some(3));
    assert!(!fixed_aggro(&mut aggro, Some(pos(0, 0)), &vec![player(3, 199, 0)], &mut timer));
    assert!(timer.finished());
    let mut idle = Aggro(None);
    assert!(!fixed_aggro(&mut idle, Some(pos(0, 0)), &vec![player(3, 200, 0)], &mut timer));
    assert_eq!(idle.0, None);
    assert!(timer.finished());
    let mut half = running_timer(4);
    half.tick(Duration::from_secs(1));
    assert!(!fixed_aggro(&mut idle, None, &vec![player(3, 1, 0)], &mut half));
    assert_eq!(half.elapsed(), Duration::from_secs(1));
}

#[test]
fn attack_waits_for_the_timer_and_resets_it() {
    let mut enemy = NetEntity::new(9, 8, 5, pos(0, 0), 0, 100);
    let mut players = vec![NetEntity::new(0, 8, 5, pos(10, 0), 0, 100)];
    let victims = vec![victim(10, 0, false, 15)];
    let mut timer = running_timer(4);
    timer.tick(Duration::from_secs(3));
    assert!(!attack_simulate(
        5, &mut enemy, &alive(50), &Aggro(Some(0)), &mut timer, pos(0, 0), false, &mut players,
        &victims,
    ));
    assert_eq!(players[0].hp.get(5), Some(100));
    assert_eq!(timer.elapsed(), Duration::from_secs(3));
    timer.tick(Duration::from_secs(1));
    assert!(attack_simulate(
        5, &mut enemy, &alive(50), &Aggro(Some(0)), &mut timer, pos(0, 0), false, &mut players,
        &victims,
    ));
    assert_eq!(players[0].hp.get(5), Some(85));
    assert_eq!(enemy.events.get(5), Some(ATTACK_BITFLAG));
    assert!(!timer.finished());
    assert!(!attack_simulate(
        5, &mut enemy, &alive(50), &Aggro(Some(0)), &mut timer, pos(0, 0), false, &mut players,
        &victims,
    ));
    assert_eq!(players[0].hp.get(5), Some(85));
}

#[test]
fn idle_enemy_without_target_does_not_reset_a_finished_timer() {
    let mut enemy = NetEntity::new(9, 8, 5, pos(0, 0), 0, 100);
    let mut players = vec![NetEntity::new(0, 8, 5, pos(10, 0), 0, 100)];
    let victims = vec![victim(10, 0, false, 15)];
    let mut timer = finished_timer(4);
    assert!(!attack_simulate(
        5, &mut enemy, &alive(50), &Aggro(None), &mut timer, pos(0, 0), false, &mut players,
        &victims,
    ));
    assert!(timer.finished());
}

#[test]
fn resting_enemy_recovers_when_its_timer_has_run_out() {
    let spawn = SpawnPosition(pos(0, 0));
    let mut hp = Health { current: 50, max: 100, dead: false };
    let mut timer = Timer::new(Duration::from_secs(1), TimerMode::Repeating);
    timer.tick(Duration::from_micros(600_000));
    assert!(!enemy_regen_health(&mut hp, &Aggro(None), Some(pos(10, 0)), &spawn, &timer));
    assert_eq!(hp.current, 50);
    timer.tick(Duration::from_micros(600_000));
    assert!(timer.finished());
    assert!(!enemy_regen_health(&mut hp, &Aggro(Some(1)), Some(pos(0, 0)), &spawn, &timer));
    assert!(!enemy_regen_health(&mut hp, &Aggro(None), Some(pos(64, 0)), &spawn, &timer));
    assert!(!enemy_regen_health(&mut hp, &Aggro(None), None, &spawn, &timer));
    assert_eq!(hp.current, 50);
    assert!(enemy_regen_health(&mut hp, &Aggro(None), Some(pos(10, 0)), &spawn, &timer));
    assert_eq!(hp.current, 60);
    timer.tick(Duration::from_micros(600_000));
    assert!(!enemy_regen_health(&mut hp, &Aggro(None), Some(pos(10, 0)), &spawn, &timer));
    assert_eq!(hp.current, 60);
    let mut full = Health { current: 100, max: 100, dead: false };
    let done = finished_timer(1);
    assert!(!enemy_regen_health(&mut full, &Aggro(None), Some(pos(10, 0)), &spawn, &done));
    assert_eq!(full.current, 100);
}

#[test]
fn constants_of_combat() {
    assert_eq!(SWORD_DAMAGE, 40);
    assert_eq!(DAMAGE_DEALT_UP, 10);
    assert_eq!(REGEN_STEP, 10);
    assert_eq!(SPECIAL_ATTACK_RADIUS, 96);
    assert_eq!(SPECIAL_MAX_HP, 150);
}

#[test]
fn sword_takes_health_and_names_the_attacker() {
    let mut hp = Health { current: 100, max: 100, dead: false };
    let mut last = LastAttacker(None);
    sword_hit(&mut hp, &mut last, 2, 0);
    assert_eq!(hp.current, 60);
    assert_eq!(last.0, Some(2));
    sword_hit(&mut hp, &mut last, 3, 1);
    assert_eq!(hp.current, 10);
    assert_eq!(last.0, Some(3));
    sword_hit(&mut hp, &mut last, 1, 0);
    assert_eq!(hp.current, 0);
    assert_eq!(last.0, Some(1));
    assert!(!hp.dead);
    assert_eq!(hp.max, 100);
}

#[test]
fn sword_damage_stops_at_the_most_a_health_can_hold() {
    let mut hp = Health { current: 255, max: 255, dead: false };
    let mut last = LastAttacker(None);
    sword_hit(&mut hp, &mut last, 0, 21);
    assert_eq!(hp.current, 5);
    let mut full = Health { current: 255, max: 255, dead: false };
    sword_hit(&mut full, &mut last, 0, 22);
    assert_eq!(full.current, 0);
    let mut most = Health { current: 255, max: 255, dead: false };
    sword_hit(&mut most, &mut last, 0, 255);
    assert_eq!(most.current, 0);
}

#[test]
fn players_are_sampled_at_the_previous_tick() {
    let mut players = vec![
        NetEntity::new(0, 8, 4, pos(1, 1), 0, 100),
        NetEntity::new(1, 8, 5, pos(2, 2), 0, 100),
    ];
    players[0].pos.set(5, pos(9, 9));
    let samples = sample_players(&players, &vec![false, true], 5);
    assert_eq!(samples.len(), 2);
    assert_eq!(samples[0].id, 0);
    assert!(!samples[0].dead);
    assert_eq!(samples[0].pos, Some(pos(1, 1)));
    assert_eq!(samples[1].id, 1);
    assert!(samples[1].dead);
    assert_eq!(samples[1].pos, None);
    let wrapped = sample_players(&vec![NetEntity::new(3, 8, 65535, pos(4, 4), 0, 1)], &vec![false], 0);
    assert_eq!(wrapped[0].pos, Some(pos(4, 4)));
}

#[test]
fn aggro_step_raises_the_flag_when_a_target_is_taken() {
    let mut enemy = NetEntity::new(7, 8, 4, pos(0, 0), 0, 100);
    enemy.events.set(5, ATTACK_BITFLAG);
    let mut players = vec![NetEntity::new(3, 8, 4, pos(150, 0), 0, 100)];
    players[0].pos.set(5, pos(1000, 0));
    let mut aggro = Aggro(None);
    let mut timer = finished_timer(4);
    assert!(aggro_step(5, &mut enemy, &mut aggro, &mut timer, &players, &vec![false]));
    assert_eq!(aggro.0, Some(3));
    assert_eq!(enemy.events.get(5), Some(ATTACK_BITFLAG | AGGRO_BITFLAG));
    assert_eq!(enemy.events.get(4), Some(0));
    assert!(!timer.finished());
    assert!(!aggro_step(5, &mut enemy, &mut aggro, &mut timer, &players, &vec![false]));
    assert_eq!(aggro.0, Some(3));
    assert_eq!(enemy.events.get(5), Some(ATTACK_BITFLAG | AGGRO_BITFLAG));
}

#[test]
fn aggro_step_without_a_target_raises_nothing() {
    let mut enemy = NetEntity::new(7, 8, 4, pos(0, 0), 0, 100);
    let players = vec![NetEntity::new(3, 8, 4, pos(150, 0), 0, 100)];
    let mut aggro = Aggro(None);
    let mut timer = finished_timer(4);
    assert!(!aggro_step(5, &mut enemy, &mut aggro, &mut timer, &players, &vec![true]));
    assert_eq!(aggro.0, None);
    assert_eq!(enemy.events.get(5), None);
    assert!(timer.finished());
    assert!(!aggro_step(6, &mut enemy, &mut aggro, &mut timer, &players, &vec![false]));
    assert_eq!(aggro.0, None);
    let mut unseen = Aggro(Some(3));
    assert!(!aggro_step(9, &mut enemy, &mut unseen, &mut timer, &players, &vec![false]));
    assert_eq!(unseen.0, None);
}

#[test]
fn move_step_heads_for_where_the_target_was() {
    let map = open_map();
    let mut enemy = NetEntity::new(7, 8, 4, pos(0, 0), 0, 100);
    let mut players = vec![NetEntity::new(3, 8, 4, pos(0, 100), 0, 100)];
    players[0].pos.set(5, pos(0, -200));
    move_step(5, &mut enemy, &Aggro(Some(3)), &SpawnPosition(pos(0, 0)), &players, &vec![false], &map);
    assert_eq!(enemy.pos.get(5), Some(pos(0, 15)));
    assert_eq!(enemy.hp.get(4), Some(100));
    move_step(6, &mut enemy, &Aggro(Some(3)), &SpawnPosition(pos(0, 0)), &players, &vec![false], &map);
    assert_eq!(enemy.pos.get(6), Some(pos(0, 0)));
    move_step(8, &mut enemy, &Aggro(Some(3)), &SpawnPosition(pos(0, 0)), &players, &vec![false], &map);
    assert_eq!(enemy.pos.get(8), None);
}

fn stats(score: u8, enemies_killed: u8, camps_captured: u8) -> Stats {
    Stats { score, enemies_killed, camps_captured }
}

#[test]
fn kill_is_booked_for_the_killer_and_the_camp() {
    assert_eq!(KILL_SCORE, 1);
    assert_eq!(CAMP_SCORE, 5);
    let mut players = vec![
        PlayerStats { id: 0, stats: stats(3, 1, 0) },
        PlayerStats { id: 1, stats: stats(7, 2, 1) },
    ];
    let mut camps = vec![
        CampState { id: 0, current_enemies: 2, status: true },
        CampState { id: 1, current_enemies: 3, status: true },
    ];
    settle_kill(1, 0, &mut players, &mut camps);
    assert_eq!(camps[0], CampState { id: 0, current_enemies: 1, status: true });
    assert_eq!(camps[1], CampState { id: 1, current_enemies: 3, status: true });
    assert_eq!(players[0], PlayerStats { id: 0, stats: stats(3, 1, 0) });
    assert_eq!(players[1], PlayerStats { id: 1, stats: stats(8, 3, 1) });
}

#[test]
fn last_kill_of_a_camp_captures_it() {
    let mut players = vec![PlayerStats { id: 4, stats: stats(0, 0, 0) }];
    let mut camps = vec![
        CampState { id: 0, current_enemies: 1, status: true },
        CampState { id: 1, current_enemies: 0, status: false },
        CampState { id: 2, current_enemies: 5, status: true },
    ];
    settle_kill(4, 0, &mut players, &mut camps);
    assert_eq!(camps[0].current_enemies, 0);
    assert_eq!(players[0].stats, stats(6, 1, 1));
    settle_kill(4, 0, &mut players, &mut camps);
    assert_eq!(camps[0].current_enemies, 0);
    assert_eq!(players[0].stats, stats(12, 2, 2));
    settle_kill(9, 2, &mut players, &mut camps);
    assert_eq!(camps[2].current_enemies, 4);
    assert_eq!(players[0].stats, stats(12, 2, 2));
}

#[test]
fn counts_stop_at_the_most_they_can_hold() {
    let mut players = vec![PlayerStats { id: 4, stats: stats(250, 255, 254) }];
    let mut camps = vec![
        CampState { id: 0, current_enemies: 0, status: true },
        CampState { id: 1, current_enemies: 0, status: true },
    ];
    settle_kill(4, 7, &mut players, &mut camps);
    assert_eq!(players[0].stats, stats(255, 255, 255));
    let mut few = vec![PlayerStats { id: 4, stats: stats(243, 0, 0) }];
    settle_kill(4, 7, &mut few, &mut camps);
    assert_eq!(few[0].stats, stats(254, 1, 2));
}
