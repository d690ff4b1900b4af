use netsim::entity::NetEntity;
use netsim::net::{increment_tick, is_client, is_host, Ack, IsHost};
use netsim::tick::{is_newer, ticks_ahead, TickNum, DELAY, TICKRATE};
use netsim::world::Pos;

#[test]
fn clock_starts_at_zero_and_steps_by_one() {
    let mut t = TickNum::new();
    assert_eq!(t.0, 0);
    t.advance();
    assert_eq!(t.0, 1);
    t.advance();
    assert_eq!(t.0, 2);
    t.reset();
    assert_eq!(t.0, 0);
}

#[test]
fn clock_wraps_after_last_tick() {
    let mut t = TickNum(65535);
    t.advance();
    assert_eq!(t.0, 0);
}

#[test]
fn previous_and_settled_ticks() {
    assert_eq!(TickNum(10).previous(), 9);
    assert_eq!(TickNum(0).previous(), 65535);
    assert_eq!(DELAY, 2);
    assert_eq!(TICKRATE, 10);
    assert_eq!(TickNum(10).settled(), 8);
    assert_eq!(TickNum(1).settled(), 65535);
    assert_eq!(TickNum(0).settled(), 65534);
}

#[test]
fn newer_is_wrap_aware() {
    assert!(is_newer(5, 4));
    assert!(!is_newer(4, 5));
    assert!(!is_newer(4, 4));
    assert!(is_newer(0, 65535));
    assert!(!is_newer(65535, 0));
    assert!(is_newer(3, 65530));
    assert!(is_newer(32767, 0));
    assert!(!is_newer(32768, 0));
    assert_eq!(ticks_ahead(3, 65530), 9);
    assert_eq!(ticks_ahead(65530, 3), 65527);
    assert_eq!(ticks_ahead(7, 7), 0);
}

#[test]
fn roles_exclude_each_other() {
    assert!(is_host(&IsHost(true)));
    assert!(!is_client(&IsHost(true)));
    assert!(!is_host(&IsHost(false)));
    assert!(is_client(&IsHost(false)));
}

#[test]
fn advance_carries_position_direction_and_health_forward() {
    let mut tick = TickNum(7);
    let mut entities = vec![
        NetEntity::new(1, 8, 7, Pos { x: 3, y: 4 }, 1570, 90),
        NetEntity::new(2, 8, 7, Pos { x: -3, y: -4 }, 0, 100),
    ];
    increment_tick(&mut tick, &mut entities);
    assert_eq!(tick.0, 8);
    assert_eq!(entities[0].pos.get(8), Some(Pos { x: 3, y: 4 }));
    assert_eq!(entities[0].dir.get(8), Some(1570));
    assert_eq!(entities[0].hp.get(8), Some(90));
    assert_eq!(entities[1].pos.get(8), Some(Pos { x: -3, y: -4 }));
    assert_eq!(entities[1].hp.get(8), Some(100));
    assert_eq!(entities[0].pos.get(7), Some(Pos { x: 3, y: 4 }));
    assert_eq!(entities[0].id, 1);
    assert_eq!(entities[1].id, 2);
}

#[test]
fn advance_keeps_every_tick_defined_over_many_steps() {
    let mut tick = TickNum(65530);
    let mut entities = vec![NetEntity::new(1, 4, 65530, Pos { x: 3, y: 4 }, 7, 90)];
    for _ in 0..20 {
        increment_tick(&mut tick, &mut entities);
        assert_eq!(entities[0].pos.get(tick.0), Some(Pos { x: 3, y: 4 }));
        assert_eq!(entities[0].dir.get(tick.0), Some(7));
        assert_eq!(entities[0].hp.get(tick.0), Some(90));
    }
    assert_eq!(tick.0, 14);
}

#[test]
fn advance_resets_event_flags() {
    let mut tick = TickNum(7);
    let mut entities = vec![NetEntity::new(1, 8, 7, Pos { x: 0, y: 0 }, 0, 90)];
    entities[0].raise(7, 3);
    entities[0].events.set(8, 1);
    increment_tick(&mut tick, &mut entities);
    assert_eq!(entities[0].events.get(8), Some(0));
    assert_eq!(entities[0].events.get(7), Some(3));
}

#[test]
fn advance_with_nothing_known_leaves_nothing() {
    let mut tick = TickNum(20);
    let mut entities = vec![NetEntity::new(1, 8, 7, Pos { x: 0, y: 0 }, 0, 90)];
    increment_tick(&mut tick, &mut entities);
    assert_eq!(entities[0].pos.get(21), None);
    assert_eq!(entities[0].hp.get(21), None);
    assert_eq!(entities[0].events.get(21), Some(0));
}

#[test]
fn ack_starts_empty() {
    let a = Ack::new();
    assert_eq!(a.rmt_num, 0);
    assert_eq!(a.bitfield, 0);
    assert!(a.is_acked(0));
    assert!(!a.is_acked(65535));
    assert!(!a.is_acked(1));
}

#[test]
fn ack_newer_tick_moves_bits_up() {
    let mut a = Ack::new();
    a.record(1);
    assert_eq!(a.rmt_num, 1);
    assert_eq!(a.bitfield, 1);
    a.record(3);
    assert_eq!(a.rmt_num, 3);
    assert_eq!(a.bitfield, 6);
    assert!(a.is_acked(3));
    assert!(!a.is_acked(2));
    assert!(a.is_acked(1));
    assert!(a.is_acked(0));
}

#[test]
fn ack_older_tick_sets_its_bit() {
    let mut a = Ack { rmt_num: 3, bitfield: 6 };
    a.record(2);
    assert_eq!(a.rmt_num, 3);
    assert_eq!(a.bitfield, 7);
    assert!(a.is_acked(2));
}

#[test]
fn ack_duplicate_changes_nothing() {
    let mut a = Ack { rmt_num: 3, bitfield: 6 };
    a.record(3);
    assert_eq!(a.rmt_num, 3);
    assert_eq!(a.bitfield, 6);
    a.record(1);
    assert_eq!(a.bitfield, 6);
}

#[test]
fn ack_jump_beyond_window_forgets_everything() {
    let mut a = Ack { rmt_num: 3, bitfield: 7 };
    a.record(40);
    assert_eq!(a.rmt_num, 40);
    assert_eq!(a.bitfield, 0);
    assert!(!a.is_acked(3));
    assert!(a.is_acked(40));
}

#[test]
fn ack_jump_by_window_keeps_only_former_newest() {
    let mut a = Ack { rmt_num: 0, bitfield: 0xffff_ffff };
    a.record(32);
    assert_eq!(a.rmt_num, 32);
    assert_eq!(a.bitfield, 0x8000_0000);
    assert!(a.is_acked(0));
    assert!(!a.is_acked(1));
}

#[test]
fn ack_jump_by_one_less_than_window() {
    let mut a = Ack { rmt_num: 0, bitfield: 1 };
    a.record(31);
    assert_eq!(a.bitfield, 0xc000_0000);
    assert!(a.is_acked(0));
    assert!(a.is_acked(65535));
}

#[test]
fn ack_too_old_tick_is_ignored() {
    let mut a = Ack { rmt_num: 40, bitfield: 0 };
    a.record(7);
    assert_eq!(a.rmt_num, 40);
    assert_eq!(a.bitfield, 0);
    a.record(8);
    assert_eq!(a.bitfield, 0x8000_0000);
    assert!(a.is_acked(8));
    assert!(!a.is_acked(7));
}

#[test]
fn ack_across_the_wrap() {
    let mut a = Ack { rmt_num: 65535, bitfield: 0 };
    a.record(0);
    assert_eq!(a.rmt_num, 0);
    assert_eq!(a.bitfield, 1);
    a.record(65534);
    assert_eq!(a.rmt_num, 0);
    assert_eq!(a.bitfield, 3);
    assert!(a.is_acked(65535));
    assert!(a.is_acked(65534));
    assert!(!a.is_acked(65533));
}

#[test]
fn lost_ticks_are_those_covered_and_not_arrived() {
    let a = Ack { rmt_num: 3, bitfield: 0xffff_fffa };
    assert_eq!(a.lost(), vec![2, 0]);
    let all = Ack { rmt_num: 100, bitfield: u32::MAX };
    assert!(all.lost().is_empty());
    let none = Ack { rmt_num: 2, bitfield: 0 };
    let lost = none.lost();
    assert_eq!(lost.len(), 32);
    assert_eq!(lost[0], 1);
    assert_eq!(lost[1], 0);
    assert_eq!(lost[2], 65535);
    assert_eq!(lost[31], 65506);
}
