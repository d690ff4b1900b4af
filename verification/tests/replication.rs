use netsim::combat::create_players;
use netsim::entity::{apply_to, NetEntity, Snapshot, Update};
use netsim::net::{Ack, MAGIC_NUMBER, MAX_DATAGRAM_SIZE};
use netsim::packets::{decode, encode, handle_packet, EnemyTick, EnemyTickEvent, Packet};
use netsim::player::{
    handle_packet_client, handle_packet_host, update_buffer, PlayerTick, PlayerTickEvent, UserCmd,
    UserCmdEvent, MAX_PLAYERS, PLAYER_DEFAULT_HP,
};
use netsim::session::Session;
use netsim::world::Pos;

fn pos(x: i32, y: i32) -> Pos {
    Pos { x, y }
}

fn player_tick(seq_num: u16, id: u8, x: i32, y: i32, hp: u8) -> PlayerTickEvent {
    PlayerTickEvent { seq_num, id, tick: PlayerTick { pos: pos(x, y), hp } }
}

fn enemy_tick(seq_num: u16, id: u8, x: i32, y: i32, hp: u8, events: u8) -> EnemyTickEvent {
    EnemyTickEvent { seq_num, tick: EnemyTick { id, pos: pos(x, y), hp, events } }
}

fn user_cmd(seq_num: u16, id: u8, x: i32, y: i32, dir: i32) -> UserCmdEvent {
    UserCmdEvent { seq_num, id, tick: UserCmd { pos: pos(x, y), dir } }
}

#[test]
fn protocol_constants() {
    assert_eq!(MAGIC_NUMBER, 24835);
    assert_eq!(MAX_DATAGRAM_SIZE, 1024);
    assert_eq!(MAX_PLAYERS, 4);
    assert_eq!(PLAYER_DEFAULT_HP, 100);
}

#[test]
fn snapshot_written_is_snapshot_read() {
    let mut e = NetEntity::new(1, 8, 0, pos(0, 0), 0, 100);
    let snap = Snapshot { pos: pos(-12, 34), hp: 56, events: 3 };
    e.write_snapshot(77, snap);
    assert_eq!(e.snapshot(77), Some(snap));
    assert_eq!(e.snapshot(76), None);
    assert_eq!(e.snapshot(78), None);
}

#[test]
fn snapshot_is_gone_once_the_history_has_wrapped() {
    let mut e = NetEntity::new(1, 8, 0, pos(0, 0), 0, 100);
    let snap = Snapshot { pos: pos(-12, 34), hp: 56, events: 3 };
    e.write_snapshot(77, snap);
    e.write_snapshot(85, Snapshot { pos: pos(1, 1), hp: 1, events: 0 });
    assert_eq!(e.snapshot(77), None);
}

#[test]
fn snapshot_needs_position_and_health() {
    let mut e = NetEntity::new(1, 8, 0, pos(0, 0), 0, 100);
    e.pos.set(3, pos(1, 2));
    assert_eq!(e.snapshot(3), None);
    e.hp.set(3, 50);
    assert_eq!(e.snapshot(3), Some(Snapshot { pos: pos(1, 2), hp: 50, events: 0 }));
    e.raise(3, 2);
    e.raise(3, 1);
    assert_eq!(e.snapshot(3), Some(Snapshot { pos: pos(1, 2), hp: 50, events: 3 }));
}

#[test]
fn update_writes_only_the_fields_that_are_there() {
    let mut e = NetEntity::new(1, 8, 4, pos(9, 9), 5, 100);
    e.apply(4, &Update { pos: None, dir: Some(6), hp: None, events: Some(2) });
    assert_eq!(e.pos.get(4), Some(pos(9, 9)));
    assert_eq!(e.dir.get(4), Some(6));
    assert_eq!(e.hp.get(4), Some(100));
    assert_eq!(e.events.get(4), Some(2));
    e.apply(5, &Update { pos: Some(pos(1, 1)), dir: None, hp: Some(7), events: None });
    assert_eq!(e.pos.get(5), Some(pos(1, 1)));
    assert_eq!(e.dir.get(5), None);
    assert_eq!(e.hp.get(5), Some(7));
    assert_eq!(e.events.get(5), None);
}

#[test]
fn update_goes_to_the_entity_with_the_id() {
    let mut entities = create_players(8, 0);
    apply_to(&mut entities, 2, 1, &Update { pos: Some(pos(5, 5)), dir: None, hp: None, events: None });
    for e in entities.iter() {
        let expected = if e.id == 2 { Some(pos(5, 5)) } else { None };
        assert_eq!(e.pos.get(1), expected);
    }
    apply_to(&mut entities, 9, 1, &Update { pos: Some(pos(6, 6)), dir: None, hp: None, events: None });
    assert_eq!(entities[2].pos.get(1), Some(pos(5, 5)));
}

#[test]
fn client_prediction_is_written_for_the_tick() {
    let mut players = create_players(8, 0);
    update_buffer(5, &mut players[1].pos, pos(10, 10));
    assert_eq!(players[1].pos.get(5), Some(pos(10, 10)));
    assert_eq!(players[0].pos.get(5), None);
}

#[test]
fn client_takes_a_snapshot_of_a_player() {
    let mut players = create_players(8, 0);
    handle_packet_client(&mut players, &player_tick(3, 2, -40, 50, 60));
    assert_eq!(players[2].pos.get(3), Some(pos(-40, 50)));
    assert_eq!(players[2].hp.get(3), Some(60));
    assert_eq!(players[2].dir.get(3), None);
    assert_eq!(players[1].pos.get(3), None);
    assert_eq!(players[2].pos.get(0), Some(pos(200, 200)));
}

#[test]
fn snapshot_overwrites_a_prediction_for_the_same_player() {
    let mut players = create_players(8, 0);
    update_buffer(5, &mut players[1].pos, pos(10, 10));
    handle_packet_client(&mut players, &player_tick(5, 1, 12, 9, 100));
    assert_eq!(players[1].pos.get(5), Some(pos(12, 9)));
}

#[test]
fn late_and_duplicate_snapshots_are_absorbed() {
    let mut a = create_players(8, 0);
    let mut b = create_players(8, 0);
    handle_packet_client(&mut a, &player_tick(3, 2, 1, 1, 60));
    handle_packet_client(&mut a, &player_tick(4, 2, 2, 2, 50));
    handle_packet_client(&mut b, &player_tick(4, 2, 2, 2, 50));
    handle_packet_client(&mut b, &player_tick(3, 2, 1, 1, 60));
    handle_packet_client(&mut b, &player_tick(4, 2, 2, 2, 50));
    for t in 0..8u16 {
        assert_eq!(a[2].snapshot(t), b[2].snapshot(t));
    }
}

#[test]
fn host_takes_a_command() {
    let mut players = create_players(8, 0);
    handle_packet_host(&mut players, &user_cmd(6, 1, 33, -44, 785));
    assert_eq!(players[1].pos.get(6), Some(pos(33, -44)));
    assert_eq!(players[1].dir.get(6), Some(785));
    assert_eq!(players[1].hp.get(6), None);
    assert_eq!(players[0].pos.get(6), None);
}

#[test]
fn client_takes_a_snapshot_of_an_enemy() {
    let mut enemies = vec![
        NetEntity::new(0, 8, 0, pos(0, 0), 0, 100),
        NetEntity::new(1, 8, 0, pos(0, 0), 0, 100),
    ];
    handle_packet(&mut enemies, &enemy_tick(2, 1, 7, 8, 90, 3));
    assert_eq!(enemies[1].snapshot(2), Some(Snapshot { pos: pos(7, 8), hp: 90, events: 3 }));
    assert_eq!(enemies[0].snapshot(2), None);
}

#[test]
fn datagram_of_a_player_snapshot() {
    let p = Packet::PlayerTick(player_tick(5, 1, 10, -1, 100));
    let bytes = encode(&p);
    assert_eq!(bytes, vec![3, 97, 1, 5, 0, 1, 10, 0, 0, 0, 255, 255, 255, 255, 100]);
    assert_eq!(decode(&bytes), Some(p));
}

#[test]
fn datagram_of_an_enemy_snapshot() {
    let p = Packet::EnemyTick(enemy_tick(0x1234, 9, 0x01020304, -2, 77, 3));
    let bytes = encode(&p);
    assert_eq!(bytes, vec![3, 97, 2, 0x34, 0x12, 9, 4, 3, 2, 1, 254, 255, 255, 255, 77, 3]);
    assert_eq!(decode(&bytes), Some(p));
}

#[test]
fn datagram_of_a_command() {
    let p = Packet::UserCmd(user_cmd(65535, 2, i32::MIN, i32::MAX, -3142));
    let bytes = encode(&p);
    assert_eq!(
        bytes,
        vec![3, 97, 3, 255, 255, 2, 0, 0, 0, 128, 255, 255, 255, 127, 186, 243, 255, 255]
    );
    assert_eq!(decode(&bytes), Some(p));
}

#[test]
fn datagram_of_an_acknowledgment() {
    let p = Packet::Ack { rmt_num: 258, bitfield: 0x8000_0001 };
    let bytes = encode(&p);
    assert_eq!(bytes, vec![3, 97, 4, 2, 1, 1, 0, 0, 128]);
    assert_eq!(decode(&bytes), Some(p));
    assert!(bytes.len() <= MAX_DATAGRAM_SIZE);
}

#[test]
fn malformed_datagrams_are_rejected() {
    assert_eq!(decode(&Vec::new()), None);
    assert_eq!(decode(&vec![3]), None);
    assert_eq!(decode(&vec![3, 97]), None);
    assert_eq!(decode(&vec![3, 97, 4]), None);
    assert_eq!(decode(&vec![3, 97, 4, 2, 1, 1, 0, 0]), None);
    assert_eq!(decode(&vec![3, 97, 4, 2, 1, 1, 0, 0, 128, 0]), None);
    assert_eq!(decode(&vec![4, 97, 4, 2, 1, 1, 0, 0, 128]), None);
    assert_eq!(decode(&vec![3, 98, 4, 2, 1, 1, 0, 0, 128]), None);
    assert_eq!(decode(&vec![3, 97, 0, 2, 1, 1, 0, 0, 128]), None);
    assert_eq!(decode(&vec![3, 97, 5, 2, 1, 1, 0, 0, 128]), None);
    assert_eq!(decode(&vec![3, 97, 1, 2, 1, 1, 0, 0, 128]), None);
    assert_eq!(decode(&vec![3, 97, 1, 5, 0, 1, 10, 0, 0, 0, 255, 255, 255, 255]), None);
    assert_eq!(decode(&vec![3, 97, 2, 5, 0, 1, 10, 0, 0, 0, 255, 255, 255, 255, 100]), None);
    assert_eq!(decode(&vec![0; 1024]), None);
}

#[test]
fn every_kind_survives_the_wire() {
    let packets = vec![
        Packet::PlayerTick(player_tick(0, 0, 0, 0, 0)),
        Packet::PlayerTick(player_tick(65535, 255, i32::MAX, i32::MIN, 255)),
        Packet::EnemyTick(enemy_tick(300, 7, -1, 1, 150, 2)),
        Packet::UserCmd(user_cmd(1, 3, -256, 255, 6283)),
        Packet::Ack { rmt_num: 0, bitfield: 0 },
        Packet::Ack { rmt_num: 65535, bitfield: u32::MAX },
    ];
    for p in packets.iter() {
        assert_eq!(decode(&encode(p)), Some(*p));
    }
}

fn client_at_tick(tick: u16) -> Session {
    let mut s = Session::new(false, 1);
    assert_eq!(s.connect(), 0);
    s.players = create_players(16, 0);
    s.enemies = vec![NetEntity::new(0, 16, 0, pos(0, 0), 0, 100)];
    for _ in 0..tick {
        s.advance();
    }
    s
}

#[test]
fn session_starts_empty() {
    let s = Session::new(true, 0);
    assert!(s.role.0);
    assert_eq!(s.tick.0, 0);
    assert_eq!(s.local, 0);
    assert!(s.links.is_empty());
    assert!(s.players.is_empty());
    assert!(s.enemies.is_empty());
}

#[test]
fn prediction_survives_a_snapshot_of_another_player() {
    let mut s = client_at_tick(5);
    update_buffer(5, &mut s.players[1].pos, pos(10, 10));
    let sent = s.outbound(0);
    assert_eq!(sent[0], Packet::UserCmd(user_cmd(5, 1, 10, 10, 0)));
    for _ in 0..3 {
        s.advance();
    }
    assert_eq!(s.tick.0, 8);
    let taken = s.receive(0, &encode(&Packet::PlayerTick(player_tick(5, 0, 77, 88, 90))));
    assert!(taken);
    assert_eq!(s.players[1].pos.get(5), Some(pos(10, 10)));
    assert_eq!(s.players[0].pos.get(5), Some(pos(77, 88)));
    assert_eq!(s.players[0].hp.get(5), Some(90));
    let enemy = s.receive(0, &encode(&Packet::EnemyTick(enemy_tick(5, 0, 1, 2, 80, 1))));
    assert!(enemy);
    assert_eq!(s.players[1].pos.get(5), Some(pos(10, 10)));
    assert_eq!(s.enemies[0].snapshot(5), Some(Snapshot { pos: pos(1, 2), hp: 80, events: 1 }));
}

#[test]
fn session_notes_what_has_arrived() {
    let mut s = client_at_tick(3);
    assert!(s.receive(0, &encode(&Packet::PlayerTick(player_tick(1, 0, 0, 0, 100)))));
    assert!(s.receive(0, &encode(&Packet::PlayerTick(player_tick(3, 0, 0, 0, 100)))));
    assert_eq!(s.links[0].ack.rmt_num, 3);
    assert!(s.links[0].ack.is_acked(1));
    assert!(!s.links[0].ack.is_acked(2));
    assert!(s.links[0].ack.is_acked(3));
    let out = s.outbound(0);
    assert_eq!(out[out.len() - 1], Packet::Ack { rmt_num: 3, bitfield: s.links[0].ack.bitfield });
}

#[test]
fn session_drops_what_is_not_for_its_role() {
    let mut client = client_at_tick(3);
    assert!(!client.receive(0, &encode(&Packet::UserCmd(user_cmd(2, 1, 5, 5, 0)))));
    assert_eq!(client.players[1].pos.get(2), Some(pos(100, 100)));
    assert_eq!(client.links[0].ack.rmt_num, 0);
    let mut host = Session::new(true, 0);
    host.connect();
    host.players = create_players(16, 0);
    assert!(!host.receive(0, &encode(&Packet::PlayerTick(player_tick(0, 1, 5, 5, 1)))));
    assert!(!host.receive(0, &encode(&Packet::EnemyTick(enemy_tick(0, 1, 5, 5, 1, 0)))));
    assert_eq!(host.players[1].pos.get(0), Some(pos(100, 100)));
    assert!(host.receive(0, &encode(&Packet::UserCmd(user_cmd(0, 1, 5, 5, 9)))));
    assert_eq!(host.players[1].pos.get(0), Some(pos(5, 5)));
    assert_eq!(host.players[1].dir.get(0), Some(9));
}

#[test]
fn session_drops_malformed_datagrams() {
    let mut s = client_at_tick(3);
    assert!(!s.receive(0, &Vec::new()));
    assert!(!s.receive(0, &vec![1, 2, 3, 4, 5, 6, 7, 8, 9]));
    assert!(!s.receive(0, &vec![3, 97, 1, 5, 0, 1, 10, 0, 0, 0, 255, 255, 255, 255]));
    assert_eq!(s.links[0].ack.rmt_num, 0);
    assert_eq!(s.links[0].ack.bitfield, 0);
    assert_eq!(s.tick.0, 3);
    assert_eq!(s.players[1].pos.get(3), Some(pos(100, 100)));
}

#[test]
fn session_keeps_the_newest_acknowledgment() {
    let mut s = client_at_tick(3);
    assert!(s.receive(0, &encode(&Packet::Ack { rmt_num: 9, bitfield: 5 })));
    assert_eq!(s.links[0].peer.rmt_num, 9);
    assert_eq!(s.links[0].peer.bitfield, 5);
    assert!(s.receive(0, &encode(&Packet::Ack { rmt_num: 7, bitfield: 1 })));
    assert_eq!(s.links[0].peer.rmt_num, 9);
    assert_eq!(s.links[0].peer.bitfield, 5);
    assert!(s.receive(0, &encode(&Packet::Ack { rmt_num: 9, bitfield: 7 })));
    assert_eq!(s.links[0].peer.bitfield, 7);
    assert!(s.receive(0, &encode(&Packet::Ack { rmt_num: 10, bitfield: 15 })));
    assert_eq!(s.links[0].peer.rmt_num, 10);
    assert_eq!(s.links[0].ack.rmt_num, 0);
}

#[test]
fn host_sends_snapshots_of_all_entities() {
    let mut host = Session::new(true, 0);
    host.connect();
    host.players = create_players(16, 0);
    host.enemies = vec![
        NetEntity::new(0, 16, 0, pos(7, 7), 0, 100),
        NetEntity::new(1, 16, 5, pos(8, 8), 0, 150),
    ];
    host.advance();
    host.enemies[0].raise(1, 1);
    let out = host.outbound(0);
    assert_eq!(
        out,
        vec![
            Packet::PlayerTick(player_tick(1, 0, 0, 0, 100)),
            Packet::PlayerTick(player_tick(1, 1, 100, 100, 100)),
            Packet::PlayerTick(player_tick(1, 2, 200, 200, 100)),
            Packet::PlayerTick(player_tick(1, 3, 300, 300, 100)),
            Packet::EnemyTick(enemy_tick(1, 0, 7, 7, 100, 1)),
            Packet::Ack { rmt_num: 0, bitfield: 0 },
        ]
    );
}

#[test]
fn client_sends_its_command() {
    let mut s = client_at_tick(2);
    s.players[1].pos.set(2, pos(-5, 6));
    s.players[1].dir.set(2, 1571);
    assert_eq!(
        s.outbound(0),
        vec![Packet::UserCmd(user_cmd(2, 1, -5, 6, 1571)), Packet::Ack { rmt_num: 0, bitfield: 0 }]
    );
    let mut other = Session::new(false, 9);
    other.players = create_players(16, 0);
    assert_eq!(other.outbound(0), Vec::new());
    other.connect();
    assert_eq!(other.outbound(0), vec![Packet::Ack { rmt_num: 0, bitfield: 0 }]);
}

#[test]
fn session_advance_carries_every_entity_forward() {
    let mut s = client_at_tick(0);
    s.enemies[0].raise(0, 3);
    s.advance();
    assert_eq!(s.tick.0, 1);
    for i in 0..4 {
        let at = (i as i32) * 100;
        assert_eq!(s.players[i].snapshot(1), Some(Snapshot { pos: pos(at, at), hp: 100, events: 0 }));
    }
    assert_eq!(s.enemies[0].snapshot(1), Some(Snapshot { pos: pos(0, 0), hp: 100, events: 0 }));
    assert_eq!(s.enemies[0].events.get(0), Some(3));
}

#[test]
fn ack_can_be_copied() {
    let a = Ack { rmt_num: 4, bitfield: 9 };
    let b = a;
    assert_eq!(a.rmt_num, b.rmt_num);
    assert_eq!(a.bitfield, b.bitfield);
}

#[test]
fn each_connection_keeps_its_own_record() {
    let mut host = Session::new(true, 0);
    host.players = create_players(16, 0);
    assert_eq!(host.connect(), 0);
    assert_eq!(host.connect(), 1);
    assert!(host.receive(0, &encode(&Packet::UserCmd(user_cmd(7, 1, 5, 5, 0)))));
    assert!(host.receive(1, &encode(&Packet::UserCmd(user_cmd(3, 2, 6, 6, 0)))));
    assert!(host.receive(1, &encode(&Packet::Ack { rmt_num: 2, bitfield: 1 })));
    assert_eq!(host.links[0].ack.rmt_num, 7);
    assert!(!host.links[0].ack.is_acked(3));
    assert_eq!(host.links[1].ack.rmt_num, 3);
    assert!(!host.links[1].ack.is_acked(7));
    assert_eq!(host.links[0].peer.rmt_num, 0);
    assert_eq!(host.links[1].peer.rmt_num, 2);
    assert_eq!(host.players[1].pos.get(7), Some(pos(5, 5)));
    assert_eq!(host.players[2].pos.get(3), Some(pos(6, 6)));
    let to_first = host.outbound(0);
    let to_second = host.outbound(1);
    assert_eq!(to_first.len(), to_second.len());
    assert_eq!(to_first[to_first.len() - 1], Packet::Ack { rmt_num: 7, bitfield: host.links[0].ack.bitfield });
    assert_eq!(to_second[to_second.len() - 1], Packet::Ack { rmt_num: 3, bitfield: host.links[1].ack.bitfield });
}

#[test]
fn datagram_over_no_connection_is_dropped() {
    let mut host = Session::new(true, 0);
    host.players = create_players(16, 0);
    assert!(!host.receive(0, &encode(&Packet::UserCmd(user_cmd(7, 1, 5, 5, 0)))));
    assert_eq!(host.players[1].pos.get(7), None);
    host.connect();
    assert!(!host.receive(1, &encode(&Packet::UserCmd(user_cmd(7, 1, 5, 5, 0)))));
    assert_eq!(host.players[1].pos.get(7), None);
    assert_eq!(host.links[0].ack.rmt_num, 0);
    assert_eq!(host.outbound(1).len(), 4);
    assert_eq!(host.outbound(0).len(), 5);
}
