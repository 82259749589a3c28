use flo::frame::PacketTypeId;
use flo::game::{ClientInfo, SlotSettings, SlotStatus};
use flo::lobby::{NodePings, PingStats};
use flo::node::Node;
use flo::packets;
use flo::pb::{decode_message, encode_message, get_bytes, get_varint, Field, WireValue};
use flo::session::Version;

fn settings() -> SlotSettings {
    SlotSettings { team: 1, color: 4, handicap: 90, race: 2, status: SlotStatus::Occupied, computer: 0 }
}

#[test]
fn game_id_request_round_trip_including_negative_ids() {
    for g in [0, 150, -5, i32::MAX, i32::MIN] {
        let f = packets::game_starting(g);
        assert_eq!(f.type_id, PacketTypeId::GameStarting.id());
        assert_eq!(packets::decode_game_id(&f.payload), Some(g));
    }
    assert_eq!(packets::decode_game_id(&[0x08, 0x96, 0x01]), Some(150));
    assert_eq!(packets::decode_game_id(&[]), None);
    assert_eq!(packets::decode_game_id(&[0x08]), None);
}

#[test]
fn settings_round_trip() {
    let s = settings();
    assert_eq!(packets::decode_settings(&packets::encode_settings(&s)), Some(s));
    assert_eq!(packets::decode_settings(&[]), Some(SlotSettings { team: 0, color: 0, handicap: 0, race: 0, status: SlotStatus::Open, computer: 0 }));
}

#[test]
fn slot_update_request_decodes() {
    let payload = encode_message(&vec![
        Field { number: 1, value: WireValue::Varint(7) },
        Field { number: 2, value: WireValue::Varint(3) },
        Field { number: 3, value: WireValue::Bytes(packets::encode_settings(&settings())) },
    ]);
    assert_eq!(packets::decode_slot_update_request(&payload), Some((7, 3, settings())));
    let missing = encode_message(&vec![Field { number: 1, value: WireValue::Varint(7) }]);
    assert_eq!(packets::decode_slot_update_request(&missing), None);
}

#[test]
fn select_node_frame_and_request() {
    let f = packets::game_select_node(9, Some(4));
    assert_eq!(packets::decode_select_node_request(&f.payload), Some((9, Some(4))));
    let f = packets::game_select_node(9, None);
    assert_eq!(packets::decode_select_node_request(&f.payload), Some((9, None)));
}

#[test]
fn connect_lobby_decodes_version_and_token() {
    let version = encode_message(&vec![
        Field { number: 1, value: WireValue::Varint(0) },
        Field { number: 2, value: WireValue::Varint(9) },
        Field { number: 3, value: WireValue::Varint(1) },
    ]);
    let payload = encode_message(&vec![
        Field { number: 1, value: WireValue::Bytes(version) },
        Field { number: 2, value: WireValue::Bytes(b"tok".to_vec()) },
    ]);
    assert_eq!(
        packets::decode_connect_lobby(&payload),
        Some((Version { major: 0, minor: 9, patch: 1 }, b"tok".to_vec()))
    );
    assert_eq!(packets::decode_connect_lobby(&[]), None);
}

#[test]
fn client_info_request_decodes() {
    let payload = encode_message(&vec![
        Field { number: 1, value: WireValue::Varint(5) },
        Field { number: 2, value: WireValue::Bytes(b"1.32.10".to_vec()) },
        Field { number: 3, value: WireValue::Bytes(vec![0xAB; 20]) },
    ]);
    assert_eq!(packets::decode_client_info_request(&payload), Some((5, b"1.32.10".to_vec(), vec![0xAB; 20])));
}

fn stats(v: u32) -> PingStats {
    PingStats { min: v, max: v + 1, avg: v + 2, current: v + 3, loss_rate: 4 }
}

#[test]
fn ping_map_request_round_trip() {
    let entry = |node: u64, s: &PingStats| {
        Field {
            number: 1,
            value: WireValue::Bytes(encode_message(&vec![
                Field { number: 1, value: WireValue::Varint(node) },
                Field { number: 2, value: WireValue::Bytes(packets::encode_stats(s)) },
            ])),
        }
    };
    let payload = encode_message(&vec![entry(7, &stats(10)), entry(8, &stats(20))]);
    assert_eq!(packets::decode_ping_map_update_request(&payload), Some(vec![(7, stats(10)), (8, stats(20))]));
    let bad = encode_message(&vec![Field { number: 1, value: WireValue::Varint(3) }]);
    assert_eq!(packets::decode_ping_map_update_request(&bad), None);
    assert_eq!(packets::decode_ping_map_update_request(&[]), Some(vec![]));
}

#[test]
fn token_frame_exact_payload() {
    let f = packets::game_player_token(3, 150, 2, [0x11; 16]);
    assert_eq!(f.type_id, 0x34);
    let mut want = vec![0x08, 0x03, 0x10, 0x96, 0x01, 0x18, 0x02, 0x22, 0x10];
    want.extend_from_slice(&[0x11; 16]);
    assert_eq!(f.payload, want);
}

#[test]
fn start_reject_carries_message_and_infos() {
    let infos = vec![ClientInfo { player_id: 2, war3_version: "1.32.10".to_string(), map_sha1: vec![1, 2] }];
    let f = packets::game_start_reject(5, &"Internal error.".to_string(), &infos);
    let fields = decode_message(&f.payload).unwrap();
    assert_eq!(get_varint(&fields, 1), Some(5));
    assert_eq!(get_bytes(&fields, 2), Some(b"Internal error.".to_vec()));
    let info = decode_message(&get_bytes(&fields, 3).unwrap()).unwrap();
    assert_eq!(get_bytes(&info, 2), Some(b"1.32.10".to_vec()));
}

#[test]
fn accept_list_nodes_and_snapshot_frames() {
    let nodes = vec![Node { id: 1, name: "eu".to_string(), addr: "a".to_string(), country: "DE".to_string() }];
    let v = Version { major: 1, minor: 0, patch: 0 };
    let f = packets::connect_accept(&v, 4, &"grunt".to_string(), Some(9), &nodes);
    let accept = decode_message(&f.payload).unwrap();
    assert_eq!(accept.len(), 3);
    let session = decode_message(&get_bytes(&accept, 2).unwrap()).unwrap();
    assert_eq!(get_varint(&session, 2), Some(1));
    assert_eq!(get_varint(&session, 3), Some(9));
    let player = decode_message(&get_bytes(&session, 1).unwrap()).unwrap();
    assert_eq!(get_bytes(&player, 2), Some(b"grunt".to_vec()));
    let node = decode_message(&get_bytes(&accept, 3).unwrap()).unwrap();
    assert_eq!(get_varint(&node, 1), Some(1));
    let f = packets::list_nodes(&nodes);
    let node = decode_message(&get_bytes(&decode_message(&f.payload).unwrap(), 1).unwrap()).unwrap();
    assert_eq!(get_bytes(&node, 4), Some(b"DE".to_vec()));
    let groups = vec![NodePings { node_id: 1, players: vec![(4, stats(10))] }];
    let f = packets::game_player_ping_map_snapshot(9, &groups);
    assert_eq!(f.type_id, PacketTypeId::GamePlayerPingMapSnapshot.id());
    let fields = decode_message(&f.payload).unwrap();
    let group = decode_message(&get_bytes(&fields, 2).unwrap()).unwrap();
    assert_eq!(get_varint(&group, 1), Some(1));
    let p = packets::ping(77);
    assert_eq!(p.payload, vec![0x08, 77]);
    assert_eq!(packets::client_disconnect(1).payload, vec![0x08, 1]);
    let v = Version { major: 0, minor: 1, patch: 2 };
    assert_eq!(packets::connect_reject(&v, 2).payload, vec![0x0A, 6, 0x08, 0, 0x10, 1, 0x18, 2, 0x10, 2]);
    assert_eq!(packets::game_player_leave(1, 2, 0).payload, vec![0x08, 1, 0x10, 2, 0x18, 0]);
    let upd = packets::player_ping_map_update(3, &vec![(7, stats(10)), (8, stats(20))]);
    let fields = decode_message(&upd.payload).unwrap();
    assert_eq!(fields.len(), 3);
    assert_eq!(get_varint(&fields, 1), Some(3));
    // each entry is its own field 2, holding the node and the statistics as the request did
    let last = decode_message(&get_bytes(&fields, 2).unwrap()).unwrap();
    assert_eq!(get_varint(&last, 1), Some(8));
    assert_eq!(packets::decode_stats(&get_bytes(&last, 2).unwrap()), Some(stats(20)));
    assert_eq!(packets::decode_stats(&packets::encode_stats(&stats(5))), Some(stats(5)));
}

#[test]
fn enter_and_game_info_frames() {
    use_game_frames();
}

fn use_game_frames() {
    let mut g = flo::game::Game::new(7, 1, 2);
    let idx = g.join(2).unwrap();
    let slot = g.slots()[idx];
    let f = packets::game_player_enter(7, idx as i32, &slot);
    assert_eq!(f.type_id, PacketTypeId::GamePlayerEnter.id());
    let fields = decode_message(&f.payload).unwrap();
    assert_eq!(get_varint(&fields, 2), Some(1));
    let s = decode_message(&get_bytes(&fields, 3).unwrap()).unwrap();
    let p = decode_message(&get_bytes(&s, 1).unwrap()).unwrap();
    assert_eq!(get_varint(&p, 1), Some(2));
    assert_eq!(packets::decode_settings(&get_bytes(&s, 2).unwrap()), Some(slot.settings));
    let info = packets::game_info(&g);
    assert_eq!(info.type_id, PacketTypeId::GameInfo.id());
    let game = decode_message(&get_bytes(&decode_message(&info.payload).unwrap(), 1).unwrap()).unwrap();
    assert_eq!(get_varint(&game, 1), Some(7));
    assert_eq!(game.iter().filter(|f| f.number == 2).count(), 2);
    assert_eq!(get_varint(&game, 5), Some(1));
    assert_eq!(get_varint(&game, 4), None);
}
