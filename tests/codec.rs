use flo::chat::{ChatFromHost, ChatMessage, ChatToHost, MessageScope};
use flo::frame::{decode_frame, encode_frame, encode_header, Frame, FrameError, PacketTypeId};
use flo::game_settings::{GameSettings, GameSettingsMap, PlayerLoaded};
use flo::stat_string;

#[test]
fn frame_header_is_magic_type_and_big_endian_length() {
    assert_eq!(encode_header(0x21, 0x0102), [0xF7, 0x21, 0x01, 0x02]);
}

#[test]
fn frame_round_trip_with_trailing_bytes() {
    let f = Frame { type_id: 0x34, payload: vec![1, 2, 3] };
    let mut bytes = encode_frame(&f).unwrap();
    assert_eq!(bytes, vec![0xF7, 0x34, 0x00, 0x03, 1, 2, 3]);
    bytes.extend_from_slice(&[9, 9]);
    let (g, n) = decode_frame(&bytes).unwrap();
    assert_eq!(g, f);
    assert_eq!(n, 7);
}

#[test]
fn frame_empty_payload_round_trip() {
    let f = Frame { type_id: 0x10, payload: vec![] };
    let bytes = encode_frame(&f).unwrap();
    assert_eq!(bytes, vec![0xF7, 0x10, 0, 0]);
    assert_eq!(decode_frame(&bytes).unwrap(), (f, 4));
}

#[test]
fn frame_max_payload_round_trip() {
    let f = Frame { type_id: 0x51, payload: vec![0xAB; 65535] };
    let bytes = encode_frame(&f).unwrap();
    assert_eq!(&bytes[..4], &[0xF7, 0x51, 0xFF, 0xFF]);
    assert_eq!(decode_frame(&bytes).unwrap(), (f, 65539));
}

#[test]
fn frame_too_large_is_refused() {
    let f = Frame { type_id: 0x51, payload: vec![0; 65536] };
    assert_eq!(encode_frame(&f), Err(FrameError::FrameTooLarge));
}

#[test]
fn frame_bad_magic_is_refused() {
    assert_eq!(decode_frame(&[0xF6, 0x01, 0, 0]), Err(FrameError::InvalidMagic));
}

#[test]
fn frame_incomplete() {
    assert_eq!(decode_frame(&[]), Err(FrameError::Incomplete));
    assert_eq!(decode_frame(&[0xF7, 0x01]), Err(FrameError::Incomplete));
    assert_eq!(decode_frame(&[0xF7, 0x01, 0, 2, 7]), Err(FrameError::Incomplete));
}

#[test]
fn packet_type_ids_match_the_wire_table() {
    assert_eq!(PacketTypeId::ConnectLobby.id(), 0x01);
    assert_eq!(PacketTypeId::ClientDisconnect.id(), 0x04);
    assert_eq!(PacketTypeId::Pong.id(), 0x11);
    assert_eq!(PacketTypeId::GamePlayerToken.id(), 0x34);
    assert_eq!(PacketTypeId::ListNodes.id(), 0x51);
    assert_eq!(PacketTypeId::from_id(0x32), Some(PacketTypeId::GameStartReject));
    assert_eq!(PacketTypeId::from_id(0x99), None);
    for id in 0u8..=255 {
        if let Some(k) = PacketTypeId::from_id(id) {
            assert_eq!(k.id(), id);
        }
    }
}

#[test]
fn stat_string_exact_encoding() {
    // bytes 0, 1, 2: even bytes are raised by one; the mask marks the odd byte (bit 2)
    assert_eq!(stat_string::encode(&[0, 1, 2]), vec![0b0000_0101, 1, 1, 3]);
    assert_eq!(stat_string::decode(&[0b0000_0101, 1, 1, 3]), vec![0, 1, 2]);
}

#[test]
fn stat_string_round_trip_all_lengths_up_to_512() {
    for len in 0..=512usize {
        let data: Vec<u8> = (0..len).map(|i| (i * 37 + len) as u8).collect();
        let enc = stat_string::encode(&data);
        assert_eq!(enc.len(), stat_string::encoded_len(len));
        assert!(enc.iter().all(|b| b % 2 == 1));
        assert_eq!(stat_string::decode(&enc), data);
    }
}

#[test]
fn stat_string_empty() {
    assert!(stat_string::encode(&[]).is_empty());
    assert!(stat_string::decode(&[]).is_empty());
}

#[test]
fn chat_lobby_exact_bytes_and_round_trip() {
    let c = ChatToHost::lobby(2, &[1, 3], b"hi");
    let mut buf = Vec::new();
    c.encode(&mut buf);
    assert_eq!(buf, vec![2, 1, 3, 2, 0x10, b'h', b'i', 0]);
    assert_eq!(c.message.encode_len(), 4);
    let (d, n) = ChatToHost::decode(&buf).unwrap();
    assert_eq!(d, c);
    assert_eq!(n, buf.len());
}

#[test]
fn chat_lossy_text_drops_zero_bytes() {
    let c = ChatToHost::lobby(1, &[], b"a\0b");
    assert_eq!(c.message, ChatMessage::Chat(b"ab".to_vec()));
}

#[test]
fn chat_scoped_round_trip() {
    for scope in [MessageScope::All, MessageScope::Allies, MessageScope::Observers] {
        let c = ChatToHost::in_game(scope, 4, &[5], b"gg");
        assert!(c.is_in_game_chat());
        assert_eq!(c.chat_message(), Some(&b"gg".to_vec()));
        let mut buf = Vec::new();
        c.encode(&mut buf);
        assert_eq!(ChatToHost::decode(&buf).unwrap(), (c, buf.len()));
    }
}

#[test]
fn chat_player_scope_keeps_the_wire_offsets() {
    let c = ChatFromHost::private_to_self(3, b"x");
    assert_eq!(c.from_player(), 3);
    let mut buf = Vec::new();
    c.0.encode(&mut buf);
    // scope written as 2 + 3
    assert_eq!(&buf[..9], &[1, 3, 3, 0x20, 5, 0, 0, 0, b'x']);
    let (d, _) = ChatToHost::decode(&buf).unwrap();
    // and read back as 5 - 3
    assert_eq!(d.message, ChatMessage::Scoped { scope: MessageScope::Player(2), message: b"x".to_vec() });
}

#[test]
fn chat_changes_round_trip() {
    for m in [ChatMessage::TeamChange(1), ChatMessage::ColorChange(2), ChatMessage::RaceChange(3), ChatMessage::HandicapChange(100)] {
        let c = ChatToHost { to_players_len: 1, to_players: vec![7], from_player: 8, message: m };
        let mut buf = Vec::new();
        c.encode(&mut buf);
        assert_eq!(buf.len(), 5);
        assert_eq!(ChatToHost::decode(&buf).unwrap(), (c, 5));
    }
}

#[test]
fn chat_decode_refuses_bad_input() {
    assert_eq!(ChatToHost::decode(&[]), None);
    assert_eq!(ChatToHost::decode(&[0, 1, 0x99, 0]), None);
    assert_eq!(ChatToHost::decode(&[0, 1, 0x10, b'a']), None);
    assert_eq!(ChatToHost::decode(&[0, 1, 0x20, 253, 0, 0, 0, 0]), None);
}

fn settings() -> GameSettings {
    GameSettings::new(
        0x0006_4002,
        GameSettingsMap {
            path: b"Maps\\(2)Bootybay.w3m".to_vec(),
            width: 116,
            height: 84,
            sha1: [0xAB; 20],
            checksum: 0xDEAD_BEEF,
        },
    )
}

#[test]
fn game_settings_new_uses_flo_host_name() {
    let s = settings();
    assert_eq!(s.host_name, b"FLO".to_vec());
    assert_eq!(s.unk_1, 0);
    assert_eq!(s.get_encode_size(), 13 + 20 + 1 + 3 + 1 + 1 + 20);
}

#[test]
fn game_settings_round_trip() {
    let s = settings();
    let mut buf = Vec::new();
    s.encode(&mut buf);
    assert_eq!(*buf.last().unwrap(), 0);
    assert!(buf[..buf.len() - 1].iter().all(|b| *b != 0));
    buf.extend_from_slice(&[1, 2, 3]);
    let (d, n) = GameSettings::decode(&buf).unwrap();
    assert_eq!(d, s);
    assert_eq!(n, buf.len() - 3);
}

#[test]
fn game_settings_decode_refuses_short_or_broken() {
    assert_eq!(GameSettings::decode(&[1; 10]), None);
    assert_eq!(GameSettings::decode(&[1; 60]), None);
}

#[test]
fn player_loaded_round_trip() {
    let p = PlayerLoaded { player_id: 2 };
    let mut buf = Vec::new();
    p.encode(&mut buf);
    assert_eq!(buf, vec![2]);
    assert_eq!(PlayerLoaded::decode(&buf), Some(p));
    assert_eq!(PlayerLoaded::decode(&[]), None);
}

#[test]
fn game_settings_with_empty_texts_round_trip() {
    let s = GameSettings {
        game_setting_flags: 0,
        unk_1: 0,
        map_width: 0,
        map_height: 0,
        map_checksum: 0,
        map_path: vec![],
        host_name: vec![],
        map_sha1: [0; 20],
    };
    let mut buf = Vec::new();
    s.encode(&mut buf);
    assert_eq!(GameSettings::decode(&buf), Some((s, buf.len())));
}

#[test]
fn game_settings_refuse_undefined_flags() {
    let mut s = settings();
    s.game_setting_flags = 0x0000_0010;
    let mut buf = Vec::new();
    s.encode(&mut buf);
    assert_eq!(GameSettings::decode(&buf), None);
}
