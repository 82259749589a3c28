use flo::frame::{Frame, PacketTypeId};
use flo::map::{MapInfo, MapInfoForce, MapInfoPlayer, TriggerString, W3Map};
use flo::outbound::{broadcast, send_packet, Mailbox, NotConnected, OutboundQueue, PushOutcome};
use flo::session::{
    check_client_version, handle_handshake, ConnectState, initial_packets, is_critical, route, CloseReason, ConnAction, ConnEvent,
    ConnState, ConnectReject, Route, Version,
};
use flo::game::GameError;
use flo::node::{Node, NodeRegistry};

fn frame(t: u8, b: u8) -> Frame {
    Frame { type_id: t, payload: vec![b] }
}

#[test]
fn broadcasts_keep_their_order_per_recipient() {
    let mut boxes = vec![
        Mailbox { player_id: 1, queue: OutboundQueue::new(8) },
        Mailbox { player_id: 2, queue: OutboundQueue::new(8) },
        Mailbox { player_id: 3, queue: OutboundQueue::new(8) },
    ];
    let a = frame(0x23, 0xA);
    let b = frame(0x23, 0xB);
    assert_eq!(broadcast(&mut boxes, &vec![1, 2, 9], &a, false), 2);
    assert_eq!(broadcast(&mut boxes, &vec![1, 2, 9], &b, false), 2);
    for mb in boxes.iter_mut().take(2) {
        assert_eq!(mb.queue.pop().unwrap().frame, a);
        assert_eq!(mb.queue.pop().unwrap().frame, b);
        assert!(mb.queue.pop().is_none());
    }
    assert_eq!(boxes[2].queue.len(), 0);
}

#[test]
fn full_queue_evicts_the_oldest_evictable_frame() {
    let mut q = OutboundQueue::new(2);
    assert_eq!(q.push(frame(0x10, 1), true), PushOutcome::Queued);
    assert_eq!(q.push(frame(0x23, 2), false), PushOutcome::Queued);
    assert_eq!(q.push(frame(0x23, 3), false), PushOutcome::QueuedEvicting);
    assert_eq!(q.evicted_count(), 1);
    assert_eq!(q.pop().unwrap().frame, frame(0x10, 1));
    assert_eq!(q.pop().unwrap().frame, frame(0x23, 3));
}

#[test]
fn critical_frames_are_never_evicted() {
    let mut q = OutboundQueue::new(1);
    assert_eq!(q.push(frame(0x34, 1), true), PushOutcome::Queued);
    assert_eq!(q.push(frame(0x41, 2), false), PushOutcome::Dropped);
    assert_eq!(q.push(frame(0x34, 3), true), PushOutcome::Queued);
    assert_eq!(q.len(), 2);
    assert!(is_critical(PacketTypeId::Ping.id()));
    assert!(is_critical(PacketTypeId::GamePlayerToken.id()));
    assert!(!is_critical(PacketTypeId::GameSlotUpdate.id()));
}

#[test]
fn heartbeat_timeout_closes_once() {
    let mut c = ConnState::new();
    assert_eq!(c.step(ConnEvent::PingDue), ConnAction::SendPing);
    assert!(c.awaiting_pong);
    assert_eq!(c.step(ConnEvent::PongTimeout), ConnAction::Close(CloseReason::HeartbeatTimeout));
    assert!(c.closed);
    assert_eq!(c.step(ConnEvent::PongTimeout), ConnAction::Nothing);
    assert_eq!(c.step(ConnEvent::QueueClosed), ConnAction::Nothing);
}

#[test]
fn any_inbound_frame_cancels_the_pong_timeout() {
    let mut c = ConnState::new();
    c.step(ConnEvent::PingDue);
    assert_eq!(c.step(ConnEvent::Inbound(0x11)), ConnAction::Dispatch(Route::Pong));
    assert_eq!(c.step(ConnEvent::PongTimeout), ConnAction::Nothing);
    assert!(!c.closed);
    assert_eq!(c.step(ConnEvent::Outbound(0x23)), ConnAction::Write);
    assert_eq!(
        c.step(ConnEvent::OutboundDisconnect(CloseReason::MultiLogin)),
        ConnAction::NotifyAndClose(CloseReason::MultiLogin)
    );
}

#[test]
fn routes_by_type_id() {
    assert_eq!(route(0x24), Route::GameSlotUpdate);
    assert_eq!(route(0x50), Route::ListNodes);
    assert_eq!(route(0x40), Route::PlayerPingMapUpdate);
    assert_eq!(route(0x42), Route::GamePlayerPingMapSnapshot);
    assert_eq!(route(0x25), Route::GameSelectNode);
    assert_eq!(route(0x30), Route::GameStart);
    assert_eq!(route(0x33), Route::GameStartPlayerClientInfo);
    assert_eq!(route(0x77), Route::Unknown);
}

#[test]
fn handshake_decisions() {
    let min = Version { major: 0, minor: 9, patch: 0 };
    assert_eq!(handle_handshake(None), Err(ConnectReject::InvalidToken));
    assert_eq!(handle_handshake(Some(4)), Ok(ConnectState { player_id: 4, joined_game: None }));
    assert_eq!(
        check_client_version(Version { major: 0, minor: 8, patch: 9 }, min),
        Err(ConnectReject::ClientVersionTooOld)
    );
    assert_eq!(check_client_version(min, min), Ok(()));
    assert_eq!(check_client_version(Version { major: 1, minor: 0, patch: 0 }, min), Ok(()));
}

#[test]
fn initial_state_packets() {
    assert_eq!(initial_packets(None, None, false).unwrap(), vec![PacketTypeId::ConnectAccept]);
    assert_eq!(
        initial_packets(Some(1), None, false).unwrap(),
        vec![PacketTypeId::ConnectAccept, PacketTypeId::GameInfo]
    );
    assert_eq!(
        initial_packets(Some(1), Some(2), true).unwrap(),
        vec![PacketTypeId::ConnectAccept, PacketTypeId::GameInfo, PacketTypeId::GamePlayerToken]
    );
    assert_eq!(initial_packets(Some(1), None, true), Err(GameError::GameNodeNotSelected));
}

#[test]
fn map_texts_and_players_resolve_through_trigger_strings() {
    let info = MapInfo {
        name: 1,
        author: 2,
        description: 3,
        suggested_players: 4,
        width: 96,
        height: 64,
        num_players: 2,
        num_forces: 1,
        players_classic: None,
        players_reforged: Some(vec![
            MapInfoPlayer { name: 5, player_type: 1, race: 2, flags: 0 },
            MapInfoPlayer { name: 9, player_type: 1, race: 3, flags: 1 },
        ]),
        forces: vec![MapInfoForce { name: 6, flags: 3, player_set: 0xFF }],
    };
    let ts = vec![
        TriggerString { id: 1, value: "Booty Bay".to_string() },
        TriggerString { id: 2, value: "Blizzard".to_string() },
        TriggerString { id: 5, value: "Player 1".to_string() },
        TriggerString { id: 6, value: "Force 1".to_string() },
        TriggerString { id: 1, value: "shadowed".to_string() },
    ];
    let m = W3Map::from_parts(info, ts, 1234);
    assert_eq!(m.name(), "Booty Bay");
    assert_eq!(m.author(), "Blizzard");
    assert_eq!(m.description(), "");
    assert_eq!(m.suggested_players(), "");
    assert_eq!(m.file_size(), 1234);
    assert_eq!(m.dimension(), (96, 64));
    assert_eq!(m.num_players(), 2);
    assert_eq!(m.num_forces(), 1);
    let ps = m.get_players();
    assert_eq!(ps.len(), 2);
    assert_eq!(ps[0].name, "Player 1");
    assert_eq!(ps[1].name, "");
    assert_eq!(ps[1].race, 3);
    let fs = m.get_forces();
    assert_eq!(fs[0].name, "Force 1");
    assert_eq!(fs[0].player_set, 0xFF);
}

#[test]
fn node_registry_refuses_duplicate_ids() {
    let node = |id: i32| Node { id, name: format!("n{}", id), addr: "10.0.0.1:3552".to_string(), country: "US".to_string() };
    let reg = NodeRegistry::new(vec![node(1), node(2)]).unwrap();
    assert_eq!(reg.list().len(), 2);
    assert_eq!(reg.get(2).unwrap().name, "n2");
    assert!(reg.get(3).is_none());
    assert!(NodeRegistry::new(vec![node(1), node(1)]).is_none());
    assert!(NodeRegistry::new(vec![]).unwrap().list().is_empty());
}

#[test]
fn send_packet_to_a_player_without_connection_fails() {
    let mut boxes = vec![Mailbox { player_id: 1, queue: OutboundQueue::new(4) }];
    assert_eq!(send_packet(&mut boxes, 2, frame(0x51, 1), false), Err(NotConnected));
    assert_eq!(send_packet(&mut boxes, 1, frame(0x51, 1), false), Ok(PushOutcome::Queued));
    assert_eq!(boxes[0].queue.pop().unwrap().frame, frame(0x51, 1));
}
