use flo::game::{
    create_error_text, start_reject_text, AckOutcome, CreateOutcome, Game, GameError, GameStatus,
    NodeCreateError, PlayerToken, SlotSettings, SlotStatus, StartRejectReason,
};
use flo::lobby::{group_pings_by_node, Lobby, NodePings, PingStats};

const HOST: i32 = 1;
const PEER_A: i32 = 2;
const PEER_B: i32 = 3;
const G: i32 = 100;
const N: i32 = 7;

fn lobby_with_three_players() -> Lobby {
    let mut l = Lobby::new();
    assert_eq!(l.connect(HOST, 11), None);
    assert_eq!(l.connect(PEER_A, 12), None);
    assert_eq!(l.connect(PEER_B, 13), None);
    l.create_game(G, HOST, 3).unwrap();
    let j1 = l.join_game(G, PEER_A).unwrap();
    assert_eq!(j1.slot_index, 1);
    assert_eq!(j1.peers, vec![HOST]);
    let j2 = l.join_game(G, PEER_B).unwrap();
    assert_eq!(j2.slot_index, 2);
    assert_eq!(j2.peers, vec![HOST, PEER_A]);
    l
}

fn started() -> Lobby {
    let mut l = lobby_with_three_players();
    assert_eq!(l.select_game_node(G, HOST, Some(N)).unwrap(), vec![HOST, PEER_A, PEER_B]);
    assert_eq!(l.start_game(G, HOST).unwrap(), vec![HOST, PEER_A, PEER_B]);
    assert_eq!(l.game(G).unwrap().status(), GameStatus::Starting);
    l
}

fn token(p: i32) -> PlayerToken {
    PlayerToken { player_id: p, token: [p as u8; 16] }
}

#[test]
fn happy_start() {
    let mut l = started();
    for p in [HOST, PEER_A, PEER_B] {
        let o = l.start_ack(G, p, "1.32.10".to_string(), vec![0xAB; 20]).unwrap();
        if p == PEER_B {
            assert!(matches!(o, AckOutcome::CreateGame));
        } else {
            assert!(matches!(o, AckOutcome::Pending));
        }
    }
    match l.node_created(G, vec![token(PEER_B), token(HOST), token(PEER_A)]) {
        CreateOutcome::Created(d) => {
            assert_eq!(d, vec![token(HOST), token(PEER_A), token(PEER_B)]);
            let mut all: Vec<[u8; 16]> = d.iter().map(|t| t.token).collect();
            all.dedup();
            assert_eq!(all.len(), 3);
        }
        other => panic!("unexpected {:?}", other),
    }
    let g = l.game(G).unwrap();
    assert_eq!(g.status(), GameStatus::Created);
    assert_eq!(g.selected_node_id(), Some(N));
    // created and ended games ignore further start messages
    assert_eq!(l.start_game(G, HOST), Err(GameError::GameBusy));
    assert!(matches!(l.start_ack(G, PEER_A, "1.32.10".to_string(), vec![0xAB; 20]), Ok(AckOutcome::Ignored)));
    assert!(l.start_game_set_timeout(G).is_none());
    assert_eq!(l.game(G).unwrap().status(), GameStatus::Created);
}

#[test]
fn version_mismatch() {
    let mut l = started();
    l.start_ack(G, HOST, "1.32.10".to_string(), vec![0xAB; 20]).unwrap();
    l.start_ack(G, PEER_A, "1.32.10".to_string(), vec![0xAB; 20]).unwrap();
    match l.start_ack(G, PEER_B, "1.32.10".to_string(), vec![0xCD; 20]).unwrap() {
        AckOutcome::Rejected(infos) => {
            assert_eq!(infos.len(), 3);
            assert_eq!(infos[2].map_sha1, vec![0xCD; 20]);
        }
        other => panic!("unexpected {:?}", other),
    }
    assert_eq!(l.game(G).unwrap().status(), GameStatus::Preparing);
    let msg = start_reject_text(StartRejectReason::VersionMismatch);
    assert!(msg.ends_with("version check failed."));
}

#[test]
fn ack_timeout() {
    let mut l = started();
    l.start_ack(G, HOST, "1.32.10".to_string(), vec![0xAB; 20]).unwrap();
    l.start_ack(G, PEER_A, "1.32.10".to_string(), vec![0xAB; 20]).unwrap();
    let (infos, targets) = l.start_game_set_timeout(G).unwrap();
    assert_eq!(infos.iter().map(|i| i.player_id).collect::<Vec<_>>(), vec![HOST, PEER_A]);
    assert_eq!(targets, vec![HOST, PEER_A, PEER_B]);
    assert_eq!(l.game(G).unwrap().status(), GameStatus::Preparing);
    assert_eq!(start_reject_text(StartRejectReason::Timeout), "Some of the players didn't response in time.");
    // a second timeout changes nothing
    assert!(l.start_game_set_timeout(G).is_none());
}

#[test]
fn host_leaves_mid_lobby() {
    let mut l = lobby_with_three_players();
    let r = l.leave_game(HOST).unwrap().unwrap();
    assert_eq!(r.game_id, G);
    assert!(r.game_ended);
    assert_eq!(r.others, vec![PEER_A, PEER_B]);
    assert_eq!(l.game(G).unwrap().status(), GameStatus::Ended);
    for p in [HOST, PEER_A, PEER_B] {
        assert_eq!(l.joined_game_id(p), None);
    }
    assert!(l.game(G).unwrap().player_ids().is_empty());
    assert_eq!(l.join_game(G, PEER_A).map(|_| ()), Err(GameError::GameNotFound));
}

#[test]
fn peer_leaves_and_game_goes_on() {
    let mut l = lobby_with_three_players();
    let r = l.leave_game(PEER_A).unwrap().unwrap();
    assert!(!r.game_ended);
    assert_eq!(r.others, vec![HOST, PEER_B]);
    assert_eq!(l.joined_game_id(PEER_A), None);
    assert_eq!(l.joined_game_id(PEER_B), Some(G));
    assert_eq!(l.game(G).unwrap().player_ids(), vec![HOST, PEER_B]);
    assert_eq!(l.leave_game(PEER_A).unwrap(), None);
    // the freed seat is the first open one again
    assert_eq!(l.join_game(G, PEER_A).unwrap().slot_index, 1);
}

#[test]
fn join_and_leave_keep_records_and_seats_in_step() {
    let mut l = lobby_with_three_players();
    for _ in 0..3 {
        l.leave_game(PEER_B).unwrap();
        assert_eq!(l.joined_game_id(PEER_B), None);
        assert!(!l.game(G).unwrap().has_player(PEER_B));
        l.join_game(G, PEER_B).unwrap();
        assert_eq!(l.joined_game_id(PEER_B), Some(G));
        assert!(l.game(G).unwrap().has_player(PEER_B));
    }
    assert_eq!(l.join_game(G, PEER_B).map(|_| ()), Err(GameError::MultiJoin));
}

#[test]
fn join_refusals() {
    let mut l = lobby_with_three_players();
    l.connect(9, 19);
    assert_eq!(l.join_game(G, 9).map(|_| ()), Err(GameError::GameFull));
    assert_eq!(l.join_game(555, 9).map(|_| ()), Err(GameError::GameNotFound));
    assert_eq!(l.create_game(G, 9, 2), Err(GameError::GameExists));
    assert_eq!(l.create_game(200, HOST, 2), Err(GameError::MultiJoin));
    l.leave_game(PEER_B).unwrap();
    l.select_game_node(G, HOST, Some(N)).unwrap();
    l.start_game(G, HOST).unwrap();
    assert_eq!(l.join_game(G, 9).map(|_| ()), Err(GameError::GameBusy));
    assert_eq!(l.leave_game(PEER_A).map(|_| ()), Err(GameError::GameBusy));
}

#[test]
fn slot_updates_keep_seats_and_host() {
    let mut l = lobby_with_three_players();
    let s = SlotSettings { team: 1, color: 5, handicap: 90, race: 2, status: SlotStatus::Open, computer: 0 };
    let (stored, targets) = l.update_game_slot_settings(G, PEER_A, 1, s).unwrap();
    assert_eq!(stored.status, SlotStatus::Occupied);
    assert_eq!(stored.color, 5);
    assert_eq!(targets, vec![HOST, PEER_A, PEER_B]);
    assert_eq!(l.update_game_slot_settings(G, PEER_A, 2, s).map(|_| ()), Err(GameError::PlayerSlotNotFound));
    assert_eq!(l.update_game_slot_settings(G, PEER_A, 9, s).map(|_| ()), Err(GameError::PlayerSlotNotFound));
    assert_eq!(l.update_game_slot_settings(G, 42, 0, s).map(|_| ()), Err(GameError::PlayerNotInGame));
    l.leave_game(PEER_B).unwrap();
    let closed = SlotSettings { status: SlotStatus::Closed, ..s };
    assert_eq!(l.update_game_slot_settings(G, PEER_A, 2, closed).map(|_| ()), Err(GameError::PlayerNotHost));
    assert_eq!(l.update_game_slot_settings(G, HOST, 2, closed).unwrap().0.status, SlotStatus::Closed);
    let g = l.game(G).unwrap();
    assert_eq!(g.slots().len(), 3);
    assert_eq!(g.host_player_id(), Some(HOST));
    assert!(g.has_player(HOST));
    assert_eq!(l.join_game(G, PEER_B).map(|_| ()), Err(GameError::GameFull));
}

#[test]
fn start_refusals() {
    let mut l = lobby_with_three_players();
    assert_eq!(l.start_game(G, HOST), Err(GameError::GameNodeNotSelected));
    assert_eq!(l.select_game_node(G, PEER_A, Some(N)), Err(GameError::PlayerNotHost));
    l.select_game_node(G, HOST, Some(N)).unwrap();
    assert_eq!(l.start_game(G, PEER_A), Err(GameError::PlayerNotHost));
    assert_eq!(l.start_game(555, HOST), Err(GameError::GameNotFound));
    l.start_game(G, HOST).unwrap();
    assert_eq!(l.select_game_node(G, HOST, None), Err(GameError::GameBusy));
    assert_eq!(l.select_game_node(G, HOST, Some(N + 1)), Ok(vec![HOST, PEER_A, PEER_B]));
    assert_eq!(l.game(G).unwrap().selected_node_id(), Some(N + 1));
}

#[test]
fn node_create_failure_tells_the_host() {
    let mut l = started();
    for p in [HOST, PEER_A, PEER_B] {
        l.start_ack(G, p, "1.32.10".to_string(), vec![1; 20]).unwrap();
    }
    assert_eq!(l.node_create_failed(G), Some(HOST));
    assert_eq!(l.game(G).unwrap().status(), GameStatus::Preparing);
    assert_eq!(create_error_text(NodeCreateError::Timeout), "Create game timeout.");
    assert_eq!(create_error_text(NodeCreateError::RejectGameExists), "Game already started.");
    assert_eq!(create_error_text(NodeCreateError::RejectPlayerBusy), "Create game request rejected: Player busy.");
    assert_eq!(create_error_text(NodeCreateError::RejectMaintenance), "Create game request rejected: Server Maintenance.");
    assert_eq!(create_error_text(NodeCreateError::RejectUnknown), "Create game request rejected.");
    assert_eq!(create_error_text(NodeCreateError::Other), "Internal error.");
}

#[test]
fn node_reply_missing_a_token_calls_off_the_start() {
    let mut l = started();
    for p in [HOST, PEER_A, PEER_B] {
        l.start_ack(G, p, "1.32.10".to_string(), vec![1; 20]).unwrap();
    }
    match l.node_created(G, vec![token(HOST), token(PEER_A)]) {
        CreateOutcome::Failed { host, error } => {
            assert_eq!(host, HOST);
            assert_eq!(error, NodeCreateError::Other);
        }
        other => panic!("unexpected {:?}", other),
    }
    assert_eq!(l.game(G).unwrap().status(), GameStatus::Preparing);
}

#[test]
fn abort_and_end() {
    let mut l = started();
    let (infos, _) = l.start_game_abort(G).unwrap();
    assert_eq!(l.start_game_abort(555).map(|_| ()), Err(GameError::GameNotFound));
    assert!(infos.is_empty());
    assert_eq!(l.game(G).unwrap().status(), GameStatus::Preparing);
    assert_eq!(start_reject_text(StartRejectReason::Internal), "Unable to start the game because of a internal error.");
    l.start_game(G, HOST).unwrap();
    for p in [HOST, PEER_A, PEER_B] {
        l.start_ack(G, p, "v".to_string(), vec![]).unwrap();
    }
    assert!(matches!(l.node_created(G, vec![token(HOST), token(PEER_A), token(PEER_B)]), CreateOutcome::Created(_)));
    let ids = l.end_game(G).unwrap();
    assert_eq!(ids, vec![HOST, PEER_A, PEER_B]);
    assert_eq!(l.game(G).unwrap().status(), GameStatus::Ended);
    assert_eq!(l.joined_game_id(PEER_A), None);
    assert!(l.end_game(G).is_none());
}

#[test]
fn multi_login_displaces_the_first_connection() {
    let mut l = Lobby::new();
    assert_eq!(l.connect(HOST, 1), None);
    assert_eq!(l.connect(HOST, 2), Some(1));
    assert_eq!(l.connection_of(HOST), Some(2));
    // the first connection's cleanup does not touch the second
    assert!(!l.disconnect(HOST, 1));
    assert_eq!(l.connection_of(HOST), Some(2));
    assert!(l.disconnect(HOST, 2));
    assert_eq!(l.connection_of(HOST), None);
    assert!(!l.disconnect(HOST, 2));
}

#[test]
fn disconnect_keeps_a_player_who_is_in_a_game() {
    let mut l = lobby_with_three_players();
    assert!(l.disconnect(PEER_A, 12));
    assert_eq!(l.connection_of(PEER_A), None);
    assert_eq!(l.joined_game_id(PEER_A), Some(G));
    assert_eq!(l.connect(PEER_A, 22), None);
    assert_eq!(l.joined_game_id(PEER_A), Some(G));
}

fn stats(v: u32) -> PingStats {
    PingStats { min: v, max: v, avg: v, current: v, loss_rate: 0 }
}

#[test]
fn ping_updates_newer_wins_and_snapshot() {
    let mut l = lobby_with_three_players();
    assert!(l.update_ping(PEER_A, &vec![(N, stats(10)), (8, stats(20))], 5));
    assert!(l.update_ping(PEER_A, &vec![(N, stats(30))], 6));
    assert!(!l.update_ping(PEER_A, &vec![(N, stats(99))], 4));
    assert!(!l.update_ping(77, &vec![(N, stats(1))], 9));
    let snap = l.ping_snapshot(&vec![PEER_A, 77]);
    assert_eq!(snap.len(), 2);
    assert_eq!(snap[0].get(&N), Some(&stats(30)));
    assert_eq!(snap[0].get(&8), Some(&stats(20)));
    assert!(snap[1].is_empty());
    assert_eq!(l.ping_broadcast_targets(PEER_A), vec![HOST, PEER_B]);
    assert!(l.ping_broadcast_targets(77).is_empty());
}

#[test]
fn game_new_seats_the_host_first() {
    let g = Game::new(5, HOST, 4);
    assert_eq!(g.id(), 5);
    assert_eq!(g.player_ids(), vec![HOST]);
    assert_eq!(g.peer_ids(HOST), Vec::<i32>::new());
    assert_eq!(g.slots()[1].settings.status, SlotStatus::Open);
    assert!(!g.player_slots_locked());
    assert!(g.tokens().is_empty());
}

#[test]
fn ping_snapshot_regrouped_by_node() {
    let g = group_pings_by_node(&vec![(1, 7, stats(10)), (1, 8, stats(20)), (2, 7, stats(30))]);
    assert_eq!(
        g,
        vec![
            NodePings { node_id: 7, players: vec![(1, stats(10)), (2, stats(30))] },
            NodePings { node_id: 8, players: vec![(1, stats(20))] },
        ]
    );
    assert!(group_pings_by_node(&vec![]).is_empty());
}

#[test]
fn abort_resets_a_preparing_game_too() {
    let mut l = lobby_with_three_players();
    let (infos, targets) = l.start_game_abort(G).unwrap();
    assert!(infos.is_empty());
    assert_eq!(targets, vec![HOST, PEER_A, PEER_B]);
    assert_eq!(l.game(G).unwrap().status(), GameStatus::Preparing);
    l.leave_game(HOST).unwrap();
    assert_eq!(l.start_game_abort(G).map(|_| ()), Err(GameError::GameNotFound));
}
