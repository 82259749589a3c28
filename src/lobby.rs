use std::collections::HashMap;
use vstd::prelude::*;

use crate::game::{
    cleared, game_wf, ids_except, occupied_ids, seats_have, taken_by, Game, GameError, GameStatus,
    GameView,
};

verus! {

/// Round-trip statistics of a player towards one node, in milliseconds; the loss rate is
/// in thousandths.
#[derive(Debug, Clone, Copy, PartialEq, Eq, Structural)]
pub struct PingStats {
    pub min: u32,
    pub max: u32,
    pub avg: u32,
    pub current: u32,
    pub loss_rate: u32,
}

/// The session state of one player: their live connection, the game they joined, and their
/// ping book.
#[derive(Debug)]
pub struct PlayerSession {
    id: i32,
    connection: Option<u64>,
    joined_game_id: Option<i32>,
    ping_book: HashMap<i32, PingStats>,
    ping_updated_at: u64,
}

/// The mathematical value of a `PlayerSession`.
pub struct PlayerView {
    pub id: i32,
    pub connection: Option<u64>,
    pub joined: Option<i32>,
    pub ping: Map<i32, PingStats>,
    pub ping_at: u64,
}

impl View for PlayerSession {
    type V = PlayerView;

    closed spec fn view(&self) -> PlayerView {
        PlayerView {
            id: self.id,
            connection: self.connection,
            joined: self.joined_game_id,
            ping: self.ping_book@,
            ping_at: self.ping_updated_at,
        }
    }
}

/// All live players and games.
#[derive(Debug)]
pub struct Lobby {
    players: Vec<PlayerSession>,
    games: Vec<Game>,
}

/// The mathematical value of a `Lobby`.
pub struct LobbyView {
    pub players: Seq<PlayerView>,
    pub games: Seq<GameView>,
}

impl View for Lobby {
    type V = LobbyView;

    closed spec fn view(&self) -> LobbyView {
        LobbyView {
            players: self.players@.map_values(|p: PlayerSession| p@),
            games: self.games@.map_values(|g: Game| g@),
        }
    }
}

/// A player is recorded as in game `g` exactly when they sit in one of its seats.
pub open spec fn joined_matches_seats(v: LobbyView) -> bool {
    forall|i: int, j: int|
        0 <= i < v.players.len() && 0 <= j < v.games.len() ==> (#[trigger] v.players[i].joined
            == Some(#[trigger] v.games[j].id) <==> seats_have(v.games[j].slots, v.players[i].id))
}

/// Player ids are distinct, game ids are distinct, every game is consistent, every joined
/// game exists, every seated player has a session, and joins match seats.
pub open spec fn lobby_wf(v: LobbyView) -> bool {
    &&& forall|j: int| 0 <= j < v.games.len() ==> game_wf(#[trigger] v.games[j])
    &&& forall|i: int, k: int|
        0 <= i < v.players.len() && 0 <= k < v.players.len() && i != k ==> #[trigger] v.players[i].id
            != #[trigger] v.players[k].id
    &&& forall|j: int, l: int|
        0 <= j < v.games.len() && 0 <= l < v.games.len() && j != l ==> #[trigger] v.games[j].id
            != #[trigger] v.games[l].id
    &&& forall|i: int|
        #![trigger v.players[i]]
        0 <= i < v.players.len() && v.players[i].joined is Some ==> exists|j: int|
            0 <= j < v.games.len() && #[trigger] v.games[j].id == v.players[i].joined->0
    &&& forall|j: int, p: i32|
        0 <= j < v.games.len() && #[trigger] seats_have(v.games[j].slots, p) ==> exists|i: int|
            0 <= i < v.players.len() && #[trigger] v.players[i].id == p
    &&& joined_matches_seats(v)
}

/// Whether a session of player `p` exists.
pub open spec fn has_player(v: LobbyView, p: i32) -> bool {
    exists|i: int| 0 <= i < v.players.len() && #[trigger] v.players[i].id == p
}

/// Whether game `g` exists.
pub open spec fn has_game(v: LobbyView, g: i32) -> bool {
    exists|j: int| 0 <= j < v.games.len() && #[trigger] v.games[j].id == g
}

/// The game that player `p` joined, if any.
pub open spec fn joined_of(v: LobbyView, p: i32) -> Option<i32> {
    if has_player(v, p) {
        v.players[choose|i: int| 0 <= i < v.players.len() && #[trigger] v.players[i].id == p].joined
    } else {
        None
    }
}

/// What a join led to: the seat taken, and the other players, who are to be told.
#[derive(Debug, Clone, PartialEq, Eq)]
pub struct JoinReply {
    pub slot_index: usize,
    pub peers: Vec<i32>,
}

/// A fresh session of player `p`.
pub open spec fn fresh_player(p: i32, connection: Option<u64>) -> PlayerView {
    PlayerView { id: p, connection, joined: None, ping: Map::empty(), ping_at: 0 }
}


/// The game with id `g` (meaningful when it exists).
pub open spec fn game_of(v: LobbyView, g: i32) -> GameView {
    v.games[choose|j: int| 0 <= j < v.games.len() && #[trigger] v.games[j].id == g]
}

/// The refusal, if any, of player `p` joining game `g`.
pub open spec fn lobby_join_refusal(v: LobbyView, g: i32, p: i32) -> Option<GameError> {
    if joined_of(v, p) is Some {
        Some(GameError::MultiJoin)
    } else if !has_game(v, g) {
        Some(GameError::GameNotFound)
    } else {
        crate::game::join_refusal(game_of(v, g), p)
    }
}

/// What leaving did: the game left, whether it ended, and the other players of the game,
/// who are told of the departure (and were detached when it ended).
#[derive(Debug, Clone, PartialEq, Eq)]
pub struct LeaveReply {
    pub game_id: i32,
    pub game_ended: bool,
    pub others: Vec<i32>,
}

/// Taking an empty seat adds exactly its new occupant.
pub proof fn lemma_seat_taken(s: Seq<crate::game::Slot>, idx: int, p: i32, q: i32)
    requires
        0 <= idx < s.len(),
        s[idx].player_id is None,
    ensures
        seats_have(s.update(idx, taken_by(s[idx], p)), q) <==> (seats_have(s, q) || q == p),
{
    let t = s.update(idx, taken_by(s[idx], p));
    if seats_have(s, q) {
        let k = choose|k: int| 0 <= k < s.len() && #[trigger] s[k].player_id == Some(q);
        assert(k != idx);
        assert(t[k].player_id == Some(q));
    }
    if q == p {
        assert(t[idx].player_id == Some(p));
    }
    if seats_have(t, q) {
        let k = choose|k: int| 0 <= k < t.len() && #[trigger] t[k].player_id == Some(q);
        if k != idx {
            assert(s[k].player_id == Some(q));
        }
    }
}

/// Emptying the seat of `p` removes exactly `p`, when `p` sits only there.
pub proof fn lemma_seat_cleared(s: Seq<crate::game::Slot>, idx: int, p: i32, q: i32)
    requires
        0 <= idx < s.len(),
        s[idx].player_id == Some(p),
        forall|k: int| 0 <= k < s.len() && k != idx ==> #[trigger] s[k].player_id != Some(p),
    ensures
        seats_have(s.update(idx, cleared(s[idx])), q) <==> (seats_have(s, q) && q != p),
{
    let t = s.update(idx, cleared(s[idx]));
    if seats_have(s, q) && q != p {
        let k = choose|k: int| 0 <= k < s.len() && #[trigger] s[k].player_id == Some(q);
        assert(k != idx);
        assert(t[k].player_id == Some(q));
    }
    if seats_have(t, q) {
        let k = choose|k: int| 0 <= k < t.len() && #[trigger] t[k].player_id == Some(q);
        assert(k != idx);
        assert(s[k].player_id == Some(q));
    }
}

/// No one sits in a game whose seats were all emptied.
pub proof fn lemma_all_cleared(s: Seq<crate::game::Slot>, q: i32)
    ensures
        !seats_have(s.map_values(|x: crate::game::Slot| cleared(x)), q),
{
    let t = s.map_values(|x: crate::game::Slot| cleared(x));
    if seats_have(t, q) {
        let k = choose|k: int| 0 <= k < t.len() && #[trigger] t[k].player_id == Some(q);
        assert(t[k] == cleared(s[k]));
    }
}

/// The lobby after player `p` (index `i`) left game `g` (index `j`), which became `ng`, is
/// consistent, and the players are recorded as the leave requires.
proof fn lemma_leave_wf(
    old_view: LobbyView,
    v: LobbyView,
    i: int,
    j: int,
    p: i32,
    g: i32,
    ng: GameView,
    ended: bool,
    others: Seq<i32>,
)
    requires
        lobby_wf(old_view),
        0 <= i < old_view.players.len(),
        0 <= j < old_view.games.len(),
        old_view.players[i].id == p,
        old_view.players[i].joined == Some(g),
        old_view.games[j].id == g,
        game_wf(ng),
        others == ids_except(old_view.games[j].slots, p),
        ended ==> ng == (GameView {
            slots: old_view.games[j].slots.map_values(|s: crate::game::Slot| cleared(s)),
            status: GameStatus::Ended,
            host: None,
            ..old_view.games[j]
        }),
        !ended ==> exists|x: int|
            0 <= x < old_view.games[j].slots.len() && old_view.games[j].slots[x].player_id == Some(p)
                && ng == (GameView {
                slots: old_view.games[j].slots.update(x, cleared(old_view.games[j].slots[x])),
                ..old_view.games[j]
            }),
        v.games == old_view.games.update(j, ng),
        v.players.len() == old_view.players.len(),
        forall|k: int|
            #![trigger v.players[k]]
            0 <= k < v.players.len() ==> v.players[k] == if k == i || (ended && others.contains(
                old_view.players[k].id,
            )) {
                PlayerView { joined: None, ..old_view.players[k] }
            } else {
                old_view.players[k]
            },
    ensures
        lobby_wf(v),
        joined_of(v, p) is None,
        game_of(v, g) == ng,
        ended ==> forall|q: i32| #[trigger] others.contains(q) ==> joined_of(v, q) is None,
        !ended ==> forall|q: i32| q != p ==> #[trigger] joined_of(v, q) == joined_of(old_view, q),
{
    let gv = old_view.games[j];
    assert forall|q: i32| #[trigger] seats_have(ng.slots, q) ==> (seats_have(gv.slots, q) && q != p) by {
        if ended {
            lemma_all_cleared(gv.slots, q);
        } else {
            let x = choose|x: int|
                0 <= x < gv.slots.len() && gv.slots[x].player_id == Some(p) && ng == (GameView {
                    slots: gv.slots.update(x, cleared(gv.slots[x])),
                    ..gv
                });
            lemma_seat_cleared(gv.slots, x, p, q);
        }
    }
    assert forall|q: i32| !ended && q != p && seats_have(gv.slots, q) implies #[trigger] seats_have(ng.slots, q) by {
        let x = choose|x: int|
            0 <= x < gv.slots.len() && gv.slots[x].player_id == Some(p) && ng == (GameView {
                slots: gv.slots.update(x, cleared(gv.slots[x])),
                ..gv
            });
        lemma_seat_cleared(gv.slots, x, p, q);
    }
    assert forall|q: i32| #[trigger] others.contains(q) <==> (q != p && seats_have(gv.slots, q)) by {
        crate::game::lemma_ids_except_contains(gv.slots, p, q);
    }
    assert forall|a: int| 0 <= a < v.games.len() implies game_wf(#[trigger] v.games[a]) by {
        if a != j {
            assert(v.games[a] == old_view.games[a]);
        }
    }
    assert forall|a: int| 0 <= a < v.games.len() implies #[trigger] v.games[a].id == old_view.games[a].id by {
    }
    assert forall|k: int| 0 <= k < v.players.len() implies #[trigger] v.players[k].id == old_view.players[k].id by {
    }
    assert forall|a: int, q: i32|
        0 <= a < v.games.len() && #[trigger] seats_have(v.games[a].slots, q) implies exists|k: int|
        0 <= k < v.players.len() && #[trigger] v.players[k].id == q by {
        if a != j {
            assert(v.games[a] == old_view.games[a]);
        }
        assert(seats_have(old_view.games[a].slots, q));
        let k = choose|k: int| 0 <= k < old_view.players.len() && #[trigger] old_view.players[k].id == q;
        assert(v.players[k].id == q);
    }
    assert forall|k: int|
        #![trigger v.players[k]]
        0 <= k < v.players.len() && v.players[k].joined is Some implies exists|a: int|
        0 <= a < v.games.len() && #[trigger] v.games[a].id == v.players[k].joined->0 by {
        assert(v.players[k].joined == old_view.players[k].joined);
        let a = choose|a: int| 0 <= a < old_view.games.len() && #[trigger] old_view.games[a].id == old_view.players[k].joined->0;
        assert(v.games[a].id == old_view.games[a].id);
    }
    assert forall|k: int, a: int|
        0 <= k < v.players.len() && 0 <= a < v.games.len() implies (#[trigger] v.players[k].joined
        == Some(#[trigger] v.games[a].id) <==> seats_have(v.games[a].slots, v.players[k].id)) by {
        let id = old_view.players[k].id;
        assert(v.games[a].id == old_view.games[a].id);
        assert(old_view.players[k].joined == Some(old_view.games[a].id) <==> seats_have(old_view.games[a].slots, id));
        assert(old_view.players[k].joined == Some(old_view.games[j].id) <==> seats_have(old_view.games[j].slots, id));
        if a != j {
            assert(v.games[a] == old_view.games[a]);
            assert(old_view.games[a].id != g);
        } else {
            if k != i {
                assert(id != p);
            }
        }
    }
    let c = choose|c: int| 0 <= c < v.players.len() && #[trigger] v.players[c].id == p;
    assert(v.players[i].id == p);
    if c != i {
        assert(old_view.players[c].id == old_view.players[i].id);
    }
    let cg = choose|c: int| 0 <= c < v.games.len() && #[trigger] v.games[c].id == g;
    assert(v.games[j].id == g);
    if cg != j {
        assert(old_view.games[cg].id == old_view.games[j].id);
    }
    assert forall|q: i32| ended && #[trigger] others.contains(q) implies joined_of(v, q) is None by {
        if has_player(v, q) {
            let k = choose|k: int| 0 <= k < v.players.len() && #[trigger] v.players[k].id == q;
            assert(v.players[k].joined is None);
        }
    }
    assert forall|q: i32| !ended && q != p implies #[trigger] joined_of(v, q) == joined_of(old_view, q) by {
        if has_player(v, q) {
            let k = choose|k: int| 0 <= k < v.players.len() && #[trigger] v.players[k].id == q;
            assert(old_view.players[k].id == q);
            let k0 = choose|k: int| 0 <= k < old_view.players.len() && #[trigger] old_view.players[k].id == q;
            if k0 != k {
                assert(old_view.players[k0].id == old_view.players[k].id);
            }
        } else if has_player(old_view, q) {
            let k0 = choose|k: int| 0 <= k < old_view.players.len() && #[trigger] old_view.players[k].id == q;
            assert(v.players[k0].id == q);
        }
    }
}

/// Replacing a game by one with the same id and the same seated players keeps the lobby
/// consistent.
proof fn lemma_same_seats_wf(old_view: LobbyView, j: int, ng: GameView)
    requires
        lobby_wf(old_view),
        0 <= j < old_view.games.len(),
        game_wf(ng),
        ng.id == old_view.games[j].id,
        forall|q: i32| #[trigger] seats_have(ng.slots, q) == seats_have(old_view.games[j].slots, q),
    ensures
        lobby_wf(LobbyView { games: old_view.games.update(j, ng), ..old_view }),
        forall|q: i32| joined_of(LobbyView { games: old_view.games.update(j, ng), ..old_view }, q) == joined_of(old_view, q),
        game_of(LobbyView { games: old_view.games.update(j, ng), ..old_view }, ng.id) == ng,
{
    let v = LobbyView { games: old_view.games.update(j, ng), ..old_view };
    let cg = choose|c: int| 0 <= c < v.games.len() && #[trigger] v.games[c].id == ng.id;
    assert(v.games[j].id == ng.id);
    if cg != j {
        assert(old_view.games[cg].id == old_view.games[j].id);
    }
    assert forall|a: int| 0 <= a < v.games.len() implies game_wf(#[trigger] v.games[a]) by {
        if a != j {
            assert(v.games[a] == old_view.games[a]);
        }
    }
    assert forall|a: int| 0 <= a < v.games.len() implies #[trigger] v.games[a].id == old_view.games[a].id by {
    }
    assert forall|a: int, q: i32|
        0 <= a < v.games.len() && #[trigger] seats_have(v.games[a].slots, q) implies exists|k: int|
        0 <= k < v.players.len() && #[trigger] v.players[k].id == q by {
        if a != j {
            assert(v.games[a] == old_view.games[a]);
        }
        assert(seats_have(old_view.games[a].slots, q));
    }
    assert forall|k: int|
        #![trigger v.players[k]]
        0 <= k < v.players.len() && v.players[k].joined is Some implies exists|a: int|
        0 <= a < v.games.len() && #[trigger] v.games[a].id == v.players[k].joined->0 by {
        let a = choose|a: int| 0 <= a < old_view.games.len() && #[trigger] old_view.games[a].id == old_view.players[k].joined->0;
        assert(v.games[a].id == old_view.games[a].id);
    }
    assert forall|k: int, a: int|
        0 <= k < v.players.len() && 0 <= a < v.games.len() implies (#[trigger] v.players[k].joined
        == Some(#[trigger] v.games[a].id) <==> seats_have(v.games[a].slots, v.players[k].id)) by {
        assert(v.games[a].id == old_view.games[a].id);
        assert(old_view.players[k].joined == Some(old_view.games[a].id) <==> seats_have(old_view.games[a].slots, old_view.players[k].id));
        if a != j {
            assert(v.games[a] == old_view.games[a]);
        }
    }
}

/// The lobby after game `j` ended, with every player who sat in it detached, is consistent.
proof fn lemma_end_wf(old_view: LobbyView, v: LobbyView, j: int, ng: GameView, ids: Seq<i32>)
    requires
        lobby_wf(old_view),
        0 <= j < old_view.games.len(),
        game_wf(ng),
        ng == (GameView {
            slots: old_view.games[j].slots.map_values(|s: crate::game::Slot| cleared(s)),
            status: GameStatus::Ended,
            host: None,
            ..old_view.games[j]
        }),
        ids == occupied_ids(old_view.games[j].slots),
        v.games == old_view.games.update(j, ng),
        v.players.len() == old_view.players.len(),
        forall|k: int|
            #![trigger v.players[k]]
            0 <= k < v.players.len() ==> v.players[k] == if ids.contains(old_view.players[k].id) {
                PlayerView { joined: None, ..old_view.players[k] }
            } else {
                old_view.players[k]
            },
    ensures
        lobby_wf(v),
        forall|q: i32| #[trigger] ids.contains(q) ==> joined_of(v, q) is None,
{
    let gv = old_view.games[j];
    assert forall|q: i32| !#[trigger] seats_have(ng.slots, q) by {
        lemma_all_cleared(gv.slots, q);
    }
    assert forall|q: i32| #[trigger] ids.contains(q) <==> seats_have(gv.slots, q) by {
        crate::game::lemma_occupied_ids_contains(gv.slots, q);
    }
    assert forall|a: int| 0 <= a < v.games.len() implies game_wf(#[trigger] v.games[a]) by {
        if a != j {
            assert(v.games[a] == old_view.games[a]);
        }
    }
    assert forall|a: int| 0 <= a < v.games.len() implies #[trigger] v.games[a].id == old_view.games[a].id by {
    }
    assert forall|k: int| 0 <= k < v.players.len() implies #[trigger] v.players[k].id == old_view.players[k].id by {
    }
    assert forall|a: int, q: i32|
        0 <= a < v.games.len() && #[trigger] seats_have(v.games[a].slots, q) implies exists|k: int|
        0 <= k < v.players.len() && #[trigger] v.players[k].id == q by {
        if a != j {
            assert(v.games[a] == old_view.games[a]);
        }
        assert(seats_have(old_view.games[a].slots, q));
        let k = choose|k: int| 0 <= k < old_view.players.len() && #[trigger] old_view.players[k].id == q;
        assert(v.players[k].id == q);
    }
    assert forall|k: int|
        #![trigger v.players[k]]
        0 <= k < v.players.len() && v.players[k].joined is Some implies exists|a: int|
        0 <= a < v.games.len() && #[trigger] v.games[a].id == v.players[k].joined->0 by {
        assert(v.players[k].joined == old_view.players[k].joined);
        let a = choose|a: int| 0 <= a < old_view.games.len() && #[trigger] old_view.games[a].id == old_view.players[k].joined->0;
        assert(v.games[a].id == old_view.games[a].id);
    }
    assert forall|k: int, a: int|
        0 <= k < v.players.len() && 0 <= a < v.games.len() implies (#[trigger] v.players[k].joined
        == Some(#[trigger] v.games[a].id) <==> seats_have(v.games[a].slots, v.players[k].id)) by {
        let id = old_view.players[k].id;
        assert(v.games[a].id == old_view.games[a].id);
        assert(old_view.players[k].joined == Some(old_view.games[a].id) <==> seats_have(old_view.games[a].slots, id));
        assert(old_view.players[k].joined == Some(old_view.games[j].id) <==> seats_have(old_view.games[j].slots, id));
        if a != j {
            assert(v.games[a] == old_view.games[a]);
            assert(old_view.games[a].id != old_view.games[j].id);
        }
    }
    assert forall|q: i32| #[trigger] ids.contains(q) implies joined_of(v, q) is None by {
        if has_player(v, q) {
            let k = choose|k: int| 0 <= k < v.players.len() && #[trigger] v.players[k].id == q;
            assert(v.players[k].joined is None);
        }
    }
}

/// A ping book after merging `updates` in order: each update replaces the entry of its node.
pub open spec fn apply_pings(m: Map<i32, PingStats>, updates: Seq<(i32, PingStats)>) -> Map<i32, PingStats>
    decreases updates.len(),
{
    if updates.len() == 0 {
        m
    } else {
        apply_pings(m, updates.drop_last()).insert(updates.last().0, updates.last().1)
    }
}

/// The session of player `p` (meaningful when it exists).
pub open spec fn player_of(v: LobbyView, p: i32) -> PlayerView {
    v.players[choose|i: int| 0 <= i < v.players.len() && #[trigger] v.players[i].id == p]
}

/// In every consistent lobby, player `p` is recorded as in game `g` exactly when `p` sits in
/// one of its seats. Every operation of `Lobby` keeps the lobby consistent, so this holds
/// after any interleaving of joins and leaves.
pub proof fn lemma_joined_iff_seated(v: LobbyView, p: i32, g: i32)
    requires
        lobby_wf(v),
        has_game(v, g),
    ensures
        joined_of(v, p) == Some(g) <==> seats_have(game_of(v, g).slots, p),
{
    let j = choose|j: int| 0 <= j < v.games.len() && #[trigger] v.games[j].id == g;
    if has_player(v, p) {
        let i = choose|i: int| 0 <= i < v.players.len() && #[trigger] v.players[i].id == p;
        assert(v.players[i].joined == Some(v.games[j].id) <==> seats_have(v.games[j].slots, v.players[i].id));
    } else if seats_have(v.games[j].slots, p) {
        let i = choose|i: int| 0 <= i < v.players.len() && #[trigger] v.players[i].id == p;
        assert(has_player(v, p));
    }
}

/// The pings of the players towards one node.
#[derive(Debug, Clone, PartialEq, Eq)]
pub struct NodePings {
    pub node_id: i32,
    pub players: Vec<(i32, PingStats)>,
}

/// Whether the groups have distinct nodes.
pub open spec fn nodes_distinct(g: Seq<NodePings>) -> bool {
    forall|a: int, b: int|
        0 <= a < g.len() && 0 <= b < g.len() && a != b ==> #[trigger] g[a].node_id != #[trigger] g[b].node_id
}

/// Whether some group of node `n` holds `(p, st)`.
pub open spec fn grouped(g: Seq<NodePings>, p: i32, n: i32, st: PingStats) -> bool {
    exists|a: int| 0 <= a < g.len() && #[trigger] g[a].node_id == n && g[a].players@.contains((p, st))
}

/// Regroups measurements `(player, node, stats)` by node: one group per node, in the order
/// nodes first appear, each holding the `(player, stats)` pairs of that node in input order.
pub fn group_pings_by_node(pings: &Vec<(i32, i32, PingStats)>) -> (r: Vec<NodePings>)
    ensures
        nodes_distinct(r@),
        forall|k: int| #![trigger pings@[k]] 0 <= k < pings@.len() ==> grouped(r@, pings@[k].0, pings@[k].1, pings@[k].2),
        forall|a: int, e: (i32, PingStats)|
            0 <= a < r@.len() && #[trigger] r@[a].players@.contains(e) ==> pings@.contains((e.0, r@[a].node_id, e.1)),
{
    let mut out: Vec<NodePings> = Vec::new();
    let mut k: usize = 0;
    while k < pings.len()
        invariant
            k <= pings.len(),
            nodes_distinct(out@),
            forall|j: int| #![trigger pings@[j]] 0 <= j < k ==> grouped(out@, pings@[j].0, pings@[j].1, pings@[j].2),
            forall|a: int, e: (i32, PingStats)|
                0 <= a < out@.len() && #[trigger] out@[a].players@.contains(e) ==> pings@.contains((e.0, out@[a].node_id, e.1)),
        decreases pings.len() - k,
    {
        let (p, n, st) = pings[k];
        assert(pings@[k as int] == (p, n, st));
        assert(pings@.contains((p, n, st)));
        let ghost before = out@;
        let mut a: usize = 0;
        while a < out.len() && out[a].node_id != n
            invariant
                a <= out.len(),
                forall|b: int| 0 <= b < a ==> #[trigger] out@[b].node_id != n,
            decreases out.len() - a,
        {
            a = a + 1;
        }
        if a < out.len() {
            let mut g = out.remove(a);
            let ghost gp = g.players@;
            g.players.push((p, st));
            out.insert(a, g);
            proof {
                assert(out@ =~= before.update(a as int, out@[a as int]));
                assert(out@[a as int].players@ == gp.push((p, st)));
                assert(out@[a as int].node_id == n);
                assert forall|x: int, y: int|
                    0 <= x < out@.len() && 0 <= y < out@.len() && x != y implies #[trigger] out@[x].node_id
                    != #[trigger] out@[y].node_id by {
                    assert(out@[x].node_id == before[x].node_id);
                    assert(out@[y].node_id == before[y].node_id);
                }
                assert forall|j: int| #![trigger pings@[j]] 0 <= j < k + 1 implies grouped(out@, pings@[j].0, pings@[j].1, pings@[j].2) by {
                    if j == k {
                        assert(out@[a as int].players@[gp.len() as int] == (p, st));
                        assert(out@[a as int].players@.contains((p, st)));
                        assert(grouped(out@, p, n, st));
                    } else {
                        let b = choose|b: int| 0 <= b < before.len() && #[trigger] before[b].node_id == pings@[j].1
                            && before[b].players@.contains((pings@[j].0, pings@[j].2));
                        if b == a {
                            let w = choose|w: int| 0 <= w < gp.len() && gp[w] == (pings@[j].0, pings@[j].2);
                            assert(out@[a as int].players@[w] == (pings@[j].0, pings@[j].2));
                        } else {
                            assert(out@[b] == before[b]);
                        }
                    }
                }
                assert forall|x: int, e: (i32, PingStats)|
                    0 <= x < out@.len() && #[trigger] out@[x].players@.contains(e) implies pings@.contains((e.0, out@[x].node_id, e.1)) by {
                    if x == a {
                        let w = choose|w: int| 0 <= w < out@[x].players@.len() && out@[x].players@[w] == e;
                        if w < gp.len() {
                            assert(gp[w] == e);
                            assert(before[x].players@.contains(e));
                        }
                    } else {
                        assert(out@[x] == before[x]);
                    }
                }
            }
        } else {
            let mut players: Vec<(i32, PingStats)> = Vec::new();
            players.push((p, st));
            out.push(NodePings { node_id: n, players });
            proof {
                let last = before.len() as int;
                assert(out@[last].players@[0] == (p, st));
                assert forall|x: int, y: int|
                    0 <= x < out@.len() && 0 <= y < out@.len() && x != y implies #[trigger] out@[x].node_id
                    != #[trigger] out@[y].node_id by {
                    if x < last && y < last {
                        assert(out@[x] == before[x]);
                        assert(out@[y] == before[y]);
                    } else if x < last {
                        assert(out@[x] == before[x]);
                    } else {
                        assert(out@[y] == before[y]);
                    }
                }
                assert forall|j: int| #![trigger pings@[j]] 0 <= j < k + 1 implies grouped(out@, pings@[j].0, pings@[j].1, pings@[j].2) by {
                    if j == k {
                        assert(out@[last].players@.contains((p, st)));
                        assert(out@[last].node_id == n);
                        assert(grouped(out@, p, n, st));
                    } else {
                        let b = choose|b: int| 0 <= b < before.len() && #[trigger] before[b].node_id == pings@[j].1
                            && before[b].players@.contains((pings@[j].0, pings@[j].2));
                        assert(out@[b] == before[b]);
                        assert(out@[b].players@.contains((pings@[j].0, pings@[j].2)));
                    }
                }
                assert forall|x: int, e: (i32, PingStats)|
                    0 <= x < out@.len() && #[trigger] out@[x].players@.contains(e) implies pings@.contains((e.0, out@[x].node_id, e.1)) by {
                    if x == last {
                        let w = choose|w: int| 0 <= w < out@[x].players@.len() && out@[x].players@[w] == e;
                        assert(w == 0);
                    } else {
                        assert(out@[x] == before[x]);
                    }
                }
            }
        }
        k = k + 1;
    }
    out
}

impl Lobby {
    pub open spec fn wf(&self) -> bool {
        lobby_wf(self@)
    }

    /// An empty lobby.
    pub fn new() -> (r: Lobby)
        ensures
            r.wf(),
            r@.players.len() == 0,
            r@.games.len() == 0,
    {
        let r = Lobby { players: Vec::new(), games: Vec::new() };
        assert(r@.players =~= Seq::<PlayerView>::empty());
        assert(r@.games =~= Seq::<GameView>::empty());
        r
    }

    fn find_player(&self, p: i32) -> (r: Option<usize>)
        ensures
            r matches Some(i) ==> i < self@.players.len() && self@.players[i as int].id == p,
            r is None ==> !has_player(self@, p),
    {
        let mut i: usize = 0;
        while i < self.players.len()
            invariant
                i <= self.players.len(),
                forall|k: int| 0 <= k < i ==> #[trigger] self@.players[k].id != p,
            decreases self.players.len() - i,
        {
            assert(self@.players[i as int] == self.players@[i as int]@);
            if self.players[i].id == p {
                return Some(i);
            }
            i = i + 1;
        }
        None
    }

    fn find_game(&self, g: i32) -> (r: Option<usize>)
        ensures
            r matches Some(j) ==> j < self@.games.len() && self@.games[j as int].id == g,
            r is None ==> !has_game(self@, g),
    {
        let mut j: usize = 0;
        while j < self.games.len()
            invariant
                j <= self.games.len(),
                forall|k: int| 0 <= k < j ==> #[trigger] self@.games[k].id != g,
            decreases self.games.len() - j,
        {
            assert(self@.games[j as int] == self.games@[j as int]@);
            if self.games[j].id() == g {
                return Some(j);
            }
            j = j + 1;
        }
        None
    }

    /// The game that player `p` joined, if any.
    pub fn joined_game_id(&self, p: i32) -> (r: Option<i32>)
        requires
            self.wf(),
        ensures
            r == joined_of(self@, p),
    {
        match self.find_player(p) {
            Some(i) => {
                proof {
                    let c = choose|c: int| 0 <= c < self@.players.len() && #[trigger] self@.players[c].id == p;
                    assert(c == i);
                }
                assert(self@.players[i as int] == self.players@[i as int]@);
                self.players[i].joined_game_id
            },
            None => None,
        }
    }

    /// The live connection of player `p`, if any.
    pub fn connection_of(&self, p: i32) -> (r: Option<u64>)
        requires
            self.wf(),
        ensures
            has_player(self@, p) ==> r == self@.players[choose|i: int|
                0 <= i < self@.players.len() && #[trigger] self@.players[i].id == p].connection,
            !has_player(self@, p) ==> r is None,
    {
        match self.find_player(p) {
            Some(i) => {
                proof {
                    let c = choose|c: int| 0 <= c < self@.players.len() && #[trigger] self@.players[c].id == p;
                    assert(c == i);
                }
                assert(self@.players[i as int] == self.players@[i as int]@);
                self.players[i].connection
            },
            None => None,
        }
    }

    /// The game with id `g`, if it exists.
    pub fn game(&self, g: i32) -> (r: Option<&Game>)
        requires
            self.wf(),
        ensures
            r matches Some(game) ==> game@.id == g && self@.games.contains(game@),
            r is None ==> !has_game(self@, g),
    {
        match self.find_game(g) {
            Some(j) => {
                assert(self@.games[j as int] == self.games@[j as int]@);
                Some(&self.games[j])
            },
            None => None,
        }
    }

    /// Makes sure that player `p` has a session, and returns its index.
    fn ensure_player(&mut self, p: i32) -> (r: usize)
        requires
            old(self).wf(),
        ensures
            final(self).wf(),
            r < final(self)@.players.len(),
            final(self)@.players[r as int].id == p,
            final(self)@.games == old(self)@.games,
            has_player(old(self)@, p) ==> final(self)@ == old(self)@,
            !has_player(old(self)@, p) ==> final(self)@.players == old(self)@.players.push(
                fresh_player(p, None),
            ),
    {
        match self.find_player(p) {
            Some(i) => i,
            None => {
                let ghost old_view = self@;
                self.players.push(
                    PlayerSession {
                        id: p,
                        connection: None,
                        joined_game_id: None,
                        ping_book: HashMap::new(),
                        ping_updated_at: 0,
                    },
                );
                proof {
                    let v = self@;
                    assert(v.players =~= old_view.players.push(fresh_player(p, None)));
                    assert(v.games =~= old_view.games);
                    assert forall|j: int, q: i32|
                        0 <= j < v.games.len() && #[trigger] seats_have(v.games[j].slots, q) implies exists|i: int|
                        0 <= i < v.players.len() && #[trigger] v.players[i].id == q by {
                        let i = choose|i: int| 0 <= i < old_view.players.len() && #[trigger] old_view.players[i].id == q;
                        assert(v.players[i].id == q);
                    }
                    assert forall|i: int|
                        #![trigger v.players[i]]
                        0 <= i < v.players.len() && v.players[i].joined is Some implies exists|j: int|
                        0 <= j < v.games.len() && #[trigger] v.games[j].id == v.players[i].joined->0 by {
                        assert(v.players[i] == old_view.players[i]);
                    }
                    assert forall|i: int, j: int|
                        0 <= i < v.players.len() && 0 <= j < v.games.len() implies (#[trigger] v.players[i].joined
                        == Some(#[trigger] v.games[j].id) <==> seats_have(v.games[j].slots, v.players[i].id)) by {
                        if i == old_view.players.len() {
                            if seats_have(v.games[j].slots, p) {
                                let k = choose|k: int| 0 <= k < old_view.players.len() && #[trigger] old_view.players[k].id == p;
                                assert(old_view.players[k].id == p);
                            }
                        } else {
                            assert(v.players[i] == old_view.players[i]);
                        }
                    }
                }
                self.players.len() - 1
            },
        }
    }

    /// Registers connection `conn` for player `p`, and returns the connection it displaces,
    /// which is to be told that another login took its place.
    pub fn connect(&mut self, p: i32, conn: u64) -> (r: Option<u64>)
        requires
            old(self).wf(),
        ensures
            final(self).wf(),
            final(self)@.games == old(self)@.games,
            has_player(final(self)@, p),
            has_player(old(self)@, p) ==> r == old(self)@.players[choose|i: int|
                0 <= i < old(self)@.players.len() && #[trigger] old(self)@.players[i].id == p].connection,
            !has_player(old(self)@, p) ==> r is None,
            forall|i: int|
                0 <= i < final(self)@.players.len() && #[trigger] final(self)@.players[i].id == p
                    ==> final(self)@.players[i].connection == Some(conn),
            joined_of(final(self)@, p) == joined_of(old(self)@, p),
    {
        let ghost old_view = self@;
        let i = self.ensure_player(p);
        let ghost mid = self@;
        proof {
            if has_player(old_view, p) {
                let c = choose|c: int| 0 <= c < old_view.players.len() && #[trigger] old_view.players[c].id == p;
                assert(c == i);
            }
        }
        assert(self@.players[i as int] == self.players@[i as int]@);
        let previous = self.players[i].connection;
        let mut s = self.players.remove(i);
        s.connection = Some(conn);
        self.players.insert(i, s);
        proof {
            let v = self@;
            assert(v.players =~= mid.players.update(i as int, PlayerView { connection: Some(conn), ..mid.players[i as int] }));
            assert(v.games =~= mid.games);
            assert forall|j: int, q: i32|
                0 <= j < v.games.len() && #[trigger] seats_have(v.games[j].slots, q) implies exists|k: int|
                0 <= k < v.players.len() && #[trigger] v.players[k].id == q by {
                let k = choose|k: int| 0 <= k < mid.players.len() && #[trigger] mid.players[k].id == q;
                assert(v.players[k].id == q);
            }
            assert forall|k: int| 0 <= k < v.players.len() && #[trigger] v.players[k].id == p implies v.players[k].connection
                == Some(conn) by {
                if k != i {
                    assert(mid.players[k].id == mid.players[i as int].id);
                }
            }
            assert(v.players[i as int].id == p);
            let c1 = choose|c: int| 0 <= c < v.players.len() && #[trigger] v.players[c].id == p;
            let c0 = choose|c: int| 0 <= c < mid.players.len() && #[trigger] mid.players[c].id == p;
            assert(c1 == i);
            assert(c0 == i);
            if has_player(old_view, p) {
                let c = choose|c: int| 0 <= c < old_view.players.len() && #[trigger] old_view.players[c].id == p;
                assert(c == i);
            } else {
                assert(mid.players[i as int].joined is None);
            }
        }
        previous
    }

    /// Sets the recorded game of the player at index `i`.
    fn set_joined(&mut self, i: usize, g: Option<i32>)
        requires
            i < old(self)@.players.len(),
        ensures
            final(self)@.games == old(self)@.games,
            final(self)@.players == old(self)@.players.update(
                i as int,
                PlayerView { joined: g, ..old(self)@.players[i as int] },
            ),
    {
        let ghost old_view = self@;
        let mut s = self.players.remove(i);
        s.joined_game_id = g;
        self.players.insert(i, s);
        assert(self@.players =~= old_view.players.update(
            i as int,
            PlayerView { joined: g, ..old_view.players[i as int] },
        ));
        assert(self@.games =~= old_view.games);
    }

    /// Player `p` joins game `g`, taking its first open seat.
    pub fn join_game(&mut self, g: i32, p: i32) -> (r: Result<JoinReply, GameError>)
        requires
            old(self).wf(),
        ensures
            final(self).wf(),
            match lobby_join_refusal(old(self)@, g, p) {
                Some(e) => r == Err::<JoinReply, GameError>(e) && final(self)@.games == old(self)@.games
                    && (forall|q: i32| joined_of(final(self)@, q) == joined_of(old(self)@, q)),
                None => r matches Ok(reply) && joined_of(final(self)@, p) == Some(g) && exists|j: int|
                    0 <= j < old(self)@.games.len() && old(self)@.games[j].id == g
                        && crate::game::is_first_open(old(self)@.games[j].slots, reply.slot_index as int)
                        && final(self)@.games == old(self)@.games.update(
                        j,
                        GameView {
                            slots: old(self)@.games[j].slots.update(
                                reply.slot_index as int,
                                taken_by(old(self)@.games[j].slots[reply.slot_index as int], p),
                            ),
                            ..old(self)@.games[j]
                        },
                    ) && reply.peers@ == ids_except(final(self)@.games[j].slots, p),
            },
    {
        let ghost old_view = self@;
        let i = self.ensure_player(p);
        let ghost mid = self@;
        proof {
            assert forall|q: i32| joined_of(mid, q) == joined_of(old_view, q) by {
                if has_player(old_view, q) {
                    let c = choose|c: int| 0 <= c < old_view.players.len() && #[trigger] old_view.players[c].id == q;
                    assert(mid.players[c].id == q);
                    let c2 = choose|c: int| 0 <= c < mid.players.len() && #[trigger] mid.players[c].id == q;
                    assert(c2 == c);
                } else if has_player(mid, q) {
                    let c2 = choose|c: int| 0 <= c < mid.players.len() && #[trigger] mid.players[c].id == q;
                    assert(c2 == mid.players.len() - 1);
                }
            }
            let c = choose|c: int| 0 <= c < mid.players.len() && #[trigger] mid.players[c].id == p;
            assert(c == i);
        }
        assert(self@.players[i as int] == self.players@[i as int]@);
        if self.players[i].joined_game_id.is_some() {
            return Err(GameError::MultiJoin);
        }
        let j = match self.find_game(g) {
            Some(j) => j,
            None => {
                return Err(GameError::GameNotFound);
            },
        };
        proof {
            let c = choose|c: int| 0 <= c < mid.games.len() && #[trigger] mid.games[c].id == g;
            assert(c == j);
            assert(!seats_have(mid.games[j as int].slots, p));
        }
        let mut game = self.games.remove(j);
        assert(game@ == mid.games[j as int]);
        let res = game.join(p);
        let peers = game.peer_ids(p);
        self.games.insert(j, game);
        assert(self@.games =~= mid.games.update(j as int, game@));
        assert(self@.players =~= mid.players);
        match res {
            Err(e) => {
                assert(self@.games =~= mid.games);
                Err(e)
            },
            Ok(idx) => {
                let ghost before = self@;
                self.set_joined(i, Some(g));
                proof {
                    let v = self@;
                    let gs = mid.games[j as int];
                    assert(gs.slots[idx as int].player_id is None);
                    assert forall|q: i32| seats_have(v.games[j as int].slots, q) <==> (seats_have(gs.slots, q) || q == p) by {
                        lemma_seat_taken(gs.slots, idx as int, p, q);
                    }
                    assert forall|a: int| 0 <= a < v.games.len() implies game_wf(#[trigger] v.games[a]) by {
                        if a != j {
                            assert(v.games[a] == mid.games[a]);
                        }
                    }
                    assert forall|a: int, q: i32|
                        0 <= a < v.games.len() && #[trigger] seats_have(v.games[a].slots, q) implies exists|k: int|
                        0 <= k < v.players.len() && #[trigger] v.players[k].id == q by {
                        if a == j && q == p {
                            assert(v.players[i as int].id == p);
                        } else {
                            if a != j {
                                assert(v.games[a] == mid.games[a]);
                                assert(seats_have(mid.games[a].slots, q));
                            } else {
                                assert(seats_have(v.games[j as int].slots, q));
                                assert(seats_have(gs.slots, q));
                                assert(seats_have(mid.games[a].slots, q));
                            }
                            let k = choose|k: int| 0 <= k < mid.players.len() && #[trigger] mid.players[k].id == q;
                            assert(v.players[k].id == q);
                        }
                    }
                    assert forall|k: int|
                        #![trigger v.players[k]]
                        0 <= k < v.players.len() && v.players[k].joined is Some implies exists|a: int|
                        0 <= a < v.games.len() && #[trigger] v.games[a].id == v.players[k].joined->0 by {
                        if k == i {
                            assert(v.games[j as int].id == g);
                        } else {
                            assert(v.players[k] == mid.players[k]);
                            let a = choose|a: int| 0 <= a < mid.games.len() && #[trigger] mid.games[a].id == mid.players[k].joined->0;
                            assert(v.games[a].id == mid.games[a].id);
                        }
                    }
                    assert forall|k: int, a: int|
                        0 <= k < v.players.len() && 0 <= a < v.games.len() implies (#[trigger] v.players[k].joined
                        == Some(#[trigger] v.games[a].id) <==> seats_have(v.games[a].slots, v.players[k].id)) by {
                        assert(v.games[a].id == mid.games[a].id);
                        if k == i {
                            if a != j {
                                assert(v.games[a] == mid.games[a]);
                                assert(mid.players[i as int].joined is None);
                            }
                        } else {
                            assert(v.players[k] == mid.players[k]);
                            assert(mid.players[k].id != p);
                            if a != j {
                                assert(v.games[a] == mid.games[a]);
                            }
                        }
                    }
                    let c = choose|c: int| 0 <= c < v.players.len() && #[trigger] v.players[c].id == p;
                    assert(c == i);
                }
                Ok(JoinReply { slot_index: idx, peers })
            },
        }
    }


    /// Clears the recorded game of every player whose id is in `ids`.
    fn detach(&mut self, ids: &Vec<i32>)
        requires
            forall|i: int, k: int|
                0 <= i < old(self)@.players.len() && 0 <= k < old(self)@.players.len() && i != k
                    ==> #[trigger] old(self)@.players[i].id != #[trigger] old(self)@.players[k].id,
        ensures
            final(self)@.games == old(self)@.games,
            final(self)@.players.len() == old(self)@.players.len(),
            forall|k: int|
                #![trigger final(self)@.players[k]]
                0 <= k < old(self)@.players.len() ==> final(self)@.players[k] == if ids@.contains(
                    old(self)@.players[k].id,
                ) {
                    PlayerView { joined: None, ..old(self)@.players[k] }
                } else {
                    old(self)@.players[k]
                },
    {
        let ghost base = self@;
        let mut m: usize = 0;
        while m < ids.len()
            invariant
                m <= ids.len(),
                forall|i: int, k: int|
                    0 <= i < base.players.len() && 0 <= k < base.players.len() && i != k
                        ==> #[trigger] base.players[i].id != #[trigger] base.players[k].id,
                self@.games == base.games,
                self@.players.len() == base.players.len(),
                forall|k: int|
                    #![trigger self@.players[k]]
                    0 <= k < base.players.len() ==> self@.players[k] == if ids@.subrange(
                        0,
                        m as int,
                    ).contains(base.players[k].id) {
                        PlayerView { joined: None, ..base.players[k] }
                    } else {
                        base.players[k]
                    },
            decreases ids.len() - m,
        {
            let q = ids[m];
            let ghost prev = self@;
            assert(ids@.subrange(0, m + 1) =~= ids@.subrange(0, m as int).push(q));
            match self.find_player(q) {
                Some(k) => {
                    self.set_joined(k, None);
                    assert(prev.players[k as int].id == base.players[k as int].id);
                    assert forall|a: int|
                        #![trigger self@.players[a]]
                        0 <= a < base.players.len() implies self@.players[a] == if ids@.subrange(
                            0,
                            m + 1,
                        ).contains(base.players[a].id) {
                            PlayerView { joined: None, ..base.players[a] }
                        } else {
                            base.players[a]
                        } by {
                        assert(prev.players[a] == if ids@.subrange(0, m as int).contains(base.players[a].id) {
                            PlayerView { joined: None, ..base.players[a] }
                        } else {
                            base.players[a]
                        });
                        if ids@.subrange(0, m as int).push(q).contains(base.players[a].id) {
                            if base.players[a].id != q {
                                let w = choose|w: int| 0 <= w < m + 1 && ids@.subrange(0, m as int).push(q)[w] == base.players[a].id;
                                assert(ids@.subrange(0, m as int)[w] == base.players[a].id);
                            }
                        } else {
                            if ids@.subrange(0, m as int).contains(base.players[a].id) {
                                let w = choose|w: int| 0 <= w < m && ids@.subrange(0, m as int)[w] == base.players[a].id;
                                assert(ids@.subrange(0, m as int).push(q)[w] == base.players[a].id);
                            }
                            assert(ids@.subrange(0, m as int).push(q)[m as int] == q);
                        }
                    }
                },
                None => {
                    assert forall|a: int|
                        #![trigger self@.players[a]]
                        0 <= a < base.players.len() implies self@.players[a] == if ids@.subrange(
                            0,
                            m + 1,
                        ).contains(base.players[a].id) {
                            PlayerView { joined: None, ..base.players[a] }
                        } else {
                            base.players[a]
                        } by {
                        assert(self@.players[a].id == base.players[a].id);
                        assert(self@.players[a].id != q);
                        if ids@.subrange(0, m as int).push(q).contains(base.players[a].id) {
                            let w = choose|w: int| 0 <= w < m + 1 && ids@.subrange(0, m as int).push(q)[w] == base.players[a].id;
                            assert(ids@.subrange(0, m as int)[w] == base.players[a].id);
                        } else if ids@.subrange(0, m as int).contains(base.players[a].id) {
                            let w = choose|w: int| 0 <= w < m && ids@.subrange(0, m as int)[w] == base.players[a].id;
                            assert(ids@.subrange(0, m as int).push(q)[w] == base.players[a].id);
                        }
                    }
                },
            }
            m = m + 1;
        }
        assert(ids@.subrange(0, ids.len() as int) =~= ids@);
    }

    /// Player `p` leaves the game they joined. When they were its host or its last player,
    /// the game ends and every other player is detached from it.
    pub fn leave_game(&mut self, p: i32) -> (r: Result<Option<LeaveReply>, GameError>)
        requires
            old(self).wf(),
        ensures
            final(self).wf(),
            joined_of(old(self)@, p) is None ==> r == Ok::<Option<LeaveReply>, GameError>(None)
                && final(self)@ == old(self)@,
            joined_of(old(self)@, p) matches Some(g) ==> has_game(old(self)@, g) && match crate::game::leave_refusal(game_of(old(self)@, g), p) {
                Some(e) => r == Err::<Option<LeaveReply>, GameError>(e) && final(self)@ == old(self)@,
                None => r matches Ok(Some(reply)) && reply.game_id == g && joined_of(final(self)@, p)
                    is None && reply.others@ == ids_except(game_of(old(self)@, g).slots, p)
                    && reply.game_ended == (game_of(old(self)@, g).host == Some(p)
                    || reply.others@.len() == 0) && (reply.game_ended ==> game_of(final(self)@, g).status == GameStatus::Ended
                    && game_of(final(self)@, g) == (GameView {
                        slots: game_of(old(self)@, g).slots.map_values(|s: crate::game::Slot| cleared(s)),
                        status: GameStatus::Ended,
                        host: None,
                        ..game_of(old(self)@, g)
                    })
                    && forall|q: i32| #[trigger] reply.others@.contains(q) ==> joined_of(final(self)@, q) is None)
                    && (!reply.game_ended ==> !seats_have(game_of(final(self)@, g).slots, p)
                    && (exists|x: int|
                        0 <= x < game_of(old(self)@, g).slots.len() && game_of(old(self)@, g).slots[x].player_id == Some(p)
                            && game_of(final(self)@, g) == (GameView {
                            slots: game_of(old(self)@, g).slots.update(x, cleared(game_of(old(self)@, g).slots[x])),
                            ..game_of(old(self)@, g)
                        }))
                    && forall|q: i32| q != p ==> #[trigger] joined_of(final(self)@, q) == joined_of(old(self)@, q))
                    && final(self)@.games.len() == old(self)@.games.len()
                    && forall|j: int| 0 <= j < old(self)@.games.len() && old(self)@.games[j].id != g
                        ==> #[trigger] final(self)@.games[j] == old(self)@.games[j],
            },
    {
        let ghost old_view = self@;
        let i = match self.find_player(p) {
            Some(i) => i,
            None => {
                return Ok(None);
            },
        };
        proof {
            let c = choose|c: int| 0 <= c < old_view.players.len() && #[trigger] old_view.players[c].id == p;
            assert(c == i);
        }
        assert(self@.players[i as int] == self.players@[i as int]@);
        let g = match self.players[i].joined_game_id {
            Some(g) => g,
            None => {
                return Ok(None);
            },
        };
        let j = match self.find_game(g) {
            Some(j) => j,
            None => {
                return Err(GameError::GameNotFound);
            },
        };
        proof {
            let c = choose|c: int| 0 <= c < old_view.games.len() && #[trigger] old_view.games[c].id == g;
            assert(c == j);
            assert(seats_have(old_view.games[j as int].slots, p));
        }
        let mut game = self.games.remove(j);
        assert(game@ == old_view.games[j as int]);
        let res = game.leave(p);
        self.games.insert(j, game);
        assert(self@.players =~= old_view.players);
        let ghost gv = old_view.games[j as int];
        let ghost ng = game@;
        match res {
            Err(e) => {
                assert(self@.games =~= old_view.games);
                Err(e)
            },
            Ok(o) => {
                self.set_joined(i, None);
                let ghost mid = self@;
                assert(mid.games =~= old_view.games.update(j as int, ng));
                if o.game_ended {
                    self.detach(&o.others);
                }
                proof {
                    let v = self@;
                    lemma_leave_wf(old_view, v, i as int, j as int, p, g, ng, o.game_ended, o.others@);
                }
                Ok(Some(LeaveReply { game_id: g, game_ended: o.game_ended, others: o.others }))
            },
        }
    }


    /// Takes game `j` out, leaving the lobby's games otherwise as they were.
    fn game_index(&self, g: i32) -> (r: Option<usize>)
        requires
            self.wf(),
        ensures
            r matches Some(j) ==> j < self@.games.len() && self@.games[j as int].id == g && game_of(self@, g) == self@.games[j as int],
            r is None ==> !has_game(self@, g),
    {
        let r = self.find_game(g);
        proof {
            if let Some(j) = r {
                let c = choose|c: int| 0 <= c < self@.games.len() && #[trigger] self@.games[c].id == g;
                assert(c == j);
            }
        }
        r
    }

    /// Player `host` creates game `g` with `num_slots` seats and takes its first seat.
    pub fn create_game(&mut self, g: i32, host: i32, num_slots: usize) -> (r: Result<(), GameError>)
        requires
            old(self).wf(),
            1 <= num_slots <= i32::MAX,
        ensures
            final(self).wf(),
            joined_of(old(self)@, host) is Some ==> r == Err::<(), GameError>(GameError::MultiJoin)
                && final(self)@.games == old(self)@.games,
            joined_of(old(self)@, host) is None && has_game(old(self)@, g) ==> r == Err::<(), GameError>(GameError::GameExists)
                && final(self)@.games == old(self)@.games,
            joined_of(old(self)@, host) is None && !has_game(old(self)@, g) ==> r is Ok
                && joined_of(final(self)@, host) == Some(g) && final(self)@.games.len() == old(self)@.games.len() + 1
                && final(self)@.games.drop_last() == old(self)@.games && final(self)@.games.last().id == g
                && final(self)@.games.last().host == Some(host)
                && final(self)@.games.last().status == GameStatus::Preparing
                && final(self)@.games.last().slots == crate::game::initial_slots(num_slots as nat, host),
    {
        let ghost old_view = self@;
        let i = self.ensure_player(host);
        let ghost mid = self@;
        proof {
            let c = choose|c: int| 0 <= c < mid.players.len() && #[trigger] mid.players[c].id == host;
            assert(c == i);
            if has_player(old_view, host) {
                let c0 = choose|c: int| 0 <= c < old_view.players.len() && #[trigger] old_view.players[c].id == host;
                assert(c0 == i);
            } else {
                assert(mid.players[i as int].joined is None);
            }
        }
        assert(self@.players[i as int] == self.players@[i as int]@);
        if self.players[i].joined_game_id.is_some() {
            return Err(GameError::MultiJoin);
        }
        if self.find_game(g).is_some() {
            return Err(GameError::GameExists);
        }
        let game = Game::new(g, host, num_slots);
        let ghost ng = game@;
        self.games.push(game);
        assert(self@.games =~= mid.games.push(ng));
        assert(self@.players =~= mid.players);
        self.set_joined(i, Some(g));
        proof {
            let v = self@;
            let last = mid.games.len() as int;
            assert(v.games[last] == ng);
            assert(ng.slots[0].player_id == Some(host));
            assert forall|q: i32| #[trigger] seats_have(ng.slots, q) <==> q == host by {
                if seats_have(ng.slots, q) {
                    let x = choose|x: int| 0 <= x < ng.slots.len() && #[trigger] ng.slots[x].player_id == Some(q);
                    assert(x == 0);
                }
            }
            assert forall|a: int| 0 <= a < v.games.len() implies game_wf(#[trigger] v.games[a]) by {
                if a != last {
                    assert(v.games[a] == mid.games[a]);
                }
            }
            assert forall|a: int, b: int|
                0 <= a < v.games.len() && 0 <= b < v.games.len() && a != b implies #[trigger] v.games[a].id
                != #[trigger] v.games[b].id by {
                if a != last && b != last {
                    assert(v.games[a] == mid.games[a]);
                    assert(v.games[b] == mid.games[b]);
                } else if a == last {
                    assert(v.games[b] == mid.games[b]);
                } else {
                    assert(v.games[a] == mid.games[a]);
                }
            }
            assert forall|a: int, q: i32|
                0 <= a < v.games.len() && #[trigger] seats_have(v.games[a].slots, q) implies exists|k: int|
                0 <= k < v.players.len() && #[trigger] v.players[k].id == q by {
                if a == last {
                    assert(v.players[i as int].id == host);
                } else {
                    assert(v.games[a] == mid.games[a]);
                    let k = choose|k: int| 0 <= k < mid.players.len() && #[trigger] mid.players[k].id == q;
                    assert(v.players[k].id == q);
                }
            }
            assert forall|k: int|
                #![trigger v.players[k]]
                0 <= k < v.players.len() && v.players[k].joined is Some implies exists|a: int|
                0 <= a < v.games.len() && #[trigger] v.games[a].id == v.players[k].joined->0 by {
                if k == i {
                    assert(v.games[last].id == g);
                } else {
                    assert(v.players[k] == mid.players[k]);
                    let a = choose|a: int| 0 <= a < mid.games.len() && #[trigger] mid.games[a].id == mid.players[k].joined->0;
                    assert(v.games[a] == mid.games[a]);
                }
            }
            assert forall|k: int, a: int|
                0 <= k < v.players.len() && 0 <= a < v.games.len() implies (#[trigger] v.players[k].joined
                == Some(#[trigger] v.games[a].id) <==> seats_have(v.games[a].slots, v.players[k].id)) by {
                if a == last {
                    if k != i {
                        assert(v.players[k] == mid.players[k]);
                        assert(mid.players[k].id != host);
                        if mid.players[k].joined == Some(g) {
                            let b = choose|b: int| 0 <= b < mid.games.len() && #[trigger] mid.games[b].id == g;
                            assert(has_game(mid, g));
                        }
                    }
                } else {
                    assert(v.games[a] == mid.games[a]);
                    if k == i {
                        assert(mid.games[a].id != g);
                        assert(!seats_have(mid.games[a].slots, host));
                    } else {
                        assert(v.players[k] == mid.players[k]);
                    }
                }
            }
            let c = choose|c: int| 0 <= c < v.players.len() && #[trigger] v.players[c].id == host;
            assert(v.players[i as int].id == host);
            if c != i {
                assert(mid.players[c].id == mid.players[i as int].id);
            }
            assert(v.games.drop_last() =~= old_view.games);
        }
        Ok(())
    }

    /// The node reports that game `g` is over: it ends, and every player who sat in it is
    /// detached and returned.
    pub fn end_game(&mut self, g: i32) -> (r: Option<Vec<i32>>)
        requires
            old(self).wf(),
        ensures
            final(self).wf(),
            has_game(old(self)@, g) && game_of(old(self)@, g).status == GameStatus::Created ==> (r matches Some(ids)
                && ids@ == occupied_ids(game_of(old(self)@, g).slots)
                && game_of(final(self)@, g).status == GameStatus::Ended
                && forall|q: i32| #[trigger] ids@.contains(q) ==> joined_of(final(self)@, q) is None),
            !(has_game(old(self)@, g) && game_of(old(self)@, g).status == GameStatus::Created) ==> (r is None
                && final(self)@ == old(self)@),
    {
        let ghost old_view = self@;
        let j = match self.game_index(g) {
            Some(j) => j,
            None => {
                return None;
            },
        };
        let mut game = self.games.remove(j);
        assert(game@ == old_view.games[j as int]);
        let res = game.end();
        let ghost ng = game@;
        self.games.insert(j, game);
        assert(self@.games =~= old_view.games.update(j as int, ng));
        assert(self@.players =~= old_view.players);
        match res {
            None => {
                assert(self@.games =~= old_view.games);
                None
            },
            Some(ids) => {
                self.detach(&ids);
                proof {
                    lemma_end_wf(old_view, self@, j as int, ng, ids@);
                    let cg = choose|c: int| 0 <= c < self@.games.len() && #[trigger] self@.games[c].id == g;
                    assert(self@.games[j as int].id == g);
                    if cg != j {
                        assert(old_view.games[cg].id == old_view.games[j as int].id);
                    }
                }
                Some(ids)
            },
        }
    }

    /// Connection `conn` of player `p` closed. The player's connection is cleared when it is
    /// still that one; a player who is then in no game is forgotten. Returns whether the
    /// connection was cleared.
    pub fn disconnect(&mut self, p: i32, conn: u64) -> (r: bool)
        requires
            old(self).wf(),
        ensures
            final(self).wf(),
            final(self)@.games == old(self)@.games,
            forall|q: i32| #[trigger] joined_of(final(self)@, q) == joined_of(old(self)@, q),
            r == (has_player(old(self)@, p) && old(self)@.players[choose|i: int|
                0 <= i < old(self)@.players.len() && #[trigger] old(self)@.players[i].id == p].connection == Some(conn)),
            !r ==> final(self)@ == old(self)@,
            r ==> forall|i: int| 0 <= i < final(self)@.players.len() && #[trigger] final(self)@.players[i].id == p
                ==> final(self)@.players[i].connection is None,
            r && joined_of(old(self)@, p) is None ==> !has_player(final(self)@, p),
    {
        let ghost old_view = self@;
        let i = match self.find_player(p) {
            Some(i) => i,
            None => {
                return false;
            },
        };
        proof {
            let c = choose|c: int| 0 <= c < old_view.players.len() && #[trigger] old_view.players[c].id == p;
            assert(c == i);
        }
        assert(self@.players[i as int] == self.players@[i as int]@);
        if self.players[i].connection != Some(conn) {
            return false;
        }
        if self.players[i].joined_game_id.is_some() {
            let mut s = self.players.remove(i);
            s.connection = None;
            self.players.insert(i, s);
            proof {
                let v = self@;
                assert(v.players =~= old_view.players.update(i as int, PlayerView { connection: None, ..old_view.players[i as int] }));
                assert(v.games =~= old_view.games);
                assert forall|a: int, q: i32|
                    0 <= a < v.games.len() && #[trigger] seats_have(v.games[a].slots, q) implies exists|k: int|
                    0 <= k < v.players.len() && #[trigger] v.players[k].id == q by {
                    let k = choose|k: int| 0 <= k < old_view.players.len() && #[trigger] old_view.players[k].id == q;
                    assert(v.players[k].id == q);
                }
                assert forall|q: i32| #[trigger] joined_of(v, q) == joined_of(old_view, q) by {
                    if has_player(old_view, q) {
                        let k = choose|k: int| 0 <= k < old_view.players.len() && #[trigger] old_view.players[k].id == q;
                        assert(v.players[k].id == q);
                        let k2 = choose|k: int| 0 <= k < v.players.len() && #[trigger] v.players[k].id == q;
                        assert(old_view.players[k2].id == q);
                    }
                }
                assert forall|k: int| 0 <= k < v.players.len() && #[trigger] v.players[k].id == p
                    implies v.players[k].connection is None by {
                    if k != i {
                        assert(old_view.players[k].id == old_view.players[i as int].id);
                    }
                }
            }
        } else {
            let _ = self.players.remove(i);
            proof {
                let v = self@;
                assert(v.players =~= old_view.players.remove(i as int));
                assert(v.games =~= old_view.games);
                assert forall|a: int| 0 <= a < v.games.len() implies !seats_have(#[trigger] v.games[a].slots, p) by {
                    assert(old_view.players[i as int].joined != Some(old_view.games[a].id));
                }
                assert forall|a: int, q: i32|
                    0 <= a < v.games.len() && #[trigger] seats_have(v.games[a].slots, q) implies exists|k: int|
                    0 <= k < v.players.len() && #[trigger] v.players[k].id == q by {
                    let k = choose|k: int| 0 <= k < old_view.players.len() && #[trigger] old_view.players[k].id == q;
                    assert(k != i);
                    if k < i {
                        assert(v.players[k].id == q);
                    } else {
                        assert(v.players[k - 1].id == q);
                    }
                }
                assert forall|k: int|
                    #![trigger v.players[k]]
                    0 <= k < v.players.len() && v.players[k].joined is Some implies exists|a: int|
                    0 <= a < v.games.len() && #[trigger] v.games[a].id == v.players[k].joined->0 by {
                    if k < i {
                        assert(v.players[k] == old_view.players[k]);
                    } else {
                        assert(v.players[k] == old_view.players[k + 1]);
                    }
                }
                assert forall|k: int, a: int|
                    0 <= k < v.players.len() && 0 <= a < v.games.len() implies (#[trigger] v.players[k].joined
                    == Some(#[trigger] v.games[a].id) <==> seats_have(v.games[a].slots, v.players[k].id)) by {
                    if k < i {
                        assert(v.players[k] == old_view.players[k]);
                    } else {
                        assert(v.players[k] == old_view.players[k + 1]);
                    }
                }
                assert forall|k: int, l: int|
                    0 <= k < v.players.len() && 0 <= l < v.players.len() && k != l implies #[trigger] v.players[k].id
                    != #[trigger] v.players[l].id by {
                    let k0 = if k < i { k } else { k + 1 };
                    let l0 = if l < i { l } else { l + 1 };
                    assert(v.players[k] == old_view.players[k0]);
                    assert(v.players[l] == old_view.players[l0]);
                }
                assert forall|q: i32| #[trigger] joined_of(v, q) == joined_of(old_view, q) by {
                    if has_player(old_view, q) {
                        let k = choose|k: int| 0 <= k < old_view.players.len() && #[trigger] old_view.players[k].id == q;
                        if k != i {
                            let k1 = if k < i { k } else { k - 1 };
                            assert(v.players[k1].id == q);
                            let k2 = choose|k: int| 0 <= k < v.players.len() && #[trigger] v.players[k].id == q;
                            let k3 = if k2 < i { k2 } else { k2 + 1 };
                            assert(old_view.players[k3].id == q);
                        } else {
                            if has_player(v, q) {
                                let k2 = choose|k: int| 0 <= k < v.players.len() && #[trigger] v.players[k].id == q;
                                let k3 = if k2 < i { k2 } else { k2 + 1 };
                                assert(old_view.players[k3].id == q);
                            }
                        }
                    } else if has_player(v, q) {
                        let k2 = choose|k: int| 0 <= k < v.players.len() && #[trigger] v.players[k].id == q;
                        let k3 = if k2 < i { k2 } else { k2 + 1 };
                        assert(old_view.players[k3].id == q);
                    }
                }
                if has_player(v, p) {
                    let k2 = choose|k: int| 0 <= k < v.players.len() && #[trigger] v.players[k].id == p;
                    let k3 = if k2 < i { k2 } else { k2 + 1 };
                    assert(old_view.players[k3].id == p);
                }
            }
        }
        true
    }


    /// The seated players of game `g`, in seat order.
    pub fn game_player_ids(&self, g: i32) -> (r: Option<Vec<i32>>)
        requires
            self.wf(),
        ensures
            has_game(self@, g) ==> (r matches Some(ids) && ids@ == occupied_ids(game_of(self@, g).slots)),
            !has_game(self@, g) ==> r is None,
    {
        match self.game_index(g) {
            Some(j) => {
                assert(self@.games[j as int] == self.games@[j as int]@);
                Some(self.games[j].player_ids())
            },
            None => None,
        }
    }

    /// Player `p` changes seat `index` of game `g`; returns the seat's settings and the
    /// players to tell.
    pub fn update_game_slot_settings(&mut self, g: i32, p: i32, index: usize, settings: crate::game::SlotSettings) -> (r: Result<
        (crate::game::SlotSettings, Vec<i32>),
        GameError,
    >)
        requires
            old(self).wf(),
        ensures
            final(self).wf(),
            forall|q: i32| #[trigger] joined_of(final(self)@, q) == joined_of(old(self)@, q),
            !has_game(old(self)@, g) ==> r == Err::<(crate::game::SlotSettings, Vec<i32>), GameError>(GameError::GameNotFound)
                && final(self)@ == old(self)@,
            has_game(old(self)@, g) ==> match crate::game::update_slot_refusal(game_of(old(self)@, g), p, index as int, settings) {
                Some(e) => r == Err::<(crate::game::SlotSettings, Vec<i32>), GameError>(e) && final(self)@ == old(self)@,
                None => r matches Ok((stored, ids)) && stored == crate::game::stored_settings(game_of(old(self)@, g), p, index as int, settings)
                    && ids@ == occupied_ids(game_of(old(self)@, g).slots)
                    && game_of(final(self)@, g) == (GameView {
                    slots: game_of(old(self)@, g).slots.update(
                        index as int,
                        crate::game::Slot { player_id: game_of(old(self)@, g).slots[index as int].player_id, settings: stored },
                    ),
                    ..game_of(old(self)@, g)
                }),
            },
    {
        let ghost old_view = self@;
        let j = match self.game_index(g) {
            Some(j) => j,
            None => {
                return Err(GameError::GameNotFound);
            },
        };
        let mut game = self.games.remove(j);
        assert(game@ == old_view.games[j as int]);
        let ids = game.player_ids();
        let res = game.update_slot(p, index, settings);
        let ghost ng = game@;
        self.games.insert(j, game);
        assert(self@.games =~= old_view.games.update(j as int, ng));
        assert(self@.players =~= old_view.players);
        proof {
            let gv = old_view.games[j as int];
            if res is Ok {
                assert forall|q: i32| #[trigger] seats_have(ng.slots, q) == seats_have(gv.slots, q) by {
                    if seats_have(ng.slots, q) {
                        let x = choose|x: int| 0 <= x < ng.slots.len() && #[trigger] ng.slots[x].player_id == Some(q);
                        assert(gv.slots[x].player_id == Some(q));
                    }
                    if seats_have(gv.slots, q) {
                        let x = choose|x: int| 0 <= x < gv.slots.len() && #[trigger] gv.slots[x].player_id == Some(q);
                        assert(ng.slots[x].player_id == Some(q));
                    }
                }
                assert(ng.slots =~= gv.slots.update(index as int, ng.slots[index as int]));
            } else {
                assert(ng == gv);
            }
            lemma_same_seats_wf(old_view, j as int, ng);
            assert(self@ == LobbyView { games: old_view.games.update(j as int, ng), ..old_view });
            if res is Err {
                assert(self@.games =~= old_view.games);
            }
        }
        match res {
            Ok(stored) => Ok((stored, ids)),
            Err(e) => Err(e),
        }
    }

    /// The host of game `g` selects a node; returns the players to tell.
    pub fn select_game_node(&mut self, g: i32, p: i32, node_id: Option<i32>) -> (r: Result<Vec<i32>, GameError>)
        requires
            old(self).wf(),
        ensures
            final(self).wf(),
            forall|q: i32| #[trigger] joined_of(final(self)@, q) == joined_of(old(self)@, q),
            !has_game(old(self)@, g) ==> r == Err::<Vec<i32>, GameError>(GameError::GameNotFound) && final(self)@ == old(self)@,
            has_game(old(self)@, g) ==> match crate::game::select_node_refusal(game_of(old(self)@, g), p, node_id) {
                Some(e) => r == Err::<Vec<i32>, GameError>(e) && final(self)@ == old(self)@,
                None => r matches Ok(ids) && ids@ == occupied_ids(game_of(old(self)@, g).slots)
                    && game_of(final(self)@, g) == (GameView { node: node_id, ..game_of(old(self)@, g) }),
            },
    {
        let ghost old_view = self@;
        let j = match self.game_index(g) {
            Some(j) => j,
            None => {
                return Err(GameError::GameNotFound);
            },
        };
        let mut game = self.games.remove(j);
        assert(game@ == old_view.games[j as int]);
        let res = game.select_node(p, node_id);
        let ids = game.player_ids();
        let ghost ng = game@;
        self.games.insert(j, game);
        assert(self@.games =~= old_view.games.update(j as int, ng));
        assert(self@.players =~= old_view.players);
        proof {
            lemma_same_seats_wf(old_view, j as int, ng);
            assert(self@ == LobbyView { games: old_view.games.update(j as int, ng), ..old_view });
            if res is Err {
                assert(self@.games =~= old_view.games);
            }
        }
        match res {
            Ok(()) => Ok(ids),
            Err(e) => Err(e),
        }
    }

    /// The host of game `g` starts it; returns the players to tell.
    pub fn start_game(&mut self, g: i32, p: i32) -> (r: Result<Vec<i32>, GameError>)
        requires
            old(self).wf(),
        ensures
            final(self).wf(),
            forall|q: i32| #[trigger] joined_of(final(self)@, q) == joined_of(old(self)@, q),
            !has_game(old(self)@, g) ==> r == Err::<Vec<i32>, GameError>(GameError::GameNotFound) && final(self)@ == old(self)@,
            has_game(old(self)@, g) ==> match crate::game::start_refusal(game_of(old(self)@, g), p) {
                Some(e) => r == Err::<Vec<i32>, GameError>(e) && final(self)@ == old(self)@,
                None => r matches Ok(ids) && ids@ == occupied_ids(game_of(old(self)@, g).slots)
                    && game_of(final(self)@, g) == (GameView { status: GameStatus::Starting, ..game_of(old(self)@, g) }),
            },
    {
        let ghost old_view = self@;
        let j = match self.game_index(g) {
            Some(j) => j,
            None => {
                return Err(GameError::GameNotFound);
            },
        };
        let mut game = self.games.remove(j);
        assert(game@ == old_view.games[j as int]);
        let res = game.start(p);
        let ids = game.player_ids();
        let ghost ng = game@;
        self.games.insert(j, game);
        assert(self@.games =~= old_view.games.update(j as int, ng));
        assert(self@.players =~= old_view.players);
        proof {
            lemma_same_seats_wf(old_view, j as int, ng);
            assert(self@ == LobbyView { games: old_view.games.update(j as int, ng), ..old_view });
            if res is Err {
                assert(self@.games =~= old_view.games);
            }
        }
        match res {
            Ok(()) => Ok(ids),
            Err(e) => Err(e),
        }
    }

    /// Player `p` acknowledges the start of game `g` with their game version and map hash.
    pub fn start_ack(&mut self, g: i32, p: i32, war3_version: String, map_sha1: Vec<u8>) -> (r: Result<crate::game::AckOutcome, GameError>)
        requires
            old(self).wf(),
        ensures
            final(self).wf(),
            forall|q: i32| #[trigger] joined_of(final(self)@, q) == joined_of(old(self)@, q),
            !has_game(old(self)@, g) ==> r is Err && final(self)@ == old(self)@,
            has_game(old(self)@, g) ==> ({
                let gv = game_of(old(self)@, g);
                let v = crate::game::ClientInfoView { player_id: p, war3_version: war3_version@, map_sha1: map_sha1@ };
                let acks = crate::game::record_ack(gv.acks, v);
                &&& r matches Ok(o)
                &&& game_of(final(self)@, g) == crate::game::ack_next(gv, p, v)
                &&& (o is Ignored <==> !crate::game::ack_accepted(gv, p))
                &&& (o is Pending <==> crate::game::ack_accepted(gv, p) && !crate::game::all_acked(gv.slots, acks))
                &&& (o is CreateGame <==> crate::game::ack_accepted(gv, p) && crate::game::all_acked(gv.slots, acks) && crate::game::acks_agree(acks))
                &&& (o matches crate::game::AckOutcome::Rejected(list) ==> list@.map_values(|a: crate::game::ClientInfo| a@) == acks)
            }),
    {
        let ghost old_view = self@;
        let j = match self.game_index(g) {
            Some(j) => j,
            None => {
                return Err(GameError::GameNotFound);
            },
        };
        let mut game = self.games.remove(j);
        assert(game@ == old_view.games[j as int]);
        let res = game.ack(p, war3_version, map_sha1);
        let ghost ng = game@;
        self.games.insert(j, game);
        assert(self@.games =~= old_view.games.update(j as int, ng));
        assert(self@.players =~= old_view.players);
        proof {
            lemma_same_seats_wf(old_view, j as int, ng);
            assert(self@ == LobbyView { games: old_view.games.update(j as int, ng), ..old_view });
        }
        Ok(res)
    }

    /// The start deadline of game `g` passed. When acknowledgements were still missing, the
    /// start is called off; returns the acknowledgements received and the players to tell.
    pub fn start_game_set_timeout(&mut self, g: i32) -> (r: Option<(Vec<crate::game::ClientInfo>, Vec<i32>)>)
        requires
            old(self).wf(),
        ensures
            final(self).wf(),
            forall|q: i32| #[trigger] joined_of(final(self)@, q) == joined_of(old(self)@, q),
            (has_game(old(self)@, g) && game_of(old(self)@, g).status == GameStatus::Starting
                && !game_of(old(self)@, g).create_requested) ==> (r matches Some((list, ids))
                && list@.map_values(|a: crate::game::ClientInfo| a@) == game_of(old(self)@, g).acks
                && ids@ == occupied_ids(game_of(old(self)@, g).slots)
                && game_of(final(self)@, g) == crate::game::reset_start(game_of(old(self)@, g))),
            !(has_game(old(self)@, g) && game_of(old(self)@, g).status == GameStatus::Starting
                && !game_of(old(self)@, g).create_requested) ==> r is None && final(self)@ == old(self)@,
    {
        let ghost old_view = self@;
        let j = match self.game_index(g) {
            Some(j) => j,
            None => {
                return None;
            },
        };
        let mut game = self.games.remove(j);
        assert(game@ == old_view.games[j as int]);
        let res = game.start_timeout();
        let ids = game.player_ids();
        let ghost ng = game@;
        self.games.insert(j, game);
        assert(self@.games =~= old_view.games.update(j as int, ng));
        assert(self@.players =~= old_view.players);
        proof {
            lemma_same_seats_wf(old_view, j as int, ng);
            assert(self@ == LobbyView { games: old_view.games.update(j as int, ng), ..old_view });
            if res is None {
                assert(self@.games =~= old_view.games);
            }
        }
        match res {
            Some(list) => Some((list, ids)),
            None => None,
        }
    }

    /// Calls off the start of game `g` on an internal failure, whatever state it is in;
    /// returns the acknowledgements received and the players to tell. `GameNotFound` when
    /// the game is missing or ended.
    pub fn start_game_abort(&mut self, g: i32) -> (r: Result<(Vec<crate::game::ClientInfo>, Vec<i32>), GameError>)
        requires
            old(self).wf(),
        ensures
            final(self).wf(),
            forall|q: i32| #[trigger] joined_of(final(self)@, q) == joined_of(old(self)@, q),
            (has_game(old(self)@, g) && game_of(old(self)@, g).status != GameStatus::Ended) ==> (r matches Ok((list, ids))
                && list@.map_values(|a: crate::game::ClientInfo| a@) == game_of(old(self)@, g).acks
                && ids@ == occupied_ids(game_of(old(self)@, g).slots)
                && game_of(final(self)@, g) == crate::game::reset_start(game_of(old(self)@, g))),
            !(has_game(old(self)@, g) && game_of(old(self)@, g).status != GameStatus::Ended) ==> r
                == Err::<(Vec<crate::game::ClientInfo>, Vec<i32>), GameError>(GameError::GameNotFound) && final(self)@ == old(self)@,
    {
        let ghost old_view = self@;
        let j = match self.game_index(g) {
            Some(j) => j,
            None => {
                return Err(GameError::GameNotFound);
            },
        };
        let mut game = self.games.remove(j);
        assert(game@ == old_view.games[j as int]);
        let ids = game.player_ids();
        let res = game.start_abort();
        let ghost ng = game@;
        self.games.insert(j, game);
        assert(self@.games =~= old_view.games.update(j as int, ng));
        assert(self@.players =~= old_view.players);
        proof {
            lemma_same_seats_wf(old_view, j as int, ng);
            assert(self@ == LobbyView { games: old_view.games.update(j as int, ng), ..old_view });
            if res is None {
                assert(self@.games =~= old_view.games);
            }
        }
        match res {
            Some(list) => Ok((list, ids)),
            None => Err(GameError::GameNotFound),
        }
    }

    /// The node answered the create request of game `g` with `tokens`.
    pub fn node_created(&mut self, g: i32, tokens: Vec<crate::game::PlayerToken>) -> (r: crate::game::CreateOutcome)
        requires
            old(self).wf(),
        ensures
            final(self).wf(),
            forall|q: i32| #[trigger] joined_of(final(self)@, q) == joined_of(old(self)@, q),
            !has_game(old(self)@, g) ==> r is Ignored && final(self)@ == old(self)@,
            has_game(old(self)@, g) ==> ({
                let gv = game_of(old(self)@, g);
                &&& game_of(final(self)@, g) == crate::game::created_next(gv, tokens@)
                &&& (r is Ignored <==> !crate::game::awaiting_node(gv))
                &&& (r matches crate::game::CreateOutcome::Created(d) ==> crate::game::awaiting_node(gv)
                    && crate::game::all_have_tokens(gv.slots, tokens@)
                    && d@.len() == occupied_ids(gv.slots).len() && forall|i: int|
                    0 <= i < d@.len() ==> #[trigger] d@[i].player_id == occupied_ids(gv.slots)[i] && tokens@.contains(d@[i]))
                &&& (r matches crate::game::CreateOutcome::Failed { host, error } ==> crate::game::awaiting_node(gv)
                    && !crate::game::all_have_tokens(gv.slots, tokens@)
                    && gv.host == Some(host) && error == crate::game::NodeCreateError::Other)
                &&& (crate::game::awaiting_node(gv) && crate::game::all_have_tokens(gv.slots, tokens@) ==> r is Created)
                &&& (crate::game::awaiting_node(gv) && !crate::game::all_have_tokens(gv.slots, tokens@) ==> r is Failed)
            }),
    {
        let ghost old_view = self@;
        let j = match self.game_index(g) {
            Some(j) => j,
            None => {
                return crate::game::CreateOutcome::Ignored;
            },
        };
        let mut game = self.games.remove(j);
        assert(game@ == old_view.games[j as int]);
        let res = game.node_created(tokens);
        let ghost ng = game@;
        self.games.insert(j, game);
        assert(self@.games =~= old_view.games.update(j as int, ng));
        assert(self@.players =~= old_view.players);
        proof {
            lemma_same_seats_wf(old_view, j as int, ng);
            assert(self@ == LobbyView { games: old_view.games.update(j as int, ng), ..old_view });
        }
        res
    }

    /// The node failed to create game `g`; returns its host, who is to be told why.
    pub fn node_create_failed(&mut self, g: i32) -> (r: Option<i32>)
        requires
            old(self).wf(),
        ensures
            final(self).wf(),
            forall|q: i32| #[trigger] joined_of(final(self)@, q) == joined_of(old(self)@, q),
            (has_game(old(self)@, g) && crate::game::awaiting_node(game_of(old(self)@, g))) ==> (r
                == game_of(old(self)@, g).host && r is Some
                && game_of(final(self)@, g) == crate::game::reset_start(game_of(old(self)@, g))),
            !(has_game(old(self)@, g) && crate::game::awaiting_node(game_of(old(self)@, g))) ==> r is None
                && final(self)@ == old(self)@,
    {
        let ghost old_view = self@;
        let j = match self.game_index(g) {
            Some(j) => j,
            None => {
                return None;
            },
        };
        let mut game = self.games.remove(j);
        assert(game@ == old_view.games[j as int]);
        let res = game.node_create_failed();
        let ghost ng = game@;
        self.games.insert(j, game);
        assert(self@.games =~= old_view.games.update(j as int, ng));
        assert(self@.players =~= old_view.players);
        proof {
            lemma_same_seats_wf(old_view, j as int, ng);
            assert(self@ == LobbyView { games: old_view.games.update(j as int, ng), ..old_view });
            if res is None {
                assert(self@.games =~= old_view.games);
            }
        }
        res
    }


    /// Merges the ping measurements `updates` of player `p`, taken at time `at`, into their
    /// ping book. Measurements older than the book are dropped. Returns whether they were
    /// merged.
    pub fn update_ping(&mut self, p: i32, updates: &Vec<(i32, PingStats)>, at: u64) -> (r: bool)
        requires
            old(self).wf(),
        ensures
            final(self).wf(),
            final(self)@.games == old(self)@.games,
            forall|q: i32| #[trigger] joined_of(final(self)@, q) == joined_of(old(self)@, q),
            r == (has_player(old(self)@, p) && player_of(old(self)@, p).ping_at <= at),
            !r ==> final(self)@ == old(self)@,
            r ==> player_of(final(self)@, p) == (PlayerView {
                ping: apply_pings(player_of(old(self)@, p).ping, updates@),
                ping_at: at,
                ..player_of(old(self)@, p)
            }) && forall|q: i32| q != p && has_player(old(self)@, q) ==> #[trigger] player_of(final(self)@, q) == player_of(old(self)@, q),
    {
        broadcast use vstd::std_specs::hash::group_hash_axioms;
        let ghost old_view = self@;
        let i = match self.find_player(p) {
            Some(i) => i,
            None => {
                return false;
            },
        };
        proof {
            let c = choose|c: int| 0 <= c < old_view.players.len() && #[trigger] old_view.players[c].id == p;
            assert(c == i);
        }
        assert(self@.players[i as int] == self.players@[i as int]@);
        if self.players[i].ping_updated_at > at {
            return false;
        }
        let mut s = self.players.remove(i);
        let ghost book0 = s.ping_book@;
        let ghost s0 = s@;
        let ghost removed = self.players@;
        assert(s0 == old_view.players[i as int]);
        let mut k: usize = 0;
        while k < updates.len()
            invariant
                k <= updates.len(),
                self.players@ == removed,
                s@ == (PlayerView { ping: s.ping_book@, ..s0 }),
                s.ping_book@ == apply_pings(book0, updates@.subrange(0, k as int)),
            decreases updates.len() - k,
        {
            let (node, stats) = updates[k];
            s.ping_book.insert(node, stats);
            assert(updates@.subrange(0, k + 1).drop_last() =~= updates@.subrange(0, k as int));
            k = k + 1;
        }
        assert(updates@.subrange(0, updates.len() as int) =~= updates@);
        s.ping_updated_at = at;
        let ghost s1 = s@;
        self.players.insert(i, s);
        proof {
            let v = self@;
            let np = PlayerView { ping: apply_pings(book0, updates@), ping_at: at, ..old_view.players[i as int] };
            assert(s1 == np);
            assert(self.players@ == removed.insert(i as int, self.players@[i as int]));
            assert(v.players =~= old_view.players.update(i as int, np));
            assert(v.games =~= old_view.games);
            assert forall|a: int| 0 <= a < v.players.len() implies #[trigger] v.players[a].id == old_view.players[a].id by {
            }
            assert forall|a: int, q: i32|
                0 <= a < v.games.len() && #[trigger] seats_have(v.games[a].slots, q) implies exists|k: int|
                0 <= k < v.players.len() && #[trigger] v.players[k].id == q by {
                let k = choose|k: int| 0 <= k < old_view.players.len() && #[trigger] old_view.players[k].id == q;
                assert(v.players[k].id == q);
            }
            assert forall|q: i32| q != p && has_player(old_view, q) implies #[trigger] player_of(v, q) == player_of(old_view, q) by {
                if q != p && has_player(old_view, q) {
                    let k = choose|k: int| 0 <= k < old_view.players.len() && #[trigger] old_view.players[k].id == q;
                    assert(v.players[k].id == q);
                    let k2 = choose|k: int| 0 <= k < v.players.len() && #[trigger] v.players[k].id == q;
                    assert(old_view.players[k2].id == q);
                    assert(k2 == k);
                }
            }
            assert forall|q: i32| #[trigger] joined_of(v, q) == joined_of(old_view, q) by {
                if has_player(old_view, q) {
                    let k = choose|k: int| 0 <= k < old_view.players.len() && #[trigger] old_view.players[k].id == q;
                    assert(v.players[k].id == q);
                    let k2 = choose|k: int| 0 <= k < v.players.len() && #[trigger] v.players[k].id == q;
                    assert(old_view.players[k2].id == q);
                }
            }
            let c = choose|c: int| 0 <= c < v.players.len() && #[trigger] v.players[c].id == p;
            assert(v.players[i as int].id == p);
            if c != i {
                assert(old_view.players[c].id == old_view.players[i as int].id);
            }
        }
        true
    }

    /// A copy of the ping book of each player in `ids`; a player without a session gives an
    /// empty book.
    pub fn ping_snapshot(&self, ids: &Vec<i32>) -> (r: Vec<HashMap<i32, PingStats>>)
        requires
            self.wf(),
        ensures
            r@.len() == ids@.len(),
            forall|k: int|
                0 <= k < ids@.len() ==> #[trigger] r@[k]@ == if has_player(self@, ids@[k]) {
                    player_of(self@, ids@[k]).ping
                } else {
                    Map::<i32, PingStats>::empty()
                },
    {
        let mut r: Vec<HashMap<i32, PingStats>> = Vec::new();
        let mut k: usize = 0;
        while k < ids.len()
            invariant
                self.wf(),
                k <= ids.len(),
                r@.len() == k,
                forall|a: int|
                    0 <= a < k ==> #[trigger] r@[a]@ == if has_player(self@, ids@[a]) {
                        player_of(self@, ids@[a]).ping
                    } else {
                        Map::<i32, PingStats>::empty()
                    },
            decreases ids.len() - k,
        {
            let q = ids[k];
            match self.find_player(q) {
                Some(i) => {
                    proof {
                        let c = choose|c: int| 0 <= c < self@.players.len() && #[trigger] self@.players[c].id == q;
                        assert(c == i);
                    }
                    assert(self@.players[i as int] == self.players@[i as int]@);
                    r.push(self.players[i].ping_book.clone());
                },
                None => {
                    r.push(HashMap::new());
                },
            }
            k = k + 1;
        }
        r
    }

    /// The players to tell of player `p`'s new ping measurements: the others in their game.
    pub fn ping_broadcast_targets(&self, p: i32) -> (r: Vec<i32>)
        requires
            self.wf(),
        ensures
            joined_of(self@, p) matches Some(g) ==> r@ == ids_except(game_of(self@, g).slots, p),
            joined_of(self@, p) is None ==> r@.len() == 0,
    {
        match self.joined_game_id(p) {
            Some(g) => match self.game_index(g) {
                Some(j) => {
                    assert(self@.games[j as int] == self.games@[j as int]@);
                    self.games[j].peer_ids(p)
                },
                None => Vec::new(),
            },
            None => Vec::new(),
        }
    }

}

} // verus!
