use vstd::prelude::*;

verus! {

/// Where a game is in its life.
#[derive(Debug, Clone, Copy, PartialEq, Eq, Structural)]
pub enum GameStatus {
    Preparing,
    Starting,
    Created,
    Ended,
}

/// Whether a seat is open, closed, or taken by a player.
#[derive(Debug, Clone, Copy, PartialEq, Eq, Structural)]
pub enum SlotStatus {
    Open,
    Closed,
    Occupied,
}

/// Errors that a game operation hands back to the player who asked.
#[derive(Debug, Clone, Copy, PartialEq, Eq, Structural)]
pub enum GameError {
    GameNotFound,
    GameBusy,
    GameFull,
    PlayerNotHost,
    PlayerNotInGame,
    PlayerSlotNotFound,
    MultiJoin,
    GameNodeNotSelected,
    GameExists,
}

/// The settings of one seat.
#[derive(Debug, Clone, Copy, PartialEq, Eq, Structural)]
pub struct SlotSettings {
    pub team: i32,
    pub color: i32,
    pub handicap: i32,
    pub race: i32,
    pub status: SlotStatus,
    pub computer: i32,
}

/// One seat of a game.
#[derive(Debug, Clone, Copy, PartialEq, Eq)]
pub struct Slot {
    pub player_id: Option<i32>,
    pub settings: SlotSettings,
}

/// What a player reported when acknowledging a start: their game version and map hash.
#[derive(Debug, Clone, PartialEq, Eq)]
pub struct ClientInfo {
    pub player_id: i32,
    pub war3_version: String,
    pub map_sha1: Vec<u8>,
}

/// The mathematical value of a `ClientInfo`.
pub struct ClientInfoView {
    pub player_id: i32,
    pub war3_version: Seq<char>,
    pub map_sha1: Seq<u8>,
}

impl View for ClientInfo {
    type V = ClientInfoView;

    open spec fn view(&self) -> ClientInfoView {
        ClientInfoView {
            player_id: self.player_id,
            war3_version: self.war3_version@,
            map_sha1: self.map_sha1@,
        }
    }
}

/// A node's secret for one player of a hosted game.
#[derive(Debug, Clone, Copy, PartialEq, Eq)]
pub struct PlayerToken {
    pub player_id: i32,
    pub token: [u8; 16],
}

/// One lobby game: its seats, host, selected node and start handshake.
#[derive(Debug)]
pub struct Game {
    id: i32,
    host_player_id: Option<i32>,
    selected_node_id: Option<i32>,
    slots: Vec<Slot>,
    status: GameStatus,
    acks: Vec<ClientInfo>,
    create_requested: bool,
    tokens: Vec<PlayerToken>,
}

/// The mathematical value of a `Game`.
pub struct GameView {
    pub id: i32,
    pub host: Option<i32>,
    pub node: Option<i32>,
    pub slots: Seq<Slot>,
    pub status: GameStatus,
    pub acks: Seq<ClientInfoView>,
    pub create_requested: bool,
    pub tokens: Seq<PlayerToken>,
}

impl View for Game {
    type V = GameView;

    closed spec fn view(&self) -> GameView {
        GameView {
            id: self.id,
            host: self.host_player_id,
            node: self.selected_node_id,
            slots: self.slots@,
            status: self.status,
            acks: self.acks@.map_values(|a: ClientInfo| a@),
            create_requested: self.create_requested,
            tokens: self.tokens@,
        }
    }
}

/// Whether player `p` sits in one of the seats.
pub open spec fn seats_have(s: Seq<Slot>, p: i32) -> bool {
    exists|i: int| 0 <= i < s.len() && #[trigger] s[i].player_id == Some(p)
}

/// The players in the seats, in seat order.
pub open spec fn occupied_ids(s: Seq<Slot>) -> Seq<i32>
    decreases s.len(),
{
    if s.len() == 0 {
        seq![]
    } else {
        let rest = occupied_ids(s.drop_last());
        match s.last().player_id {
            Some(q) => rest.push(q),
            None => rest,
        }
    }
}

/// The players in the seats other than `p`, in seat order.
pub open spec fn ids_except(s: Seq<Slot>, p: i32) -> Seq<i32>
    decreases s.len(),
{
    if s.len() == 0 {
        seq![]
    } else {
        let rest = ids_except(s.drop_last(), p);
        match s.last().player_id {
            Some(q) => if q != p {
                rest.push(q)
            } else {
                rest
            },
            None => rest,
        }
    }
}

/// A seat emptied: no player, status open, other settings kept.
pub open spec fn cleared(s: Slot) -> Slot {
    Slot { player_id: None, settings: SlotSettings { status: SlotStatus::Open, ..s.settings } }
}

/// A seat taken by player `p`, other settings kept.
pub open spec fn taken_by(s: Slot, p: i32) -> Slot {
    Slot { player_id: Some(p), settings: SlotSettings { status: SlotStatus::Occupied, ..s.settings } }
}

/// The settings a fresh seat has.
pub open spec fn default_settings(index: int, status: SlotStatus) -> SlotSettings {
    SlotSettings { team: 0, color: index as i32, handicap: 100, race: 0, status, computer: 0 }
}

/// The seats of a new game: the host in the first, the others open.
pub open spec fn initial_slots(n: nat, host: i32) -> Seq<Slot> {
    Seq::new(
        n,
        |i: int|
            if i == 0 {
                Slot { player_id: Some(host), settings: default_settings(0, SlotStatus::Occupied) }
            } else {
                Slot { player_id: None, settings: default_settings(i, SlotStatus::Open) }
            },
    )
}

/// Whether seat `i` is the first open seat.
pub open spec fn is_first_open(s: Seq<Slot>, i: int) -> bool {
    &&& 0 <= i < s.len()
    &&& s[i].settings.status == SlotStatus::Open
    &&& forall|j: int| 0 <= j < i ==> #[trigger] s[j].settings.status != SlotStatus::Open
}

pub open spec fn has_open_seat(s: Seq<Slot>) -> bool {
    exists|i: int| 0 <= i < s.len() && #[trigger] s[i].settings.status == SlotStatus::Open
}

/// Whether the seats of a game, its host and its start handshake are consistent.
pub open spec fn game_wf(g: GameView) -> bool {
    &&& forall|i: int, j: int|
        0 <= i < g.slots.len() && 0 <= j < g.slots.len() && i != j && g.slots[i].player_id is Some
            ==> #[trigger] g.slots[i].player_id != #[trigger] g.slots[j].player_id
    &&& forall|i: int|
        0 <= i < g.slots.len() ==> (#[trigger] g.slots[i].player_id is Some <==> g.slots[i].settings.status
            == SlotStatus::Occupied)
    &&& g.status != GameStatus::Ended ==> g.host is Some
    &&& g.host matches Some(h) ==> seats_have(g.slots, h)
    &&& g.status == GameStatus::Ended ==> forall|i: int|
        0 <= i < g.slots.len() ==> #[trigger] g.slots[i].player_id is None
    &&& g.status == GameStatus::Starting ==> g.node is Some
    &&& g.status != GameStatus::Starting ==> g.acks.len() == 0 && !g.create_requested
    &&& forall|k: int| 0 <= k < g.acks.len() ==> seats_have(g.slots, #[trigger] g.acks[k].player_id)
    &&& forall|k: int, l: int|
        0 <= k < g.acks.len() && 0 <= l < g.acks.len() && k != l ==> #[trigger] g.acks[k].player_id
            != #[trigger] g.acks[l].player_id
    &&& g.status == GameStatus::Created ==> g.node is Some && all_have_tokens(g.slots, g.tokens)
    &&& g.create_requested ==> all_acked(g.slots, g.acks) && acks_agree(g.acks)
}

/// Whether a token was handed out for player `p`.
pub open spec fn has_token(t: Seq<PlayerToken>, p: i32) -> bool {
    exists|k: int| 0 <= k < t.len() && #[trigger] t[k].player_id == p
}

/// Whether every seated player has a token.
pub open spec fn all_have_tokens(s: Seq<Slot>, t: Seq<PlayerToken>) -> bool {
    forall|i: int| #![trigger s[i]] 0 <= i < s.len() && s[i].player_id is Some ==> has_token(t, s[i].player_id->0)
}

/// Whether player `p` has acknowledged the start.
pub open spec fn has_ack(a: Seq<ClientInfoView>, p: i32) -> bool {
    exists|k: int| 0 <= k < a.len() && #[trigger] a[k].player_id == p
}

/// Whether every seated player has acknowledged the start.
pub open spec fn all_acked(s: Seq<Slot>, a: Seq<ClientInfoView>) -> bool {
    forall|i: int| #![trigger s[i]] 0 <= i < s.len() && s[i].player_id is Some ==> has_ack(a, s[i].player_id->0)
}

/// Whether all acknowledgements report the same game version and map hash.
pub open spec fn acks_agree(a: Seq<ClientInfoView>) -> bool {
    forall|k: int|
        #![trigger a[k]]
        0 <= k < a.len() ==> a[k].war3_version == a[0].war3_version && a[k].map_sha1 == a[0].map_sha1
}

/// Seat-changing operations are refused while a start is under way or done.
pub open spec fn slots_locked(st: GameStatus) -> bool {
    st == GameStatus::Starting || st == GameStatus::Created
}

/// The refusal, if any, of player `p` joining.
pub open spec fn join_refusal(g: GameView, p: i32) -> Option<GameError> {
    if g.status == GameStatus::Ended {
        Some(GameError::GameNotFound)
    } else if slots_locked(g.status) {
        Some(GameError::GameBusy)
    } else if seats_have(g.slots, p) {
        Some(GameError::MultiJoin)
    } else if !has_open_seat(g.slots) {
        Some(GameError::GameFull)
    } else {
        None
    }
}

/// The refusal, if any, of player `p` leaving.
pub open spec fn leave_refusal(g: GameView, p: i32) -> Option<GameError> {
    if g.status == GameStatus::Ended {
        Some(GameError::GameNotFound)
    } else if !seats_have(g.slots, p) {
        Some(GameError::PlayerNotInGame)
    } else if slots_locked(g.status) {
        Some(GameError::GameBusy)
    } else {
        None
    }
}

/// What a player leaving did: whether the game ended, and the other players, who are
/// told of the departure (and, when the game ended, detached from it).
#[derive(Debug, Clone, PartialEq, Eq)]
pub struct LeaveOutcome {
    pub game_ended: bool,
    pub others: Vec<i32>,
}

/// The refusal, if any, of player `p` changing seat `index` to `settings`. The occupant of a
/// seat may change its settings; the host may open or close an empty seat.
pub open spec fn update_slot_refusal(g: GameView, p: i32, index: int, settings: SlotSettings) -> Option<
    GameError,
> {
    if g.status == GameStatus::Ended {
        Some(GameError::GameNotFound)
    } else if slots_locked(g.status) {
        Some(GameError::GameBusy)
    } else if !seats_have(g.slots, p) {
        Some(GameError::PlayerNotInGame)
    } else if index >= g.slots.len() {
        Some(GameError::PlayerSlotNotFound)
    } else if g.slots[index].player_id == Some(p) {
        None
    } else if g.slots[index].player_id is Some {
        Some(GameError::PlayerSlotNotFound)
    } else if g.host != Some(p) {
        Some(GameError::PlayerNotHost)
    } else if settings.status == SlotStatus::Occupied {
        Some(GameError::PlayerSlotNotFound)
    } else {
        None
    }
}

/// The settings a seat holds after an accepted change: an occupant's seat stays occupied.
pub open spec fn stored_settings(g: GameView, p: i32, index: int, settings: SlotSettings) -> SlotSettings {
    if g.slots[index].player_id == Some(p) {
        SlotSettings { status: SlotStatus::Occupied, ..settings }
    } else {
        settings
    }
}

/// The refusal, if any, of player `p` selecting `node_id`. Only the host selects; while a
/// start is under way or done, the selection may change but not be cleared.
pub open spec fn select_node_refusal(g: GameView, p: i32, node_id: Option<i32>) -> Option<GameError> {
    if g.status == GameStatus::Ended {
        Some(GameError::GameNotFound)
    } else if g.host != Some(p) {
        Some(GameError::PlayerNotHost)
    } else if node_id is None && slots_locked(g.status) {
        Some(GameError::GameBusy)
    } else {
        None
    }
}

/// The refusal, if any, of player `p` starting the game.
pub open spec fn start_refusal(g: GameView, p: i32) -> Option<GameError> {
    if g.status == GameStatus::Ended {
        Some(GameError::GameNotFound)
    } else if slots_locked(g.status) {
        Some(GameError::GameBusy)
    } else if g.host != Some(p) {
        Some(GameError::PlayerNotHost)
    } else if g.node is None {
        Some(GameError::GameNodeNotSelected)
    } else {
        None
    }
}

/// Whether an acknowledgement from player `p` counts: the start is waiting for acks and `p`
/// is seated.
pub open spec fn ack_accepted(g: GameView, p: i32) -> bool {
    g.status == GameStatus::Starting && !g.create_requested && seats_have(g.slots, p)
}

/// The acknowledgements after recording `v`, which replaces an earlier one of the same player.
pub open spec fn record_ack(a: Seq<ClientInfoView>, v: ClientInfoView) -> Seq<ClientInfoView> {
    if has_ack(a, v.player_id) {
        a.update(choose|k: int| 0 <= k < a.len() && #[trigger] a[k].player_id == v.player_id, v)
    } else {
        a.push(v)
    }
}

/// The game after player `p`'s acknowledgement `v`.
pub open spec fn ack_next(g: GameView, p: i32, v: ClientInfoView) -> GameView {
    let acks = record_ack(g.acks, v);
    if !ack_accepted(g, p) {
        g
    } else if !all_acked(g.slots, acks) {
        GameView { acks, ..g }
    } else if acks_agree(acks) {
        GameView { acks, create_requested: true, ..g }
    } else {
        reset_start(g)
    }
}

/// The game after the node's reply with `tokens`.
pub open spec fn created_next(g: GameView, tokens: Seq<PlayerToken>) -> GameView {
    if !awaiting_node(g) {
        g
    } else if all_have_tokens(g.slots, tokens) {
        GameView {
            status: GameStatus::Created,
            acks: Seq::empty(),
            create_requested: false,
            tokens,
            ..g
        }
    } else {
        reset_start(g)
    }
}

/// What an acknowledgement led to.
#[derive(Debug)]
pub enum AckOutcome {
    /// The game was not waiting for this acknowledgement.
    Ignored,
    /// Recorded; other players have yet to acknowledge.
    Pending,
    /// All players agree: the node is to be asked to create the game.
    CreateGame,
    /// The players disagree on version or map: the start is called off, and these are the
    /// acknowledgements received.
    Rejected(Vec<ClientInfo>),
}

/// Why a node did not create a game.
#[derive(Debug, Clone, Copy, PartialEq, Eq, Structural)]
pub enum NodeCreateError {
    Timeout,
    RejectUnknown,
    RejectGameExists,
    RejectPlayerBusy,
    RejectMaintenance,
    Other,
}

/// What a node's reply to a create request led to.
#[derive(Debug)]
pub enum CreateOutcome {
    /// The game was not waiting for a node reply.
    Ignored,
    /// The game is created; each seated player is to receive their token.
    Created(Vec<PlayerToken>),
    /// The start is called off; the host is to be told why.
    Failed { host: i32, error: NodeCreateError },
}

/// Whether status `st` is waiting for the node's reply.
pub open spec fn awaiting_node(g: GameView) -> bool {
    g.status == GameStatus::Starting && g.create_requested
}

/// The game after a start is called off: back to preparing, with no acks and no tokens.
pub open spec fn reset_start(g: GameView) -> GameView {
    GameView {
        status: GameStatus::Preparing,
        acks: Seq::empty(),
        create_requested: false,
        tokens: Seq::empty(),
        ..g
    }
}

pub proof fn lemma_occupied_ids_contains(s: Seq<Slot>, p: i32)
    ensures
        occupied_ids(s).contains(p) <==> seats_have(s, p),
    decreases s.len(),
{
    lemma_ids_except_contains_gen(s, None, p);
}

pub proof fn lemma_ids_except_contains(s: Seq<Slot>, p: i32, q: i32)
    ensures
        ids_except(s, p).contains(q) <==> (q != p && seats_have(s, q)),
{
    lemma_ids_except_contains_gen(s, Some(p), q);
}

proof fn lemma_ids_except_contains_gen(s: Seq<Slot>, p: Option<i32>, q: i32)
    ensures
        p is None ==> (occupied_ids(s).contains(q) <==> seats_have(s, q)),
        p matches Some(x) ==> (ids_except(s, x).contains(q) <==> (q != x && seats_have(s, q))),
    decreases s.len(),
{
    if s.len() > 0 {
        let init = s.drop_last();
        lemma_ids_except_contains_gen(init, p, q);
        let r = match p {
            None => occupied_ids(s),
            Some(x) => ids_except(s, x),
        };
        let r0 = match p {
            None => occupied_ids(init),
            Some(x) => ids_except(init, x),
        };
        assert(seats_have(s, q) <==> (seats_have(init, q) || s.last().player_id == Some(q))) by {
            if seats_have(s, q) {
                let i = choose|i: int| 0 <= i < s.len() && #[trigger] s[i].player_id == Some(q);
                if i < s.len() - 1 {
                    assert(init[i].player_id == Some(q));
                }
            }
            if seats_have(init, q) {
                let i = choose|i: int| 0 <= i < init.len() && #[trigger] init[i].player_id == Some(q);
                assert(s[i].player_id == Some(q));
            }
            if s.last().player_id == Some(q) {
                assert(s[s.len() - 1].player_id == Some(q));
            }
        }
        if r == r0 {
        } else {
            let last = s.last().player_id->0;
            assert(r == r0.push(last));
            assert(r.contains(q) <==> (r0.contains(q) || last == q)) by {
                if r.contains(q) {
                    let k = choose|k: int| 0 <= k < r.len() && r[k] == q;
                    if k < r0.len() {
                        assert(r0[k] == q);
                    }
                }
                if r0.contains(q) {
                    let k = choose|k: int| 0 <= k < r0.len() && r0[k] == q;
                    assert(r[k] == q);
                }
                if last == q {
                    assert(r[r.len() - 1] == q);
                }
            }
        }
    }
}

/// The players of a seat list, in seat order.
fn collect_ids(slots: &Vec<Slot>, except: Option<i32>) -> (r: Vec<i32>)
    ensures
        except is None ==> r@ == occupied_ids(slots@),
        except matches Some(p) ==> r@ == ids_except(slots@, p),
{
    let mut r: Vec<i32> = Vec::new();
    let mut i: usize = 0;
    while i < slots.len()
        invariant
            i <= slots.len(),
            except is None ==> r@ == occupied_ids(slots@.subrange(0, i as int)),
            except matches Some(p) ==> r@ == ids_except(slots@.subrange(0, i as int), p),
        decreases slots.len() - i,
    {
        assert(slots@.subrange(0, i + 1).drop_last() =~= slots@.subrange(0, i as int));
        if let Some(q) = slots[i].player_id {
            match except {
                Some(p) => {
                    if q != p {
                        r.push(q);
                    }
                },
                None => {
                    r.push(q);
                },
            }
        }
        i = i + 1;
    }
    assert(slots@.subrange(0, slots.len() as int) =~= slots@);
    r
}

/// Finds the seat of player `p`.
fn find_seat(slots: &Vec<Slot>, p: i32) -> (r: Option<usize>)
    ensures
        r matches Some(i) ==> i < slots.len() && slots@[i as int].player_id == Some(p),
        r is None ==> !seats_have(slots@, p),
{
    let mut i: usize = 0;
    while i < slots.len()
        invariant
            i <= slots.len(),
            forall|j: int| 0 <= j < i ==> #[trigger] slots@[j].player_id != Some(p),
        decreases slots.len() - i,
    {
        if slots[i].player_id == Some(p) {
            return Some(i);
        }
        i = i + 1;
    }
    None
}

/// Finds the acknowledgement of player `p`.
fn find_ack(acks: &Vec<ClientInfo>, p: i32) -> (r: Option<usize>)
    ensures
        r matches Some(k) ==> k < acks.len() && acks@[k as int].player_id == p,
        r is None <==> !has_ack(acks@.map_values(|a: ClientInfo| a@), p),
{
    let ghost view = acks@.map_values(|a: ClientInfo| a@);
    let mut k: usize = 0;
    while k < acks.len()
        invariant
            k <= acks.len(),
            view == acks@.map_values(|a: ClientInfo| a@),
            forall|j: int| 0 <= j < k ==> #[trigger] view[j].player_id != p,
        decreases acks.len() - k,
    {
        if acks[k].player_id == p {
            assert(view[k as int].player_id == p);
            return Some(k);
        }
        k = k + 1;
    }
    None
}

/// Whether two byte strings are equal.
pub fn bytes_eq(a: &Vec<u8>, b: &Vec<u8>) -> (r: bool)
    ensures
        r == (a@ == b@),
{
    if a.len() != b.len() {
        return false;
    }
    let mut i: usize = 0;
    while i < a.len()
        invariant
            a.len() == b.len(),
            i <= a.len(),
            forall|j: int| 0 <= j < i ==> a@[j] == b@[j],
        decreases a.len() - i,
    {
        if a[i] != b[i] {
            return false;
        }
        i = i + 1;
    }
    assert(a@ =~= b@);
    true
}

/// Finds a token handed out for player `p`.
fn find_token(tokens: &Vec<PlayerToken>, p: i32) -> (r: Option<usize>)
    ensures
        r matches Some(k) ==> k < tokens.len() && tokens@[k as int].player_id == p,
        r is None <==> !has_token(tokens@, p),
{
    let mut k: usize = 0;
    while k < tokens.len()
        invariant
            k <= tokens.len(),
            forall|j: int| 0 <= j < k ==> #[trigger] tokens@[j].player_id != p,
        decreases tokens.len() - k,
    {
        if tokens[k].player_id == p {
            return Some(k);
        }
        k = k + 1;
    }
    None
}

/// The message the host is shown when the node did not create the game.
pub open spec fn create_error_message(e: NodeCreateError) -> Seq<char> {
    match e {
        NodeCreateError::Timeout => "Create game timeout."@,
        NodeCreateError::RejectUnknown => "Create game request rejected."@,
        NodeCreateError::RejectGameExists => "Game already started."@,
        NodeCreateError::RejectPlayerBusy => "Create game request rejected: Player busy."@,
        NodeCreateError::RejectMaintenance => "Create game request rejected: Server Maintenance."@,
        NodeCreateError::Other => "Internal error."@,
    }
}

/// The message the host is shown when the node did not create the game.
pub fn create_error_text(e: NodeCreateError) -> (r: String)
    ensures
        r@ == create_error_message(e),
{
    match e {
        NodeCreateError::Timeout => "Create game timeout.".to_string(),
        NodeCreateError::RejectUnknown => "Create game request rejected.".to_string(),
        NodeCreateError::RejectGameExists => "Game already started.".to_string(),
        NodeCreateError::RejectPlayerBusy => "Create game request rejected: Player busy.".to_string(),
        NodeCreateError::RejectMaintenance => "Create game request rejected: Server Maintenance.".to_string(),
        NodeCreateError::Other => "Internal error.".to_string(),
    }
}

/// Why a start was called off, as every player is told.
#[derive(Debug, Clone, Copy, PartialEq, Eq, Structural)]
pub enum StartRejectReason {
    /// The players' game or map versions differ.
    VersionMismatch,
    /// Some players did not acknowledge in time.
    Timeout,
    /// An internal failure.
    Internal,
}

/// The message every player is shown when a start is called off.
pub open spec fn start_reject_message(reason: StartRejectReason) -> Seq<char> {
    match reason {
        StartRejectReason::VersionMismatch =>
            "Unable to start the game because the game and map version check failed."@,
        StartRejectReason::Timeout => "Some of the players didn't response in time."@,
        StartRejectReason::Internal => "Unable to start the game because of a internal error."@,
    }
}

/// The message every player is shown when a start is called off.
pub fn start_reject_text(reason: StartRejectReason) -> (r: String)
    ensures
        r@ == start_reject_message(reason),
{
    match reason {
        StartRejectReason::VersionMismatch =>
            "Unable to start the game because the game and map version check failed.".to_string(),
        StartRejectReason::Timeout => "Some of the players didn't response in time.".to_string(),
        StartRejectReason::Internal => "Unable to start the game because of a internal error.".to_string(),
    }
}

impl Game {
    pub open spec fn wf(&self) -> bool {
        game_wf(self@)
    }

    /// A new game of `num_slots` seats, created by `host`, who takes the first seat.
    pub fn new(id: i32, host: i32, num_slots: usize) -> (r: Game)
        requires
            1 <= num_slots <= i32::MAX,
        ensures
            r.wf(),
            r@.id == id,
            r@.host == Some(host),
            r@.node is None,
            r@.status == GameStatus::Preparing,
            r@.slots == initial_slots(num_slots as nat, host),
            r@.tokens.len() == 0,
    {
        let mut slots: Vec<Slot> = Vec::new();
        let mut i: usize = 0;
        while i < num_slots
            invariant
                i <= num_slots <= i32::MAX,
                slots@ == initial_slots(num_slots as nat, host).subrange(0, i as int),
            decreases num_slots - i,
        {
            let slot = if i == 0 {
                Slot {
                    player_id: Some(host),
                    settings: SlotSettings {
                        team: 0,
                        color: 0,
                        handicap: 100,
                        race: 0,
                        status: SlotStatus::Occupied,
                        computer: 0,
                    },
                }
            } else {
                Slot {
                    player_id: None,
                    settings: SlotSettings {
                        team: 0,
                        color: i as i32,
                        handicap: 100,
                        race: 0,
                        status: SlotStatus::Open,
                        computer: 0,
                    },
                }
            };
            slots.push(slot);
            assert(slots@ =~= initial_slots(num_slots as nat, host).subrange(0, i + 1));
            i = i + 1;
        }
        assert(slots@ =~= initial_slots(num_slots as nat, host));
        let g = Game {
            id,
            host_player_id: Some(host),
            selected_node_id: None,
            slots,
            status: GameStatus::Preparing,
            acks: Vec::new(),
            create_requested: false,
            tokens: Vec::new(),
        };
        assert(g@.slots[0].player_id == Some(host));
        assert(g@.acks =~= Seq::<ClientInfoView>::empty());
        g
    }

    pub fn id(&self) -> (r: i32)
        ensures
            r == self@.id,
    {
        self.id
    }

    pub fn status(&self) -> (r: GameStatus)
        ensures
            r == self@.status,
    {
        self.status
    }

    pub fn host_player_id(&self) -> (r: Option<i32>)
        ensures
            r == self@.host,
    {
        self.host_player_id
    }

    pub fn selected_node_id(&self) -> (r: Option<i32>)
        ensures
            r == self@.node,
    {
        self.selected_node_id
    }

    pub fn slots(&self) -> (r: &Vec<Slot>)
        ensures
            r@ == self@.slots,
    {
        &self.slots
    }

    pub fn tokens(&self) -> (r: &Vec<PlayerToken>)
        ensures
            r@ == self@.tokens,
    {
        &self.tokens
    }

    /// Whether seat changes are refused right now.
    pub fn player_slots_locked(&self) -> (r: bool)
        ensures
            r == slots_locked(self@.status),
    {
        self.status == GameStatus::Starting || self.status == GameStatus::Created
    }

    /// Whether player `p` sits in this game.
    pub fn has_player(&self, p: i32) -> (r: bool)
        ensures
            r == seats_have(self@.slots, p),
    {
        find_seat(&self.slots, p).is_some()
    }

    /// The seated players, in seat order.
    pub fn player_ids(&self) -> (r: Vec<i32>)
        ensures
            r@ == occupied_ids(self@.slots),
            forall|q: i32| r@.contains(q) <==> seats_have(self@.slots, q),
    {
        proof {
            assert forall|q: i32| occupied_ids(self@.slots).contains(q) <==> seats_have(
                self@.slots,
                q,
            ) by {
                lemma_occupied_ids_contains(self@.slots, q);
            }
        }
        collect_ids(&self.slots, None)
    }

    /// The seated players other than `p`, in seat order.
    pub fn peer_ids(&self, p: i32) -> (r: Vec<i32>)
        ensures
            r@ == ids_except(self@.slots, p),
            forall|q: i32| r@.contains(q) <==> (q != p && seats_have(self@.slots, q)),
    {
        let r = collect_ids(&self.slots, Some(p));
        assert forall|q: i32| r@.contains(q) <==> (q != p && seats_have(self@.slots, q)) by {
            lemma_ids_except_contains(self@.slots, p, q);
        }
        r
    }

    /// Seats player `p` in the first open seat, and returns its index.
    pub fn join(&mut self, p: i32) -> (r: Result<usize, GameError>)
        requires
            old(self).wf(),
        ensures
            final(self).wf(),
            match join_refusal(old(self)@, p) {
                Some(e) => r == Err::<usize, GameError>(e) && final(self)@ == old(self)@,
                None => r matches Ok(i) && is_first_open(old(self)@.slots, i as int)
                    && final(self)@ == (GameView {
                    slots: old(self)@.slots.update(i as int, taken_by(old(self)@.slots[i as int], p)),
                    ..old(self)@
                }),
            },
    {
        if self.status == GameStatus::Ended {
            return Err(GameError::GameNotFound);
        }
        if self.player_slots_locked() {
            return Err(GameError::GameBusy);
        }
        if self.has_player(p) {
            return Err(GameError::MultiJoin);
        }
        let mut i: usize = 0;
        while i < self.slots.len() && self.slots[i].settings.status != SlotStatus::Open
            invariant
                i <= self.slots.len(),
                forall|j: int| 0 <= j < i ==> #[trigger] self.slots@[j].settings.status != SlotStatus::Open,
            decreases self.slots.len() - i,
        {
            i = i + 1;
        }
        if i == self.slots.len() {
            return Err(GameError::GameFull);
        }
        let ghost old_view = self@;
        let old_slot = self.slots[i];
        self.slots.set(
            i,
            Slot {
                player_id: Some(p),
                settings: SlotSettings { status: SlotStatus::Occupied, ..old_slot.settings },
            },
        );
        proof {
            let s = self@.slots;
            assert(s =~= old_view.slots.update(i as int, taken_by(old_view.slots[i as int], p)));
            assert(self@.acks == old_view.acks);
            if let Some(h) = self@.host {
                if self@.status != GameStatus::Ended {
                    let k = choose|k: int|
                        0 <= k < old_view.slots.len() && #[trigger] old_view.slots[k].player_id
                            == Some(h);
                    assert(old_view.slots[i as int].player_id is None);
                    assert(k != i);
                    assert(s[k].player_id == Some(h));
                }
            }
            assert forall|k: int| 0 <= k < self@.acks.len() implies seats_have(
                s,
                #[trigger] self@.acks[k].player_id,
            ) by {
                let q = self@.acks[k].player_id;
                assert(seats_have(old_view.slots, q));
                let j = choose|j: int|
                    0 <= j < old_view.slots.len() && #[trigger] old_view.slots[j].player_id == Some(
                        q,
                    );
                assert(s[j].player_id == Some(q));
            }
        }
        Ok(i)
    }

    /// Removes player `p`. When `p` is the host or the last player, the game ends and every
    /// seat is emptied.
    pub fn leave(&mut self, p: i32) -> (r: Result<LeaveOutcome, GameError>)
        requires
            old(self).wf(),
        ensures
            final(self).wf(),
            match leave_refusal(old(self)@, p) {
                Some(e) => r == Err::<LeaveOutcome, GameError>(e) && final(self)@ == old(self)@,
                None => r matches Ok(o) && o.others@ == ids_except(old(self)@.slots, p)
                    && o.game_ended == (old(self)@.host == Some(p) || o.others@.len() == 0) && (
                o.game_ended ==> final(self)@ == (GameView {
                    slots: old(self)@.slots.map_values(|s: Slot| cleared(s)),
                    status: GameStatus::Ended,
                    host: None,
                    ..old(self)@
                })) && (!o.game_ended ==> exists|i: int|
                    0 <= i < old(self)@.slots.len() && old(self)@.slots[i].player_id == Some(p)
                        && final(self)@ == (GameView {
                        slots: old(self)@.slots.update(i, cleared(old(self)@.slots[i])),
                        ..old(self)@
                    })),
            },
    {
        if self.status == GameStatus::Ended {
            return Err(GameError::GameNotFound);
        }
        let seat = find_seat(&self.slots, p);
        let i = match seat {
            None => {
                return Err(GameError::PlayerNotInGame);
            },
            Some(i) => i,
        };
        if self.player_slots_locked() {
            return Err(GameError::GameBusy);
        }
        let others = collect_ids(&self.slots, Some(p));
        let ghost old_view = self@;
        let game_ended = self.host_player_id == Some(p) || others.len() == 0;
        if game_ended {
            let n = self.slots.len();
            let mut k: usize = 0;
            while k < n
                invariant
                    n == self.slots.len(),
                    n == old_view.slots.len(),
                    k <= n,
                    forall|j: int| 0 <= j < k ==> #[trigger] self.slots@[j] == cleared(old_view.slots[j]),
                    forall|j: int| k <= j < n ==> #[trigger] self.slots@[j] == old_view.slots[j],
                    self@ == (GameView { slots: self@.slots, ..old_view }),
                decreases n - k,
            {
                let s = self.slots[k];
                self.slots.set(
                    k,
                    Slot {
                        player_id: None,
                        settings: SlotSettings { status: SlotStatus::Open, ..s.settings },
                    },
                );
                k = k + 1;
            }
            self.status = GameStatus::Ended;
            self.host_player_id = None;
            assert(self@.slots =~= old_view.slots.map_values(|s: Slot| cleared(s)));
            assert(self@.acks == old_view.acks);
        } else {
            let s = self.slots[i];
            self.slots.set(
                i,
                Slot {
                    player_id: None,
                    settings: SlotSettings { status: SlotStatus::Open, ..s.settings },
                },
            );
            proof {
                let ns = self@.slots;
                assert(ns =~= old_view.slots.update(i as int, cleared(old_view.slots[i as int])));
                assert(self@.acks == old_view.acks);
                let h = old_view.host->0;
                assert(seats_have(old_view.slots, h));
                let kh = choose|kh: int|
                    0 <= kh < old_view.slots.len() && #[trigger] old_view.slots[kh].player_id == Some(
                        h,
                    );
                assert(kh != i);
                assert(ns[kh].player_id == Some(h));
            }
        }
        Ok(LeaveOutcome { game_ended, others })
    }

    /// Changes the settings of seat `index` on behalf of player `p`, and returns what the seat
    /// now holds.
    pub fn update_slot(&mut self, p: i32, index: usize, settings: SlotSettings) -> (r: Result<
        SlotSettings,
        GameError,
    >)
        requires
            old(self).wf(),
        ensures
            final(self).wf(),
            final(self)@.slots.len() == old(self)@.slots.len(),
            forall|q: i32| seats_have(final(self)@.slots, q) == seats_have(old(self)@.slots, q),
            final(self)@.host == old(self)@.host,
            final(self)@.host matches Some(h) ==> seats_have(final(self)@.slots, h),
            match update_slot_refusal(old(self)@, p, index as int, settings) {
                Some(e) => r == Err::<SlotSettings, GameError>(e) && final(self)@ == old(self)@,
                None => r == Ok::<SlotSettings, GameError>(
                    stored_settings(old(self)@, p, index as int, settings),
                ) && final(self)@ == (GameView {
                    slots: old(self)@.slots.update(
                        index as int,
                        Slot {
                            player_id: old(self)@.slots[index as int].player_id,
                            settings: stored_settings(old(self)@, p, index as int, settings),
                        },
                    ),
                    ..old(self)@
                }),
            },
    {
        if self.status == GameStatus::Ended {
            return Err(GameError::GameNotFound);
        }
        if self.player_slots_locked() {
            return Err(GameError::GameBusy);
        }
        if !self.has_player(p) {
            return Err(GameError::PlayerNotInGame);
        }
        if index >= self.slots.len() {
            return Err(GameError::PlayerSlotNotFound);
        }
        let current = self.slots[index];
        let stored = if current.player_id == Some(p) {
            SlotSettings { status: SlotStatus::Occupied, ..settings }
        } else if current.player_id.is_some() {
            return Err(GameError::PlayerSlotNotFound);
        } else if self.host_player_id != Some(p) {
            return Err(GameError::PlayerNotHost);
        } else if settings.status == SlotStatus::Occupied {
            return Err(GameError::PlayerSlotNotFound);
        } else {
            settings
        };
        let ghost old_view = self@;
        self.slots.set(index, Slot { player_id: current.player_id, settings: stored });
        proof {
            let ns = self@.slots;
            assert(ns =~= old_view.slots.update(
                index as int,
                Slot { player_id: current.player_id, settings: stored },
            ));
            assert(self@.acks == old_view.acks);
            assert forall|q: i32| seats_have(ns, q) == seats_have(old_view.slots, q) by {
                if seats_have(old_view.slots, q) {
                    let j = choose|j: int|
                        0 <= j < old_view.slots.len() && #[trigger] old_view.slots[j].player_id == Some(q);
                    assert(ns[j].player_id == old_view.slots[j].player_id);
                }
                if seats_have(ns, q) {
                    let j = choose|j: int| 0 <= j < ns.len() && #[trigger] ns[j].player_id == Some(q);
                    assert(ns[j].player_id == old_view.slots[j].player_id);
                }
            }
        }
        Ok(stored)
    }

    /// The host chooses the node that is to host the game, or clears the choice.
    pub fn select_node(&mut self, p: i32, node_id: Option<i32>) -> (r: Result<(), GameError>)
        requires
            old(self).wf(),
        ensures
            final(self).wf(),
            match select_node_refusal(old(self)@, p, node_id) {
                Some(e) => r == Err::<(), GameError>(e) && final(self)@ == old(self)@,
                None => r is Ok && final(self)@ == (GameView { node: node_id, ..old(self)@ }),
            },
    {
        if self.status == GameStatus::Ended {
            return Err(GameError::GameNotFound);
        }
        if self.host_player_id != Some(p) {
            return Err(GameError::PlayerNotHost);
        }
        if node_id.is_none() && self.player_slots_locked() {
            return Err(GameError::GameBusy);
        }
        self.selected_node_id = node_id;
        Ok(())
    }

    /// The host starts the game: seats lock and every player is to acknowledge.
    pub fn start(&mut self, p: i32) -> (r: Result<(), GameError>)
        requires
            old(self).wf(),
        ensures
            final(self).wf(),
            match start_refusal(old(self)@, p) {
                Some(e) => r == Err::<(), GameError>(e) && final(self)@ == old(self)@,
                None => r is Ok && old(self)@.status == GameStatus::Preparing && final(self)@ == (
                GameView { status: GameStatus::Starting, ..old(self)@ }),
            },
    {
        if self.status == GameStatus::Ended {
            return Err(GameError::GameNotFound);
        }
        if self.player_slots_locked() {
            return Err(GameError::GameBusy);
        }
        if self.host_player_id != Some(p) {
            return Err(GameError::PlayerNotHost);
        }
        if self.selected_node_id.is_none() {
            return Err(GameError::GameNodeNotSelected);
        }
        self.status = GameStatus::Starting;
        Ok(())
    }

    /// Whether every seated player has acknowledged.
    fn check_all_acked(&self) -> (r: bool)
        ensures
            r == all_acked(self@.slots, self@.acks),
    {
        let mut i: usize = 0;
        while i < self.slots.len()
            invariant
                i <= self.slots.len(),
                forall|j: int|
                    0 <= j < i && #[trigger] self@.slots[j].player_id is Some ==> has_ack(
                        self@.acks,
                        self@.slots[j].player_id->0,
                    ),
            decreases self.slots.len() - i,
        {
            if let Some(q) = self.slots[i].player_id {
                if find_ack(&self.acks, q).is_none() {
                    assert(self@.slots[i as int].player_id is Some);
                    return false;
                }
            }
            i = i + 1;
        }
        true
    }

    /// Whether all acknowledgements report the same version and map hash.
    fn check_acks_agree(&self) -> (r: bool)
        ensures
            r == acks_agree(self@.acks),
    {
        if self.acks.len() == 0 {
            return true;
        }
        let mut k: usize = 1;
        while k < self.acks.len()
            invariant
                1 <= k <= self.acks.len(),
                forall|l: int|
                    #![trigger self@.acks[l]]
                    0 <= l < k ==> self@.acks[l].war3_version == self@.acks[0].war3_version
                        && self@.acks[l].map_sha1 == self@.acks[0].map_sha1,
            decreases self.acks.len() - k,
        {
            assert(self@.acks[k as int] == self.acks@[k as int]@);
            assert(self@.acks[0] == self.acks@[0]@);
            let same_version = self.acks[k].war3_version == self.acks[0].war3_version;
            if !same_version || !bytes_eq(&self.acks[k].map_sha1, &self.acks[0].map_sha1) {
                assert(!(self@.acks[k as int].war3_version == self@.acks[0].war3_version
                    && self@.acks[k as int].map_sha1 == self@.acks[0].map_sha1));
                assert(self@.acks.len() == self.acks.len());
                assert(!acks_agree(self@.acks));
                return false;
            }
            k = k + 1;
        }
        true
    }

    /// Records player `p`'s acknowledgement of the start. When every seated player has
    /// acknowledged, checks that all agree on game version and map hash.
    pub fn ack(&mut self, p: i32, war3_version: String, map_sha1: Vec<u8>) -> (r: AckOutcome)
        requires
            old(self).wf(),
        ensures
            final(self).wf(),
            ({
                let v = ClientInfoView { player_id: p, war3_version: war3_version@, map_sha1: map_sha1@ };
                let acks = record_ack(old(self)@.acks, v);
                if !ack_accepted(old(self)@, p) {
                    r is Ignored && final(self)@ == old(self)@
                } else if !all_acked(old(self)@.slots, acks) {
                    r is Pending && final(self)@ == (GameView { acks, ..old(self)@ })
                } else if acks_agree(acks) {
                    r is CreateGame && final(self)@ == (GameView {
                        acks,
                        create_requested: true,
                        ..old(self)@
                    })
                } else {
                    r matches AckOutcome::Rejected(list) && list@.map_values(|a: ClientInfo| a@)
                        == acks && final(self)@ == reset_start(old(self)@)
                }
            }),
            final(self)@ == ack_next(
                old(self)@,
                p,
                ClientInfoView { player_id: p, war3_version: war3_version@, map_sha1: map_sha1@ },
            ),
    {
        if !(self.status == GameStatus::Starting && !self.create_requested && self.has_player(p)) {
            return AckOutcome::Ignored;
        }
        let ghost old_view = self@;
        let info = ClientInfo { player_id: p, war3_version, map_sha1 };
        let ghost v = info@;
        match find_ack(&self.acks, p) {
            Some(k) => {
                self.acks.set(k, info);
                proof {
                    let ck = choose|c: int|
                        0 <= c < old_view.acks.len() && #[trigger] old_view.acks[c].player_id == p;
                    assert(old_view.acks[k as int].player_id == p);
                    assert(ck == k);
                    assert(self@.acks =~= old_view.acks.update(k as int, v));
                }
            },
            None => {
                self.acks.push(info);
                assert(self@.acks =~= old_view.acks.push(v));
            },
        }
        proof {
            let a = self@.acks;
            assert(a == record_ack(old_view.acks, v));
            assert(self@ == (GameView { acks: a, ..old_view }));
            assert forall|k: int| 0 <= k < a.len() implies seats_have(
                self@.slots,
                #[trigger] a[k].player_id,
            ) by {
                if a[k].player_id != p {
                    assert(a[k] == old_view.acks[k]);
                }
            }
            assert forall|k: int, l: int|
                0 <= k < a.len() && 0 <= l < a.len() && k != l implies #[trigger] a[k].player_id
                != #[trigger] a[l].player_id by {
                if k < old_view.acks.len() && l < old_view.acks.len() {
                    if a[k].player_id == p {
                        assert(old_view.acks[k].player_id == p || a[k] == v);
                    }
                }
            }
        }
        if !self.check_all_acked() {
            return AckOutcome::Pending;
        }
        if self.check_acks_agree() {
            self.create_requested = true;
            return AckOutcome::CreateGame;
        }
        let mut list: Vec<ClientInfo> = Vec::new();
        std::mem::swap(&mut list, &mut self.acks);
        self.status = GameStatus::Preparing;
        self.tokens = Vec::new();
        assert(self@ == reset_start(old_view)) by {
            assert(self@.acks =~= Seq::<ClientInfoView>::empty());
            assert(self@.tokens =~= Seq::<PlayerToken>::empty());
        }
        AckOutcome::Rejected(list)
    }


    /// The start deadline passed. When acknowledgements were still missing, the start is
    /// called off and the acknowledgements received are returned.
    pub fn start_timeout(&mut self) -> (r: Option<Vec<ClientInfo>>)
        requires
            old(self).wf(),
        ensures
            final(self).wf(),
            old(self)@.status == GameStatus::Starting && !old(self)@.create_requested ==> (r matches Some(
                list,
            ) && list@.map_values(|a: ClientInfo| a@) == old(self)@.acks && final(self)@ == reset_start(
                old(self)@,
            )),
            !(old(self)@.status == GameStatus::Starting && !old(self)@.create_requested) ==> (r is None
                && final(self)@ == old(self)@),
    {
        if !(self.status == GameStatus::Starting && !self.create_requested) {
            return None;
        }
        Some(self.reset())
    }

    /// Calls off any start on an internal failure: a live game goes back to preparing, with
    /// no acknowledgements and no tokens, and the acknowledgements received are returned. An
    /// ended game is left alone.
    pub fn start_abort(&mut self) -> (r: Option<Vec<ClientInfo>>)
        requires
            old(self).wf(),
        ensures
            final(self).wf(),
            old(self)@.status != GameStatus::Ended ==> (r matches Some(list) && list@.map_values(
                |a: ClientInfo| a@,
            ) == old(self)@.acks && final(self)@ == reset_start(old(self)@)),
            old(self)@.status == GameStatus::Ended ==> (r is None && final(self)@ == old(self)@),
    {
        if self.status == GameStatus::Ended {
            return None;
        }
        Some(self.reset())
    }

    /// Back to preparing, handing out the acknowledgements received.
    fn reset(&mut self) -> (r: Vec<ClientInfo>)
        requires
            old(self).wf(),
            old(self)@.status != GameStatus::Ended,
        ensures
            final(self).wf(),
            r@.map_values(|a: ClientInfo| a@) == old(self)@.acks,
            final(self)@ == reset_start(old(self)@),
    {
        let ghost old_view = self@;
        let mut list: Vec<ClientInfo> = Vec::new();
        std::mem::swap(&mut list, &mut self.acks);
        self.status = GameStatus::Preparing;
        self.create_requested = false;
        self.tokens = Vec::new();
        assert(self@ == reset_start(old_view)) by {
            assert(self@.acks =~= Seq::<ClientInfoView>::empty());
            assert(self@.tokens =~= Seq::<PlayerToken>::empty());
        }
        list
    }

    /// The node created the game and handed out `tokens`. When every seated player has a
    /// token, the game is created and each seated player, in seat order, is to receive one of
    /// their tokens; otherwise the start is called off.
    pub fn node_created(&mut self, tokens: Vec<PlayerToken>) -> (r: CreateOutcome)
        requires
            old(self).wf(),
        ensures
            final(self).wf(),
            !awaiting_node(old(self)@) ==> r is Ignored && final(self)@ == old(self)@,
            awaiting_node(old(self)@) && all_have_tokens(old(self)@.slots, tokens@) ==> (r matches CreateOutcome::Created(
                d,
            ) && d@.len() == occupied_ids(old(self)@.slots).len() && (forall|i: int|
                0 <= i < d@.len() ==> #[trigger] d@[i].player_id == occupied_ids(old(self)@.slots)[i]
                    && tokens@.contains(d@[i])) && final(self)@ == (GameView {
                status: GameStatus::Created,
                acks: Seq::empty(),
                create_requested: false,
                tokens: tokens@,
                ..old(self)@
            })),
            final(self)@ == created_next(old(self)@, tokens@),
            awaiting_node(old(self)@) && !all_have_tokens(old(self)@.slots, tokens@) ==> (r
                == (CreateOutcome::Failed {
                host: old(self)@.host->0,
                error: NodeCreateError::Other,
            }) && final(self)@ == reset_start(old(self)@)),
    {
        if !(self.status == GameStatus::Starting && self.create_requested) {
            return CreateOutcome::Ignored;
        }
        let ghost old_view = self@;
        let host = match self.host_player_id {
            Some(h) => h,
            None => {
                return CreateOutcome::Ignored;
            },
        };
        let mut d: Vec<PlayerToken> = Vec::new();
        let ghost ids = occupied_ids(self@.slots);
        let mut i: usize = 0;
        while i < self.slots.len()
            invariant
                self@ == old_view,
                old_view == old(self)@,
                game_wf(old_view),
                awaiting_node(old_view),
                old_view.host == Some(host),
                ids == occupied_ids(self@.slots),
                i <= self.slots.len(),
                d@.len() == occupied_ids(self@.slots.subrange(0, i as int)).len(),
                forall|j: int|
                    0 <= j < d@.len() ==> #[trigger] d@[j].player_id == occupied_ids(
                        self@.slots.subrange(0, i as int),
                    )[j] && tokens@.contains(d@[j]),
                forall|j: int|
                    0 <= j < i && #[trigger] self@.slots[j].player_id is Some ==> has_token(
                        tokens@,
                        self@.slots[j].player_id->0,
                    ),
            decreases self.slots.len() - i,
        {
            let ghost pre = self@.slots.subrange(0, i as int);
            assert(self@.slots.subrange(0, i + 1).drop_last() =~= pre);
            if let Some(q) = self.slots[i].player_id {
                match find_token(&tokens, q) {
                    Some(k) => {
                        d.push(tokens[k]);
                        assert(tokens@.contains(tokens@[k as int]));
                    },
                    None => {
                        assert(self@.slots[i as int].player_id is Some);
                        assert(!all_have_tokens(old_view.slots, tokens@));
                        let _ = self.reset();
                        return CreateOutcome::Failed { host, error: NodeCreateError::Other };
                    },
                }
            }
            i = i + 1;
        }
        assert(self@.slots.subrange(0, i as int) =~= self@.slots);
        self.status = GameStatus::Created;
        self.create_requested = false;
        self.tokens = tokens;
        let mut empty: Vec<ClientInfo> = Vec::new();
        std::mem::swap(&mut empty, &mut self.acks);
        assert(self@.acks =~= Seq::<ClientInfoView>::empty());
        CreateOutcome::Created(d)
    }

    /// The node failed to create the game: the start is called off and the host is returned,
    /// to be told why.
    pub fn node_create_failed(&mut self) -> (r: Option<i32>)
        requires
            old(self).wf(),
        ensures
            final(self).wf(),
            awaiting_node(old(self)@) ==> r == old(self)@.host && r is Some && final(self)@
                == reset_start(old(self)@),
            !awaiting_node(old(self)@) ==> r is None && final(self)@ == old(self)@,
    {
        if !(self.status == GameStatus::Starting && self.create_requested) {
            return None;
        }
        let host = self.host_player_id;
        let _ = self.reset();
        host
    }

    /// The node reports that the hosted game is over: the game ends, every seat is emptied,
    /// and the players who sat in it are returned.
    pub fn end(&mut self) -> (r: Option<Vec<i32>>)
        requires
            old(self).wf(),
        ensures
            final(self).wf(),
            old(self)@.status == GameStatus::Created ==> (r matches Some(ids) && ids@ == occupied_ids(
                old(self)@.slots,
            ) && final(self)@ == (GameView {
                slots: old(self)@.slots.map_values(|s: Slot| cleared(s)),
                status: GameStatus::Ended,
                host: None,
                ..old(self)@
            })),
            old(self)@.status != GameStatus::Created ==> r is None && final(self)@ == old(self)@,
    {
        if self.status != GameStatus::Created {
            return None;
        }
        let ids = collect_ids(&self.slots, None);
        let ghost old_view = self@;
        let n = self.slots.len();
        let mut k: usize = 0;
        while k < n
            invariant
                n == self.slots.len(),
                n == old_view.slots.len(),
                k <= n,
                forall|j: int| 0 <= j < k ==> #[trigger] self.slots@[j] == cleared(old_view.slots[j]),
                forall|j: int| k <= j < n ==> #[trigger] self.slots@[j] == old_view.slots[j],
                self@ == (GameView { slots: self@.slots, ..old_view }),
            decreases n - k,
        {
            let s = self.slots[k];
            self.slots.set(
                k,
                Slot {
                    player_id: None,
                    settings: SlotSettings { status: SlotStatus::Open, ..s.settings },
                },
            );
            k = k + 1;
        }
        self.status = GameStatus::Ended;
        self.host_player_id = None;
        assert(self@.slots =~= old_view.slots.map_values(|s: Slot| cleared(s)));
        Some(ids)
    }

}

} // verus!
