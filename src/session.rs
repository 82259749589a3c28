use vstd::prelude::*;

use crate::frame::{type_id_of, PacketTypeId};

verus! {

/// Seconds between two pings of an idle connection.
pub const PING_INTERVAL_SECS: u64 = 30;

/// Seconds a client has to answer a ping.
pub const PING_TIMEOUT_SECS: u64 = 5;

/// Seconds the players have to acknowledge a start.
pub const START_TIMEOUT_SECS: u64 = 15;

/// Seconds a node has to create a game.
pub const NODE_CREATE_TIMEOUT_SECS: u64 = 30;

/// A client version.
#[derive(Debug, Clone, Copy, PartialEq, Eq, Structural)]
pub struct Version {
    pub major: u32,
    pub minor: u32,
    pub patch: u32,
}

/// Whether version `a` comes before version `b`.
pub open spec fn version_lt(a: Version, b: Version) -> bool {
    a.major < b.major || (a.major == b.major && (a.minor < b.minor || (a.minor == b.minor
        && a.patch < b.patch)))
}

impl Version {
    /// Whether this version comes before `other`.
    pub fn older_than(&self, other: &Version) -> (r: bool)
        ensures
            r == version_lt(*self, *other),
    {
        self.major < other.major || (self.major == other.major && (self.minor < other.minor || (
        self.minor == other.minor && self.patch < other.patch)))
    }
}

/// Why a connection attempt was refused.
#[derive(Debug, Clone, Copy, PartialEq, Eq, Structural)]
pub enum ConnectReject {
    InvalidToken,
    ClientVersionTooOld,
}

/// The session a successful handshake opens.
#[derive(Debug, Clone, Copy, PartialEq, Eq, Structural)]
pub struct ConnectState {
    pub player_id: i32,
    pub joined_game: Option<i32>,
}

/// Decides a handshake: `token_player` is the player the token was issued to, or `None`
/// when the token did not validate. The session starts outside any game; the game a player
/// already joined is looked up when the initial state is sent.
pub fn handle_handshake(token_player: Option<i32>) -> (r: Result<ConnectState, ConnectReject>)
    ensures
        token_player is None ==> r == Err::<ConnectState, ConnectReject>(ConnectReject::InvalidToken),
        token_player matches Some(p) ==> r == Ok::<ConnectState, ConnectReject>(
            ConnectState { player_id: p, joined_game: None },
        ),
{
    match token_player {
        None => Err(ConnectReject::InvalidToken),
        Some(p) => Ok(ConnectState { player_id: p, joined_game: None }),
    }
}

/// Decides whether an accepted client may stay: one older than `min_version` is told so and
/// closed.
pub fn check_client_version(client_version: Version, min_version: Version) -> (r: Result<(), ConnectReject>)
    ensures
        version_lt(client_version, min_version) ==> r == Err::<(), ConnectReject>(ConnectReject::ClientVersionTooOld),
        !version_lt(client_version, min_version) ==> r is Ok,
{
    if client_version.older_than(&min_version) {
        Err(ConnectReject::ClientVersionTooOld)
    } else {
        Ok(())
    }
}

/// Why the server closes a connection.
#[derive(Debug, Clone, Copy, PartialEq, Eq, Structural)]
pub enum CloseReason {
    /// The client did not answer a ping in time.
    HeartbeatTimeout,
    /// Another login of the same player took over.
    MultiLogin,
    /// The player's queue was dropped.
    SenderDropped,
}

/// Where an inbound frame goes.
#[derive(Debug, Clone, Copy, PartialEq, Eq, Structural)]
pub enum Route {
    Pong,
    GameSlotUpdate,
    ListNodes,
    PlayerPingMapUpdate,
    GamePlayerPingMapSnapshot,
    GameSelectNode,
    GameStart,
    GameStartPlayerClientInfo,
    Unknown,
}

/// Where a frame with type id `t` goes.
pub open spec fn route_of(t: u8) -> Route {
    if t == type_id_of(PacketTypeId::Pong) {
        Route::Pong
    } else if t == type_id_of(PacketTypeId::GameSlotUpdateRequest) {
        Route::GameSlotUpdate
    } else if t == type_id_of(PacketTypeId::ListNodesRequest) {
        Route::ListNodes
    } else if t == type_id_of(PacketTypeId::PlayerPingMapUpdateRequest) {
        Route::PlayerPingMapUpdate
    } else if t == type_id_of(PacketTypeId::GamePlayerPingMapSnapshotRequest) {
        Route::GamePlayerPingMapSnapshot
    } else if t == type_id_of(PacketTypeId::GameSelectNode) {
        Route::GameSelectNode
    } else if t == type_id_of(PacketTypeId::GameStartRequest) {
        Route::GameStart
    } else if t == type_id_of(PacketTypeId::GameStartPlayerClientInfoRequest) {
        Route::GameStartPlayerClientInfo
    } else {
        Route::Unknown
    }
}

/// Where a frame with type id `t` goes.
pub fn route(t: u8) -> (r: Route)
    ensures
        r == route_of(t),
{
    if t == PacketTypeId::Pong.id() {
        Route::Pong
    } else if t == PacketTypeId::GameSlotUpdateRequest.id() {
        Route::GameSlotUpdate
    } else if t == PacketTypeId::ListNodesRequest.id() {
        Route::ListNodes
    } else if t == PacketTypeId::PlayerPingMapUpdateRequest.id() {
        Route::PlayerPingMapUpdate
    } else if t == PacketTypeId::GamePlayerPingMapSnapshotRequest.id() {
        Route::GamePlayerPingMapSnapshot
    } else if t == PacketTypeId::GameSelectNode.id() {
        Route::GameSelectNode
    } else if t == PacketTypeId::GameStartRequest.id() {
        Route::GameStart
    } else if t == PacketTypeId::GameStartPlayerClientInfoRequest.id() {
        Route::GameStartPlayerClientInfo
    } else {
        Route::Unknown
    }
}

/// Something that happened to a connection.
#[derive(Debug, Clone, Copy, PartialEq, Eq, Structural)]
pub enum ConnEvent {
    /// The ping interval passed.
    PingDue,
    /// The time to answer a ping passed.
    PongTimeout,
    /// A frame with this type id arrived.
    Inbound(u8),
    /// A frame with this type id was taken from the player's queue.
    Outbound(u8),
    /// The player's queue asks to close with this reason.
    OutboundDisconnect(CloseReason),
    /// The player's queue is gone.
    QueueClosed,
}

/// What the connection task is to do.
#[derive(Debug, Clone, Copy, PartialEq, Eq, Structural)]
pub enum ConnAction {
    /// Send a ping and arm the answer timeout.
    SendPing,
    /// Hand the frame to its route; any pending answer timeout is cancelled.
    Dispatch(Route),
    /// Write the frame taken from the queue.
    Write,
    /// Tell the client why, then close.
    NotifyAndClose(CloseReason),
    /// Close without a word.
    Close(CloseReason),
    /// Nothing to do.
    Nothing,
}

/// The heartbeat state of a connection.
#[derive(Debug, Clone, Copy, PartialEq, Eq, Structural)]
pub struct ConnState {
    /// A ping was sent and no frame arrived since.
    pub awaiting_pong: bool,
    /// The connection is closed; nothing further happens on it.
    pub closed: bool,
}

/// The next state and action of a connection on an event.
pub open spec fn conn_step_spec(s: ConnState, e: ConnEvent) -> (ConnState, ConnAction) {
    if s.closed {
        (s, ConnAction::Nothing)
    } else {
        match e {
            ConnEvent::PingDue => (ConnState { awaiting_pong: true, closed: false }, ConnAction::SendPing),
            ConnEvent::PongTimeout => if s.awaiting_pong {
                (ConnState { awaiting_pong: false, closed: true }, ConnAction::Close(CloseReason::HeartbeatTimeout))
            } else {
                (s, ConnAction::Nothing)
            },
            ConnEvent::Inbound(t) => (ConnState { awaiting_pong: false, closed: false }, ConnAction::Dispatch(route_of(t))),
            ConnEvent::Outbound(_) => (s, ConnAction::Write),
            ConnEvent::OutboundDisconnect(reason) => (ConnState { awaiting_pong: false, closed: true }, ConnAction::NotifyAndClose(reason)),
            ConnEvent::QueueClosed => (ConnState { awaiting_pong: false, closed: true }, ConnAction::Close(CloseReason::SenderDropped)),
        }
    }
}

impl ConnState {
    /// A freshly accepted connection.
    pub fn new() -> (r: ConnState)
        ensures
            !r.awaiting_pong,
            !r.closed,
    {
        ConnState { awaiting_pong: false, closed: false }
    }

    /// Advances the connection on event `e`, and returns what to do. A closed connection
    /// stays closed and does nothing, so its cleanup runs once.
    pub fn step(&mut self, e: ConnEvent) -> (r: ConnAction)
        ensures
            (*final(self), r) == conn_step_spec(*old(self), e),
    {
        if self.closed {
            return ConnAction::Nothing;
        }
        match e {
            ConnEvent::PingDue => {
                self.awaiting_pong = true;
                ConnAction::SendPing
            },
            ConnEvent::PongTimeout => {
                if self.awaiting_pong {
                    self.awaiting_pong = false;
                    self.closed = true;
                    ConnAction::Close(CloseReason::HeartbeatTimeout)
                } else {
                    ConnAction::Nothing
                }
            },
            ConnEvent::Inbound(t) => {
                self.awaiting_pong = false;
                ConnAction::Dispatch(route(t))
            },
            ConnEvent::Outbound(_) => ConnAction::Write,
            ConnEvent::OutboundDisconnect(reason) => {
                self.awaiting_pong = false;
                self.closed = true;
                ConnAction::NotifyAndClose(reason)
            },
            ConnEvent::QueueClosed => {
                self.awaiting_pong = false;
                self.closed = true;
                ConnAction::Close(CloseReason::SenderDropped)
            },
        }
    }
}

/// Once closed, a connection takes no further action, whatever happens: the player is
/// disconnected from the registry exactly once, when it closes.
pub proof fn lemma_closed_is_final(s: ConnState, e: ConnEvent)
    requires
        s.closed,
    ensures
        conn_step_spec(s, e) == (s, ConnAction::Nothing),
{
}

/// The packets a newly connected player is first sent: the accept; then, when they are in
/// a game, its info; then, when they hold a token for it, the token, which needs the game's
/// node. `Err` when a token is held but no node is selected.
pub fn initial_packets(game_id: Option<i32>, node_id: Option<i32>, has_token: bool) -> (r: Result<
    Vec<PacketTypeId>,
    crate::game::GameError,
>)
    ensures
        game_id is None ==> (r matches Ok(v) && v@ == seq![PacketTypeId::ConnectAccept]),
        game_id is Some && !has_token ==> (r matches Ok(v) && v@ == seq![
            PacketTypeId::ConnectAccept,
            PacketTypeId::GameInfo,
        ]),
        game_id is Some && has_token && node_id is Some ==> (r matches Ok(v) && v@ == seq![
            PacketTypeId::ConnectAccept,
            PacketTypeId::GameInfo,
            PacketTypeId::GamePlayerToken,
        ]),
        game_id is Some && has_token && node_id is None ==> r == Err::<Vec<PacketTypeId>, crate::game::GameError>(
            crate::game::GameError::GameNodeNotSelected,
        ),
{
    let mut v: Vec<PacketTypeId> = Vec::new();
    v.push(PacketTypeId::ConnectAccept);
    if game_id.is_some() {
        v.push(PacketTypeId::GameInfo);
        if has_token {
            if node_id.is_none() {
                return Err(crate::game::GameError::GameNodeNotSelected);
            }
            v.push(PacketTypeId::GamePlayerToken);
        }
    }
    assert(game_id is None ==> v@ =~= seq![PacketTypeId::ConnectAccept]);
    assert(game_id is Some && !has_token ==> v@ =~= seq![PacketTypeId::ConnectAccept, PacketTypeId::GameInfo]);
    assert(game_id is Some && has_token ==> v@ =~= seq![
        PacketTypeId::ConnectAccept,
        PacketTypeId::GameInfo,
        PacketTypeId::GamePlayerToken,
    ]);
    Ok(v)
}

/// Whether a frame of this type may never be evicted from an outbound queue: pings and
/// every packet of the start handshake.
pub open spec fn critical_spec(t: u8) -> bool {
    t == type_id_of(PacketTypeId::Ping) || t == type_id_of(PacketTypeId::ClientDisconnect)
        || t == type_id_of(PacketTypeId::GameStarting) || t == type_id_of(PacketTypeId::GameStartReject)
        || t == type_id_of(PacketTypeId::GamePlayerToken)
}

/// Whether a frame of this type may never be evicted from an outbound queue.
pub fn is_critical(t: u8) -> (r: bool)
    ensures
        r == critical_spec(t),
{
    t == PacketTypeId::Ping.id() || t == PacketTypeId::ClientDisconnect.id()
        || t == PacketTypeId::GameStarting.id() || t == PacketTypeId::GameStartReject.id()
        || t == PacketTypeId::GamePlayerToken.id()
}

} // verus!
