//! Session plane of a lobby service for a real-time strategy game: the framed wire codec,
//! the protobuf-style field layer, the stat-string and game-settings codecs of the game wire,
//! the per-game start handshake, the player registry with its join/seat consistency, the
//! outbound queues and broadcasts, and the connection's heartbeat decisions. Sockets, timers
//! and threads live with the caller; every decision is taken here.

use vstd::prelude::*;

pub mod frame;
pub mod pb;
pub mod packets;
pub mod stat_string;
pub mod game;
pub mod lobby;
pub mod chat;
pub mod game_settings;
pub mod outbound;
pub mod session;
pub mod map;
pub mod node;

verus! {

} // verus!
