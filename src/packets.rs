use vstd::prelude::*;

use crate::frame::{type_id_of, Frame, PacketTypeId};
use crate::game::{Game, GameStatus, GameView, Slot, SlotSettings, SlotStatus};
use crate::game::ClientInfo;
use crate::lobby::{NodePings, PingStats};
use crate::node::Node;
use vstd::utf8::encode_utf8;
use crate::pb::{
    decode_message, encode_message, get_bytes, get_varint, last_bytes, last_varint, message_bytes,
    parse_fields, Field, FieldView, WireValue, WireValueView, MAX_FIELD_NUMBER,
};
use crate::session::Version;

verus! {

/// The fields of a message held in `payload`, as views.
pub open spec fn views(fs: Seq<Field>) -> Seq<FieldView> {
    fs.map_values(|f: Field| f@)
}

/// An `int32` field.
pub open spec fn int32_view(number: u32, v: i32) -> FieldView {
    FieldView { number, value: WireValueView::Varint(v as i64 as u64) }
}

/// A varint field.
pub open spec fn varint_view(number: u32, v: u64) -> FieldView {
    FieldView { number, value: WireValueView::Varint(v) }
}

/// A length-delimited field.
pub open spec fn bytes_view(number: u32, b: Seq<u8>) -> FieldView {
    FieldView { number, value: WireValueView::Bytes(b) }
}

/// The `int32` value of the last varint field `number` of `fs`.
pub open spec fn int32_of(fs: Seq<FieldView>, number: u32) -> Option<i32> {
    match last_varint(fs, number) {
        Some(v) => Some(v as i32),
        None => None,
    }
}

/// The fields of `payload`, when it is a well-formed message.
pub open spec fn payload_fields(payload: Seq<u8>) -> Option<Seq<FieldView>> {
    parse_fields(payload, 0)
}

fn int32_field(number: u32, v: i32) -> (r: Field)
    ensures
        r@ == int32_view(number, v),
{
    Field { number, value: WireValue::Varint(v as i64 as u64) }
}

fn varint_field(number: u32, v: u64) -> (r: Field)
    ensures
        r@ == varint_view(number, v),
{
    Field { number, value: WireValue::Varint(v) }
}

fn bytes_field(number: u32, b: Vec<u8>) -> (r: Field)
    ensures
        r@ == bytes_view(number, b@),
{
    Field { number, value: WireValue::Bytes(b) }
}

fn frame_of(kind: PacketTypeId, fields: &Vec<Field>) -> (r: Frame)
    requires
        forall|k: int| 0 <= k < fields@.len() ==> #[trigger] fields@[k].number <= MAX_FIELD_NUMBER,
    ensures
        r.type_id == type_id_of(kind),
        r.payload@ == message_bytes(views(fields@)),
{
    Frame { type_id: kind.id(), payload: encode_message(fields) }
}

fn int32_of_fields(fields: &Vec<Field>, number: u32) -> (r: Option<i32>)
    ensures
        r == int32_of(views(fields@), number),
{
    match get_varint(fields, number) {
        Some(v) => Some(v as i32),
        None => None,
    }
}

/// A `Ping` carrying the server's clock in milliseconds.
pub fn ping(ms: u32) -> (r: Frame)
    ensures
        r.type_id == type_id_of(PacketTypeId::Ping),
        r.payload@ == message_bytes(seq![varint_view(1, ms as u64)]),
{
    let mut f: Vec<Field> = Vec::new();
    f.push(varint_field(1, ms as u64));
    let r = frame_of(PacketTypeId::Ping, &f);
    assert(views(f@) =~= seq![varint_view(1, ms as u64)]);
    r
}

/// A `ClientDisconnect` with a reason code.
pub fn client_disconnect(reason: i32) -> (r: Frame)
    ensures
        r.type_id == type_id_of(PacketTypeId::ClientDisconnect),
        r.payload@ == message_bytes(seq![int32_view(1, reason)]),
{
    let mut f: Vec<Field> = Vec::new();
    f.push(int32_field(1, reason));
    let r = frame_of(PacketTypeId::ClientDisconnect, &f);
    assert(views(f@) =~= seq![int32_view(1, reason)]);
    r
}

/// The fields of a version.
pub open spec fn version_fields(v: Version) -> Seq<FieldView> {
    seq![varint_view(1, v.major as u64), varint_view(2, v.minor as u64), varint_view(3, v.patch as u64)]
}

/// Encodes a version as a nested message.
pub fn encode_version(v: &Version) -> (r: Vec<u8>)
    ensures
        r@ == message_bytes(version_fields(*v)),
{
    let mut f: Vec<Field> = Vec::new();
    f.push(varint_field(1, v.major as u64));
    f.push(varint_field(2, v.minor as u64));
    f.push(varint_field(3, v.patch as u64));
    let r = encode_message(&f);
    assert(views(f@) =~= version_fields(*v));
    r
}

/// A `ConnectReject`: the lobby's version and the reason code.
pub fn connect_reject(lobby_version: &Version, reason: i32) -> (r: Frame)
    ensures
        r.type_id == type_id_of(PacketTypeId::ConnectReject),
        r.payload@ == message_bytes(seq![bytes_view(1, message_bytes(version_fields(*lobby_version))), int32_view(2, reason)]),
{
    let mut f: Vec<Field> = Vec::new();
    f.push(bytes_field(1, encode_version(lobby_version)));
    f.push(int32_field(2, reason));
    let r = frame_of(PacketTypeId::ConnectReject, &f);
    assert(views(f@) =~= seq![bytes_view(1, message_bytes(version_fields(*lobby_version))), int32_view(2, reason)]);
    r
}

/// A `GameStarting` for game `game_id`.
pub fn game_starting(game_id: i32) -> (r: Frame)
    ensures
        r.type_id == type_id_of(PacketTypeId::GameStarting),
        r.payload@ == message_bytes(seq![int32_view(1, game_id)]),
{
    let mut f: Vec<Field> = Vec::new();
    f.push(int32_field(1, game_id));
    let r = frame_of(PacketTypeId::GameStarting, &f);
    assert(views(f@) =~= seq![int32_view(1, game_id)]);
    r
}

/// A `GameSelectNode`: game `game_id` now uses node `node_id`, or none.
pub fn game_select_node(game_id: i32, node_id: Option<i32>) -> (r: Frame)
    ensures
        r.type_id == type_id_of(PacketTypeId::GameSelectNode),
        node_id is None ==> r.payload@ == message_bytes(seq![int32_view(1, game_id)]),
        node_id matches Some(n) ==> r.payload@ == message_bytes(seq![int32_view(1, game_id), int32_view(2, n)]),
{
    let mut f: Vec<Field> = Vec::new();
    f.push(int32_field(1, game_id));
    if let Some(n) = node_id {
        f.push(int32_field(2, n));
    }
    let r = frame_of(PacketTypeId::GameSelectNode, &f);
    assert(node_id is None ==> views(f@) =~= seq![int32_view(1, game_id)]);
    assert(node_id is Some ==> views(f@) =~= seq![int32_view(1, game_id), int32_view(2, node_id->0)]);
    r
}

/// A `GamePlayerLeave`: player `player_id` left game `game_id` for reason code `reason`.
pub fn game_player_leave(game_id: i32, player_id: i32, reason: i32) -> (r: Frame)
    ensures
        r.type_id == type_id_of(PacketTypeId::GamePlayerLeave),
        r.payload@ == message_bytes(seq![int32_view(1, game_id), int32_view(2, player_id), int32_view(3, reason)]),
{
    let mut f: Vec<Field> = Vec::new();
    f.push(int32_field(1, game_id));
    f.push(int32_field(2, player_id));
    f.push(int32_field(3, reason));
    let r = frame_of(PacketTypeId::GamePlayerLeave, &f);
    assert(views(f@) =~= seq![int32_view(1, game_id), int32_view(2, player_id), int32_view(3, reason)]);
    r
}

/// A `GamePlayerToken`: the token of player `player_id` for game `game_id` on node `node_id`.
pub fn game_player_token(node_id: i32, game_id: i32, player_id: i32, token: [u8; 16]) -> (r: Frame)
    ensures
        r.type_id == type_id_of(PacketTypeId::GamePlayerToken),
        r.payload@ == message_bytes(
            seq![int32_view(1, node_id), int32_view(2, game_id), int32_view(3, player_id), bytes_view(4, token@)],
        ),
{
    let mut t: Vec<u8> = Vec::new();
    let mut i: usize = 0;
    while i < 16
        invariant
            i <= 16,
            t@ == token@.subrange(0, i as int),
        decreases 16 - i,
    {
        t.push(token[i]);
        assert(token@.subrange(0, i + 1) =~= token@.subrange(0, i as int).push(token@[i as int]));
        i = i + 1;
    }
    assert(token@.subrange(0, 16) =~= token@);
    let mut f: Vec<Field> = Vec::new();
    f.push(int32_field(1, node_id));
    f.push(int32_field(2, game_id));
    f.push(int32_field(3, player_id));
    f.push(bytes_field(4, t));
    let r = frame_of(PacketTypeId::GamePlayerToken, &f);
    assert(views(f@) =~= seq![int32_view(1, node_id), int32_view(2, game_id), int32_view(3, player_id), bytes_view(4, token@)]);
    r
}

/// The wire code of a seat status.
pub open spec fn slot_status_code(s: SlotStatus) -> i32 {
    match s {
        SlotStatus::Open => 0,
        SlotStatus::Closed => 1,
        SlotStatus::Occupied => 2,
    }
}

/// The seat status of a wire code; unknown codes read as open.
pub open spec fn slot_status_of(c: i32) -> SlotStatus {
    if c == 1 {
        SlotStatus::Closed
    } else if c == 2 {
        SlotStatus::Occupied
    } else {
        SlotStatus::Open
    }
}

/// The fields of a seat's settings.
pub open spec fn settings_fields(s: SlotSettings) -> Seq<FieldView> {
    seq![
        int32_view(1, s.team),
        int32_view(2, s.color),
        int32_view(3, s.computer),
        int32_view(4, s.handicap),
        int32_view(5, slot_status_code(s.status)),
        int32_view(6, s.race),
    ]
}

/// Encodes a seat's settings as a nested message.
pub fn encode_settings(s: &SlotSettings) -> (r: Vec<u8>)
    ensures
        r@ == message_bytes(settings_fields(*s)),
{
    let code: i32 = match s.status {
        SlotStatus::Open => 0,
        SlotStatus::Closed => 1,
        SlotStatus::Occupied => 2,
    };
    let mut f: Vec<Field> = Vec::new();
    f.push(int32_field(1, s.team));
    f.push(int32_field(2, s.color));
    f.push(int32_field(3, s.computer));
    f.push(int32_field(4, s.handicap));
    f.push(int32_field(5, code));
    f.push(int32_field(6, s.race));
    let r = encode_message(&f);
    assert(views(f@) =~= settings_fields(*s));
    r
}

/// The settings read from the fields of a nested message; missing fields read as zero.
pub open spec fn settings_of(fs: Seq<FieldView>) -> SlotSettings {
    let get = |n: u32| match int32_of(fs, n) {
        Some(v) => v,
        None => 0i32,
    };
    SlotSettings {
        team: get(1),
        color: get(2),
        computer: get(3),
        handicap: get(4),
        status: slot_status_of(get(5)),
        race: get(6),
    }
}

fn int32_or_zero(fields: &Vec<Field>, number: u32) -> (r: i32)
    ensures
        r == match int32_of(views(fields@), number) {
            Some(v) => v,
            None => 0i32,
        },
{
    match int32_of_fields(fields, number) {
        Some(v) => v,
        None => 0,
    }
}

/// Reads a seat's settings from a nested message.
pub fn decode_settings(b: &[u8]) -> (r: Option<SlotSettings>)
    ensures
        match payload_fields(b@) {
            None => r is None,
            Some(fs) => r == Some(settings_of(fs)),
        },
{
    let fields = match decode_message(b) {
        Some(f) => f,
        None => {
            return None;
        },
    };
    let c = int32_or_zero(&fields, 5);
    let status = if c == 1 {
        SlotStatus::Closed
    } else if c == 2 {
        SlotStatus::Occupied
    } else {
        SlotStatus::Open
    };
    Some(
        SlotSettings {
            team: int32_or_zero(&fields, 1),
            color: int32_or_zero(&fields, 2),
            computer: int32_or_zero(&fields, 3),
            handicap: int32_or_zero(&fields, 4),
            status,
            race: int32_or_zero(&fields, 6),
        },
    )
}

/// A `GameSlotUpdate`: seat `slot_index` of game `game_id` now holds `settings`.
pub fn game_slot_update(game_id: i32, slot_index: i32, settings: &SlotSettings) -> (r: Frame)
    ensures
        r.type_id == type_id_of(PacketTypeId::GameSlotUpdate),
        r.payload@ == message_bytes(
            seq![int32_view(1, game_id), int32_view(2, slot_index), bytes_view(3, message_bytes(settings_fields(*settings)))],
        ),
{
    let mut f: Vec<Field> = Vec::new();
    f.push(int32_field(1, game_id));
    f.push(int32_field(2, slot_index));
    f.push(bytes_field(3, encode_settings(settings)));
    let r = frame_of(PacketTypeId::GameSlotUpdate, &f);
    assert(views(f@) =~= seq![int32_view(1, game_id), int32_view(2, slot_index), bytes_view(3, message_bytes(settings_fields(*settings)))]);
    r
}

/// A request that names a game: its game id, field 1.
pub fn decode_game_id(payload: &[u8]) -> (r: Option<i32>)
    ensures
        match payload_fields(payload@) {
            None => r is None,
            Some(fs) => r == int32_of(fs, 1),
        },
{
    match decode_message(payload) {
        Some(fields) => int32_of_fields(&fields, 1),
        None => None,
    }
}

/// A `GameSelectNodeRequest`: the game id and the node, if one is chosen.
pub fn decode_select_node_request(payload: &[u8]) -> (r: Option<(i32, Option<i32>)>)
    ensures
        match payload_fields(payload@) {
            None => r is None,
            Some(fs) => match int32_of(fs, 1) {
                None => r is None,
                Some(g) => r == Some((g, int32_of(fs, 2))),
            },
        },
{
    let fields = match decode_message(payload) {
        Some(f) => f,
        None => {
            return None;
        },
    };
    match int32_of_fields(&fields, 1) {
        Some(g) => Some((g, int32_of_fields(&fields, 2))),
        None => None,
    }
}

/// A `GameSlotUpdateRequest`: the game id, the seat index and the requested settings.
pub fn decode_slot_update_request(payload: &[u8]) -> (r: Option<(i32, i32, SlotSettings)>)
    ensures
        match payload_fields(payload@) {
            None => r is None,
            Some(fs) => match (int32_of(fs, 1), int32_of(fs, 2), last_bytes(fs, 3)) {
                (Some(g), Some(i), Some(b)) => match payload_fields(b) {
                    Some(sf) => r == Some((g, i, settings_of(sf))),
                    None => r is None,
                },
                _ => r is None,
            },
        },
{
    let fields = match decode_message(payload) {
        Some(f) => f,
        None => {
            return None;
        },
    };
    let g = int32_of_fields(&fields, 1);
    let i = int32_of_fields(&fields, 2);
    let b = get_bytes(&fields, 3);
    match (g, i, b) {
        (Some(g), Some(i), Some(b)) => match decode_settings(b.as_slice()) {
            Some(s) => Some((g, i, s)),
            None => None,
        },
        _ => None,
    }
}

/// A `GameStartPlayerClientInfoRequest`: the game id, the game version's bytes and the map
/// hash.
pub fn decode_client_info_request(payload: &[u8]) -> (r: Option<(i32, Vec<u8>, Vec<u8>)>)
    ensures
        match payload_fields(payload@) {
            None => r is None,
            Some(fs) => match (int32_of(fs, 1), last_bytes(fs, 2), last_bytes(fs, 3)) {
                (Some(g), Some(v), Some(h)) => r matches Some((g2, v2, h2)) && g2 == g && v2@ == v && h2@ == h,
                _ => r is None,
            },
        },
{
    let fields = match decode_message(payload) {
        Some(f) => f,
        None => {
            return None;
        },
    };
    match (int32_of_fields(&fields, 1), get_bytes(&fields, 2), get_bytes(&fields, 3)) {
        (Some(g), Some(v), Some(h)) => Some((g, v, h)),
        _ => None,
    }
}

/// The low 32 bits of the last varint field `number` of `fs`, or zero.
pub open spec fn u32_of(fs: Seq<FieldView>, number: u32) -> u32 {
    match last_varint(fs, number) {
        Some(v) => v as u32,
        None => 0u32,
    }
}

/// The version read from the fields of a nested message; missing parts read as zero.
pub open spec fn version_of(fs: Seq<FieldView>) -> Version {
    Version { major: u32_of(fs, 1), minor: u32_of(fs, 2), patch: u32_of(fs, 3) }
}

fn u32_or_zero(fields: &Vec<Field>, number: u32) -> (r: u32)
    ensures
        r == u32_of(views(fields@), number),
{
    match get_varint(fields, number) {
        Some(v) => v as u32,
        None => 0,
    }
}

/// A `ConnectLobby`: the client's version (field 1, nested) and its token (field 2).
pub fn decode_connect_lobby(payload: &[u8]) -> (r: Option<(Version, Vec<u8>)>)
    ensures
        match payload_fields(payload@) {
            None => r is None,
            Some(fs) => match (last_bytes(fs, 1), last_bytes(fs, 2)) {
                (Some(vb), Some(t)) => match payload_fields(vb) {
                    Some(vf) => r matches Some((v, t2)) && v == version_of(vf) && t2@ == t,
                    None => r is None,
                },
                _ => r is None,
            },
        },
{
    let fields = match decode_message(payload) {
        Some(f) => f,
        None => {
            return None;
        },
    };
    match (get_bytes(&fields, 1), get_bytes(&fields, 2)) {
        (Some(vb), Some(t)) => match decode_message(vb.as_slice()) {
            Some(vf) => Some(
                (
                    Version {
                        major: u32_or_zero(&vf, 1),
                        minor: u32_or_zero(&vf, 2),
                        patch: u32_or_zero(&vf, 3),
                    },
                    t,
                ),
            ),
            None => None,
        },
        _ => None,
    }
}

/// The fields of ping statistics.
pub open spec fn stats_fields(s: PingStats) -> Seq<FieldView> {
    seq![
        varint_view(1, s.min as u64),
        varint_view(2, s.max as u64),
        varint_view(3, s.avg as u64),
        varint_view(4, s.current as u64),
        varint_view(5, s.loss_rate as u64),
    ]
}

/// Encodes ping statistics as a nested message.
pub fn encode_stats(s: &PingStats) -> (r: Vec<u8>)
    ensures
        r@ == message_bytes(stats_fields(*s)),
{
    let mut f: Vec<Field> = Vec::new();
    f.push(varint_field(1, s.min as u64));
    f.push(varint_field(2, s.max as u64));
    f.push(varint_field(3, s.avg as u64));
    f.push(varint_field(4, s.current as u64));
    f.push(varint_field(5, s.loss_rate as u64));
    let r = encode_message(&f);
    assert(views(f@) =~= stats_fields(*s));
    r
}

/// Reads ping statistics from a nested message; missing parts read as zero.
pub fn decode_stats(b: &[u8]) -> (r: Option<PingStats>)
    ensures
        match payload_fields(b@) {
            None => r is None,
            Some(fs) => r == Some(stats_of(fs)),
        },
{
    let fields = match decode_message(b) {
        Some(f) => f,
        None => {
            return None;
        },
    };
    Some(
        PingStats {
            min: u32_or_zero(&fields, 1),
            max: u32_or_zero(&fields, 2),
            avg: u32_or_zero(&fields, 3),
            current: u32_or_zero(&fields, 4),
            loss_rate: u32_or_zero(&fields, 5),
        },
    )
}

/// Seat settings read back from their encoding are the settings written.
pub proof fn lemma_settings_round_trip(st: SlotSettings)
    ensures
        payload_fields(message_bytes(settings_fields(st))) == Some(settings_fields(st)),
        settings_of(settings_fields(st)) == st,
{
    let fs = settings_fields(st);
    assert forall|k: int| 0 <= k < fs.len() implies crate::pb::field_wf(#[trigger] fs[k]) by {}
    crate::pb::lemma_message_round_trip(fs);
    reveal_with_fuel(last_varint, 7);
    crate::pb::lemma_int32_round_trip(st.team);
    crate::pb::lemma_int32_round_trip(st.color);
    crate::pb::lemma_int32_round_trip(st.computer);
    crate::pb::lemma_int32_round_trip(st.handicap);
    crate::pb::lemma_int32_round_trip(st.race);
    crate::pb::lemma_int32_round_trip(slot_status_code(st.status));
    assert(fs.drop_last().drop_last().drop_last().drop_last().drop_last() =~= seq![int32_view(1, st.team)]);
}

/// Ping statistics read back from their encoding are the statistics written.
pub proof fn lemma_stats_round_trip(st: PingStats)
    ensures
        payload_fields(message_bytes(stats_fields(st))) == Some(stats_fields(st)),
        u32_of(stats_fields(st), 1) == st.min,
        u32_of(stats_fields(st), 2) == st.max,
        u32_of(stats_fields(st), 3) == st.avg,
        u32_of(stats_fields(st), 4) == st.current,
        u32_of(stats_fields(st), 5) == st.loss_rate,
{
    let fs = stats_fields(st);
    assert forall|k: int| 0 <= k < fs.len() implies crate::pb::field_wf(#[trigger] fs[k]) by {}
    crate::pb::lemma_message_round_trip(fs);
    reveal_with_fuel(last_varint, 6);
}

/// A request naming game `g` reads back as naming `g`.
pub proof fn lemma_game_id_round_trip(g: i32)
    ensures
        payload_fields(message_bytes(seq![int32_view(1, g)])) == Some(seq![int32_view(1, g)]),
        int32_of(seq![int32_view(1, g)], 1) == Some(g),
{
    let fs = seq![int32_view(1, g)];
    assert forall|k: int| 0 <= k < fs.len() implies crate::pb::field_wf(#[trigger] fs[k]) by {}
    crate::pb::lemma_message_round_trip(fs);
    crate::pb::lemma_int32_round_trip(g);
    reveal_with_fuel(last_varint, 2);
}

fn copy_slice(b: &[u8]) -> (r: Vec<u8>)
    ensures
        r@ == b@,
{
    let mut out: Vec<u8> = Vec::new();
    let mut i: usize = 0;
    while i < b.len()
        invariant
            i <= b.len(),
            out@ == b@.subrange(0, i as int),
        decreases b.len() - i,
    {
        out.push(b[i]);
        assert(b@.subrange(0, i + 1) =~= b@.subrange(0, i as int).push(b@[i as int]));
        i = i + 1;
    }
    assert(b@.subrange(0, b.len() as int) =~= b@);
    out
}

/// The UTF-8 bytes of a string.
fn utf8_of(s: &String) -> (r: Vec<u8>)
    ensures
        r@ == encode_utf8(s@),
{
    copy_slice(s.as_str().as_bytes())
}

/// The fields of a player: id and name.
pub open spec fn player_fields(player_id: i32, name: Seq<char>) -> Seq<FieldView> {
    seq![int32_view(1, player_id), bytes_view(2, encode_utf8(name))]
}

/// The fields of a session: the player, their status (1 in a game, 0 idle), and the game.
pub open spec fn session_fields(player_id: i32, name: Seq<char>, game_id: Option<i32>) -> Seq<FieldView> {
    match game_id {
        None => seq![bytes_view(1, message_bytes(player_fields(player_id, name))), int32_view(2, 0)],
        Some(g) => seq![bytes_view(1, message_bytes(player_fields(player_id, name))), int32_view(2, 1), int32_view(3, g)],
    }
}

/// The payload of a `ConnectAccept`: the lobby's version, the session, then one nested
/// message per node.
pub open spec fn accept_fields(lobby_version: Version, player_id: i32, name: Seq<char>, game_id: Option<i32>, nodes: Seq<Node>) -> Seq<FieldView> {
    seq![
        bytes_view(1, message_bytes(version_fields(lobby_version))),
        bytes_view(2, message_bytes(session_fields(player_id, name, game_id))),
    ] + Seq::new(nodes.len(), |i: int| bytes_view(3, message_bytes(node_fields(nodes[i]))))
}

fn encode_node(n: &Node) -> (r: Vec<u8>)
    ensures
        r@ == message_bytes(node_fields(*n)),
{
    let mut nf: Vec<Field> = Vec::new();
    nf.push(int32_field(1, n.id));
    nf.push(bytes_field(2, utf8_of(&n.name)));
    nf.push(bytes_field(3, utf8_of(&n.addr)));
    nf.push(bytes_field(4, utf8_of(&n.country)));
    assert(views(nf@) =~= node_fields(*n));
    encode_message(&nf)
}

/// A `ConnectAccept`: the lobby's version, the session of `player_id` named `name`, and the
/// nodes.
pub fn connect_accept(lobby_version: &Version, player_id: i32, name: &String, game_id: Option<i32>, nodes: &Vec<Node>) -> (r: Frame)
    ensures
        r.type_id == type_id_of(PacketTypeId::ConnectAccept),
        r.payload@ == message_bytes(accept_fields(*lobby_version, player_id, name@, game_id, nodes@)),
{
    let mut pf: Vec<Field> = Vec::new();
    pf.push(int32_field(1, player_id));
    pf.push(bytes_field(2, utf8_of(name)));
    assert(views(pf@) =~= player_fields(player_id, name@));
    let mut session: Vec<Field> = Vec::new();
    session.push(bytes_field(1, encode_message(&pf)));
    match game_id {
        None => {
            session.push(int32_field(2, 0));
        },
        Some(g) => {
            session.push(int32_field(2, 1));
            session.push(int32_field(3, g));
        },
    }
    assert(views(session@) =~= session_fields(player_id, name@, game_id));
    let ghost head = seq![
        bytes_view(1, message_bytes(version_fields(*lobby_version))),
        bytes_view(2, message_bytes(session_fields(player_id, name@, game_id))),
    ];
    let ghost tail = Seq::new(nodes@.len(), |i: int| bytes_view(3, message_bytes(node_fields(nodes@[i]))));
    let mut f: Vec<Field> = Vec::new();
    f.push(bytes_field(1, encode_version(lobby_version)));
    f.push(bytes_field(2, encode_message(&session)));
    assert(views(f@) =~= head + tail.subrange(0, 0));
    let mut k: usize = 0;
    while k < nodes.len()
        invariant
            k <= nodes.len(),
            tail == Seq::new(nodes@.len(), |i: int| bytes_view(3, message_bytes(node_fields(nodes@[i])))),
            views(f@) == head + tail.subrange(0, k as int),
            forall|a: int| 0 <= a < f@.len() ==> #[trigger] f@[a].number <= MAX_FIELD_NUMBER,
        decreases nodes.len() - k,
    {
        let ghost before = views(f@);
        f.push(bytes_field(3, encode_node(&nodes[k])));
        assert(views(f@) =~= before.push(tail[k as int]));
        assert(views(f@) =~= head + tail.subrange(0, k + 1));
        k = k + 1;
    }
    assert(tail.subrange(0, nodes@.len() as int) =~= tail);
    assert(head + tail =~= accept_fields(*lobby_version, player_id, name@, game_id, nodes@));
    frame_of(PacketTypeId::ConnectAccept, &f)
}

/// The fields of a node.
pub open spec fn node_fields(n: Node) -> Seq<FieldView> {
    seq![
        int32_view(1, n.id),
        bytes_view(2, encode_utf8(n.name@)),
        bytes_view(3, encode_utf8(n.addr@)),
        bytes_view(4, encode_utf8(n.country@)),
    ]
}

/// A `ListNodes`: one nested node message per node, in order.
pub fn list_nodes(nodes: &Vec<Node>) -> (r: Frame)
    ensures
        r.type_id == type_id_of(PacketTypeId::ListNodes),
        r.payload@ == message_bytes(Seq::new(nodes@.len(), |i: int| bytes_view(1, message_bytes(node_fields(nodes@[i]))))),
{
    let ghost want = Seq::new(nodes@.len(), |i: int| bytes_view(1, message_bytes(node_fields(nodes@[i]))));
    let mut f: Vec<Field> = Vec::new();
    let mut k: usize = 0;
    while k < nodes.len()
        invariant
            k <= nodes.len(),
            want == Seq::new(nodes@.len(), |i: int| bytes_view(1, message_bytes(node_fields(nodes@[i])))),
            views(f@) == want.subrange(0, k as int),
            forall|a: int| 0 <= a < f@.len() ==> #[trigger] f@[a].number <= MAX_FIELD_NUMBER,
        decreases nodes.len() - k,
    {
        let n = &nodes[k];
        let mut nf: Vec<Field> = Vec::new();
        nf.push(int32_field(1, n.id));
        nf.push(bytes_field(2, utf8_of(&n.name)));
        nf.push(bytes_field(3, utf8_of(&n.addr)));
        nf.push(bytes_field(4, utf8_of(&n.country)));
        assert(views(nf@) =~= node_fields(nodes@[k as int]));
        let ghost before = views(f@);
        let nb = encode_message(&nf);
        f.push(bytes_field(1, nb));
        assert(views(f@) =~= before.push(bytes_view(1, message_bytes(node_fields(nodes@[k as int])))));
        assert(views(f@) =~= want.subrange(0, k + 1));
        k = k + 1;
    }
    assert(want.subrange(0, nodes@.len() as int) =~= want);
    frame_of(PacketTypeId::ListNodes, &f)
}

/// The fields of one acknowledgement.
pub open spec fn client_info_fields(c: ClientInfo) -> Seq<FieldView> {
    seq![int32_view(1, c.player_id), bytes_view(2, encode_utf8(c.war3_version@)), bytes_view(3, c.map_sha1@)]
}

/// A `GameStartReject` for game `game_id` with `message`, carrying the acknowledgements
/// received.
pub fn game_start_reject(game_id: i32, message: &String, infos: &Vec<ClientInfo>) -> (r: Frame)
    ensures
        r.type_id == type_id_of(PacketTypeId::GameStartReject),
        r.payload@ == message_bytes(
            seq![int32_view(1, game_id), bytes_view(2, encode_utf8(message@))] + Seq::new(
                infos@.len(),
                |i: int| bytes_view(3, message_bytes(client_info_fields(infos@[i]))),
            ),
        ),
{
    let ghost head = seq![int32_view(1, game_id), bytes_view(2, encode_utf8(message@))];
    let ghost tail = Seq::new(infos@.len(), |i: int| bytes_view(3, message_bytes(client_info_fields(infos@[i]))));
    let mut f: Vec<Field> = Vec::new();
    f.push(int32_field(1, game_id));
    f.push(bytes_field(2, utf8_of(message)));
    assert(views(f@) =~= head + tail.subrange(0, 0));
    let mut k: usize = 0;
    while k < infos.len()
        invariant
            k <= infos.len(),
            tail == Seq::new(infos@.len(), |i: int| bytes_view(3, message_bytes(client_info_fields(infos@[i])))),
            views(f@) == head + tail.subrange(0, k as int),
            forall|a: int| 0 <= a < f@.len() ==> #[trigger] f@[a].number <= MAX_FIELD_NUMBER,
        decreases infos.len() - k,
    {
        let c = &infos[k];
        let mut cf: Vec<Field> = Vec::new();
        cf.push(int32_field(1, c.player_id));
        cf.push(bytes_field(2, utf8_of(&c.war3_version)));
        cf.push(bytes_field(3, copy_slice(c.map_sha1.as_slice())));
        assert(views(cf@) =~= client_info_fields(infos@[k as int]));
        let ghost before = views(f@);
        f.push(bytes_field(3, encode_message(&cf)));
        assert(views(f@) =~= before.push(bytes_view(3, message_bytes(client_info_fields(infos@[k as int])))));
        assert(views(f@) =~= head + tail.subrange(0, k + 1));
        k = k + 1;
    }
    assert(tail.subrange(0, infos@.len() as int) =~= tail);
    frame_of(PacketTypeId::GameStartReject, &f)
}

/// The fields of one ping map entry: the node (key, field 1) and its statistics (value,
/// field 2).
pub open spec fn ping_entry_fields(e: (i32, PingStats)) -> Seq<FieldView> {
    seq![int32_view(1, e.0), bytes_view(2, message_bytes(stats_fields(e.1)))]
}

/// A `PlayerPingMapUpdate`: player `player_id` (field 1) and each of their measurements as
/// one map entry (field 2), in order.
pub fn player_ping_map_update(player_id: i32, entries: &Vec<(i32, PingStats)>) -> (r: Frame)
    ensures
        r.type_id == type_id_of(PacketTypeId::PlayerPingMapUpdate),
        r.payload@ == message_bytes(
            seq![int32_view(1, player_id)] + Seq::new(entries@.len(), |i: int| bytes_view(2, message_bytes(ping_entry_fields(entries@[i])))),
        ),
{
    let ghost tail = Seq::new(entries@.len(), |i: int| bytes_view(2, message_bytes(ping_entry_fields(entries@[i]))));
    let mut f: Vec<Field> = Vec::new();
    f.push(int32_field(1, player_id));
    assert(views(f@) =~= seq![int32_view(1, player_id)] + tail.subrange(0, 0));
    let mut k: usize = 0;
    while k < entries.len()
        invariant
            k <= entries.len(),
            tail == Seq::new(entries@.len(), |i: int| bytes_view(2, message_bytes(ping_entry_fields(entries@[i])))),
            views(f@) == seq![int32_view(1, player_id)] + tail.subrange(0, k as int),
            forall|a: int| 0 <= a < f@.len() ==> #[trigger] f@[a].number <= MAX_FIELD_NUMBER,
        decreases entries.len() - k,
    {
        let (n, st) = entries[k];
        let mut ef: Vec<Field> = Vec::new();
        ef.push(int32_field(1, n));
        ef.push(bytes_field(2, encode_stats(&st)));
        assert(views(ef@) =~= ping_entry_fields(entries@[k as int]));
        let ghost before = views(f@);
        f.push(bytes_field(2, encode_message(&ef)));
        assert(views(f@) =~= before.push(tail[k as int]));
        assert(views(f@) =~= seq![int32_view(1, player_id)] + tail.subrange(0, k + 1));
        k = k + 1;
    }
    assert(tail.subrange(0, entries@.len() as int) =~= tail);
    frame_of(PacketTypeId::PlayerPingMapUpdate, &f)
}

/// The fields of one node's group of a snapshot.
pub open spec fn node_pings_fields(g: NodePings) -> Seq<FieldView> {
    seq![int32_view(1, g.node_id)] + Seq::new(
        g.players@.len(),
        |i: int| bytes_view(2, message_bytes(seq![int32_view(1, g.players@[i].0), bytes_view(2, message_bytes(stats_fields(g.players@[i].1)))])),
    )
}

fn encode_node_pings(g: &NodePings) -> (r: Vec<u8>)
    ensures
        r@ == message_bytes(node_pings_fields(*g)),
{
    let ghost tail = Seq::new(
        g.players@.len(),
        |i: int| bytes_view(2, message_bytes(seq![int32_view(1, g.players@[i].0), bytes_view(2, message_bytes(stats_fields(g.players@[i].1)))])),
    );
    let mut f: Vec<Field> = Vec::new();
    f.push(int32_field(1, g.node_id));
    assert(views(f@) =~= seq![int32_view(1, g.node_id)] + tail.subrange(0, 0));
    let mut k: usize = 0;
    while k < g.players.len()
        invariant
            k <= g.players.len(),
            tail == Seq::new(
                g.players@.len(),
                |i: int| bytes_view(2, message_bytes(seq![int32_view(1, g.players@[i].0), bytes_view(2, message_bytes(stats_fields(g.players@[i].1)))])),
            ),
            views(f@) == seq![int32_view(1, g.node_id)] + tail.subrange(0, k as int),
            forall|a: int| 0 <= a < f@.len() ==> #[trigger] f@[a].number <= MAX_FIELD_NUMBER,
        decreases g.players.len() - k,
    {
        let (p, st) = g.players[k];
        let mut ef: Vec<Field> = Vec::new();
        ef.push(int32_field(1, p));
        ef.push(bytes_field(2, encode_stats(&st)));
        assert(views(ef@) =~= seq![int32_view(1, p), bytes_view(2, message_bytes(stats_fields(st)))]);
        let ghost before = views(f@);
        f.push(bytes_field(2, encode_message(&ef)));
        assert(g.players@[k as int] == (p, st));
        assert(views(f@) =~= before.push(tail[k as int]));
        assert(views(f@) =~= seq![int32_view(1, g.node_id)] + tail.subrange(0, k + 1));
        k = k + 1;
    }
    assert(tail.subrange(0, g.players@.len() as int) =~= tail);
    encode_message(&f)
}

/// A `GamePlayerPingMapSnapshot` of game `game_id`: one nested message per node group.
pub fn game_player_ping_map_snapshot(game_id: i32, groups: &Vec<NodePings>) -> (r: Frame)
    ensures
        r.type_id == type_id_of(PacketTypeId::GamePlayerPingMapSnapshot),
        r.payload@ == message_bytes(
            seq![int32_view(1, game_id)] + Seq::new(groups@.len(), |i: int| bytes_view(2, message_bytes(node_pings_fields(groups@[i])))),
        ),
{
    let ghost tail = Seq::new(groups@.len(), |i: int| bytes_view(2, message_bytes(node_pings_fields(groups@[i]))));
    let mut f: Vec<Field> = Vec::new();
    f.push(int32_field(1, game_id));
    assert(views(f@) =~= seq![int32_view(1, game_id)] + tail.subrange(0, 0));
    let mut k: usize = 0;
    while k < groups.len()
        invariant
            k <= groups.len(),
            tail == Seq::new(groups@.len(), |i: int| bytes_view(2, message_bytes(node_pings_fields(groups@[i])))),
            views(f@) == seq![int32_view(1, game_id)] + tail.subrange(0, k as int),
            forall|a: int| 0 <= a < f@.len() ==> #[trigger] f@[a].number <= MAX_FIELD_NUMBER,
        decreases groups.len() - k,
    {
        let ghost before = views(f@);
        f.push(bytes_field(2, encode_node_pings(&groups[k])));
        assert(views(f@) =~= before.push(tail[k as int]));
        assert(views(f@) =~= seq![int32_view(1, game_id)] + tail.subrange(0, k + 1));
        k = k + 1;
    }
    assert(tail.subrange(0, groups@.len() as int) =~= tail);
    frame_of(PacketTypeId::GamePlayerPingMapSnapshot, &f)
}

/// Ping statistics read from the fields of a nested message; missing parts read as zero.
pub open spec fn stats_of(fs: Seq<FieldView>) -> PingStats {
    PingStats { min: u32_of(fs, 1), max: u32_of(fs, 2), avg: u32_of(fs, 3), current: u32_of(fs, 4), loss_rate: u32_of(fs, 5) }
}

/// One entry of a ping map: its node (field 1) and statistics (field 2, nested).
pub open spec fn ping_entry_of(b: Seq<u8>) -> Option<(i32, PingStats)> {
    match payload_fields(b) {
        None => None,
        Some(fs) => match (int32_of(fs, 1), last_bytes(fs, 2)) {
            (Some(n), Some(sb)) => match payload_fields(sb) {
                Some(sf) => Some((n, stats_of(sf))),
                None => None,
            },
            _ => None,
        },
    }
}

/// The entries of a ping map: every field 1, in order; `None` when one is malformed.
pub open spec fn ping_entries(fs: Seq<FieldView>) -> Option<Seq<(i32, PingStats)>>
    decreases fs.len(),
{
    if fs.len() == 0 {
        Some(seq![])
    } else {
        match ping_entries(fs.drop_last()) {
            None => None,
            Some(r) => if fs.last().number != 1 {
                Some(r)
            } else {
                match fs.last().value {
                    WireValueView::Bytes(b) => match ping_entry_of(b) {
                        Some(e) => Some(r.push(e)),
                        None => None,
                    },
                    WireValueView::Varint(_) => None,
                }
            },
        }
    }
}

fn decode_ping_entry(b: &[u8]) -> (r: Option<(i32, PingStats)>)
    ensures
        r == ping_entry_of(b@),
{
    let fields = match decode_message(b) {
        Some(f) => f,
        None => {
            return None;
        },
    };
    match (int32_of_fields(&fields, 1), get_bytes(&fields, 2)) {
        (Some(n), Some(sb)) => match decode_stats(sb.as_slice()) {
            Some(st) => Some((n, st)),
            None => None,
        },
        _ => None,
    }
}

/// A `PlayerPingMapUpdateRequest`: the player's measurements, node by node.
pub fn decode_ping_map_update_request(payload: &[u8]) -> (r: Option<Vec<(i32, PingStats)>>)
    ensures
        match payload_fields(payload@) {
            None => r is None,
            Some(fs) => match ping_entries(fs) {
                None => r is None,
                Some(es) => r matches Some(v) && v@ == es,
            },
        },
{
    let fields = match decode_message(payload) {
        Some(f) => f,
        None => {
            return None;
        },
    };
    let ghost fs = views(fields@);
    let mut out: Vec<(i32, PingStats)> = Vec::new();
    let mut k: usize = 0;
    assert(fs.subrange(0, 0) =~= Seq::<FieldView>::empty());
    while k < fields.len()
        invariant
            k <= fields.len(),
            fs == views(fields@),
            payload_fields(payload@) == Some(fs),
            ping_entries(fs.subrange(0, k as int)) == Some(out@),
        decreases fields.len() - k,
    {
        assert(fs.subrange(0, k + 1).drop_last() =~= fs.subrange(0, k as int));
        assert(fs.subrange(0, k + 1).last() == fields@[k as int]@);
        if fields[k].number == 1 {
            match &fields[k].value {
                WireValue::Bytes(b) => match decode_ping_entry(b.as_slice()) {
                    Some(e) => {
                        out.push(e);
                    },
                    None => {
                        assert(ping_entries(fs.subrange(0, k + 1)) is None);
                        assert(ping_entries(fs) is None) by {
                            lemma_ping_entries_prefix_none(fs, k as int + 1);
                        }
                        return None;
                    },
                },
                WireValue::Varint(_) => {
                    assert(ping_entries(fs) is None) by {
                        lemma_ping_entries_prefix_none(fs, k as int + 1);
                    }
                    return None;
                },
            }
        }
        k = k + 1;
    }
    assert(fs.subrange(0, fields.len() as int) =~= fs);
    Some(out)
}

/// Once a prefix of the fields holds a malformed entry, the whole map is malformed.
proof fn lemma_ping_entries_prefix_none(fs: Seq<FieldView>, n: int)
    requires
        0 <= n <= fs.len(),
        ping_entries(fs.subrange(0, n)) is None,
    ensures
        ping_entries(fs) is None,
    decreases fs.len() - n,
{
    if n < fs.len() {
        assert(fs.subrange(0, n + 1).drop_last() =~= fs.subrange(0, n));
        lemma_ping_entries_prefix_none(fs, n + 1);
    } else {
        assert(fs.subrange(0, n) =~= fs);
    }
}

/// The fields of a seat: its player (nested, when taken) and its settings (nested).
pub open spec fn slot_fields(s: Slot) -> Seq<FieldView> {
    match s.player_id {
        Some(p) => seq![
            bytes_view(1, message_bytes(seq![int32_view(1, p)])),
            bytes_view(2, message_bytes(settings_fields(s.settings))),
        ],
        None => seq![bytes_view(2, message_bytes(settings_fields(s.settings)))],
    }
}

/// Encodes a seat as a nested message.
pub fn encode_slot(s: &Slot) -> (r: Vec<u8>)
    ensures
        r@ == message_bytes(slot_fields(*s)),
{
    let mut f: Vec<Field> = Vec::new();
    if let Some(p) = s.player_id {
        let mut pf: Vec<Field> = Vec::new();
        pf.push(int32_field(1, p));
        assert(views(pf@) =~= seq![int32_view(1, p)]);
        f.push(bytes_field(1, encode_message(&pf)));
    }
    f.push(bytes_field(2, encode_settings(&s.settings)));
    assert(views(f@) =~= slot_fields(*s));
    encode_message(&f)
}

/// A `GamePlayerEnter`: seat `slot_index` of game `game_id` was taken, and now holds `slot`.
pub fn game_player_enter(game_id: i32, slot_index: i32, slot: &Slot) -> (r: Frame)
    ensures
        r.type_id == type_id_of(PacketTypeId::GamePlayerEnter),
        r.payload@ == message_bytes(
            seq![int32_view(1, game_id), int32_view(2, slot_index), bytes_view(3, message_bytes(slot_fields(*slot)))],
        ),
{
    let mut f: Vec<Field> = Vec::new();
    f.push(int32_field(1, game_id));
    f.push(int32_field(2, slot_index));
    f.push(bytes_field(3, encode_slot(slot)));
    let r = frame_of(PacketTypeId::GamePlayerEnter, &f);
    assert(views(f@) =~= seq![int32_view(1, game_id), int32_view(2, slot_index), bytes_view(3, message_bytes(slot_fields(*slot)))]);
    r
}

/// The wire code of a game status.
pub open spec fn game_status_code(s: GameStatus) -> i32 {
    match s {
        GameStatus::Preparing => 0,
        GameStatus::Starting => 1,
        GameStatus::Created => 2,
        GameStatus::Ended => 3,
    }
}

/// An optional `int32` field: present only when there is a value.
pub open spec fn opt_int32(number: u32, v: Option<i32>) -> Seq<FieldView> {
    match v {
        Some(x) => seq![int32_view(number, x)],
        None => seq![],
    }
}

/// The fields of a game: its id, one nested message per seat in seat order, its status, and
/// its node and host when it has them.
pub open spec fn game_fields(g: GameView) -> Seq<FieldView> {
    seq![int32_view(1, g.id)] + Seq::new(g.slots.len(), |i: int| bytes_view(2, message_bytes(slot_fields(g.slots[i]))))
        + seq![int32_view(3, game_status_code(g.status))] + opt_int32(4, g.node) + opt_int32(5, g.host)
}

fn push_opt_int32(f: &mut Vec<Field>, number: u32, v: Option<i32>)
    requires
        number <= MAX_FIELD_NUMBER,
    ensures
        views(final(f)@) == views(old(f)@) + opt_int32(number, v),
        final(f)@.len() >= old(f)@.len(),
        forall|a: int| 0 <= a < old(f)@.len() ==> final(f)@[a] == old(f)@[a],
        forall|a: int| old(f)@.len() <= a < final(f)@.len() ==> #[trigger] final(f)@[a].number == number,
{
    let ghost before = views(f@);
    if let Some(x) = v {
        f.push(int32_field(number, x));
    }
    assert(views(f@) =~= before + opt_int32(number, v));
}

/// A `GameInfo` describing `game`.
pub fn game_info(game: &Game) -> (r: Frame)
    ensures
        r.type_id == type_id_of(PacketTypeId::GameInfo),
        r.payload@ == message_bytes(seq![bytes_view(1, message_bytes(game_fields(game@)))]),
{
    let slots = game.slots();
    let ghost tail = Seq::new(game@.slots.len(), |i: int| bytes_view(2, message_bytes(slot_fields(game@.slots[i]))));
    let mut f: Vec<Field> = Vec::new();
    f.push(int32_field(1, game.id()));
    assert(views(f@) =~= seq![int32_view(1, game@.id)] + tail.subrange(0, 0));
    let mut k: usize = 0;
    while k < slots.len()
        invariant
            k <= slots.len(),
            slots@ == game@.slots,
            tail == Seq::new(game@.slots.len(), |i: int| bytes_view(2, message_bytes(slot_fields(game@.slots[i])))),
            views(f@) == seq![int32_view(1, game@.id)] + tail.subrange(0, k as int),
            forall|a: int| 0 <= a < f@.len() ==> #[trigger] f@[a].number <= MAX_FIELD_NUMBER,
        decreases slots.len() - k,
    {
        let ghost before = views(f@);
        f.push(bytes_field(2, encode_slot(&slots[k])));
        assert(views(f@) =~= before.push(tail[k as int]));
        assert(views(f@) =~= seq![int32_view(1, game@.id)] + tail.subrange(0, k + 1));
        k = k + 1;
    }
    assert(tail.subrange(0, slots@.len() as int) =~= tail);
    let code: i32 = match game.status() {
        GameStatus::Preparing => 0,
        GameStatus::Starting => 1,
        GameStatus::Created => 2,
        GameStatus::Ended => 3,
    };
    let ghost mid = views(f@);
    f.push(int32_field(3, code));
    assert(views(f@) =~= mid.push(int32_view(3, game_status_code(game@.status))));
    push_opt_int32(&mut f, 4, game.selected_node_id());
    push_opt_int32(&mut f, 5, game.host_player_id());
    assert(views(f@) =~= game_fields(game@));
    let mut outer: Vec<Field> = Vec::new();
    outer.push(bytes_field(1, encode_message(&f)));
    let r = frame_of(PacketTypeId::GameInfo, &outer);
    assert(views(outer@) =~= seq![bytes_view(1, message_bytes(game_fields(game@)))]);
    r
}

} // verus!
