use vstd::prelude::*;

verus! {

/// First byte of every frame.
pub const MAGIC: u8 = 0xF7;

/// Length of the fixed frame header: magic, type id and a big-endian `u16` length.
pub const HEADER_LEN: usize = 4;

/// Largest payload a frame can carry.
pub const MAX_PAYLOAD_LEN: usize = 65535;

/// Why a frame could not be read or written.
#[derive(Debug, Clone, Copy, PartialEq, Eq, Structural)]
pub enum FrameError {
    /// The first byte is not `MAGIC`; the connection must be dropped.
    InvalidMagic,
    /// More bytes are needed to complete the frame.
    Incomplete,
    /// The payload does not fit in a `u16` length.
    FrameTooLarge,
}

/// One framed packet: its type id and its raw payload.
#[derive(Debug, Clone, PartialEq, Eq)]
pub struct Frame {
    pub type_id: u8,
    pub payload: Vec<u8>,
}

/// The header bytes of a frame with the given type id and payload length.
pub open spec fn header_bytes(type_id: u8, len: nat) -> Seq<u8> {
    seq![MAGIC, type_id, (len / 256) as u8, (len % 256) as u8]
}

/// The bytes of a whole frame.
pub open spec fn frame_bytes(type_id: u8, payload: Seq<u8>) -> Seq<u8> {
    header_bytes(type_id, payload.len()) + payload
}

/// The big-endian payload length stored in a header.
pub open spec fn header_len_field(s: Seq<u8>) -> nat
    recommends
        s.len() >= 4,
{
    s[2] as nat * 256 + s[3] as nat
}

/// What reading one frame from the start of `s` yields: the type id, the payload
/// and the number of bytes consumed.
pub open spec fn parse_frame(s: Seq<u8>) -> Result<(u8, Seq<u8>, nat), FrameError> {
    if s.len() == 0 {
        Err(FrameError::Incomplete)
    } else if s[0] != MAGIC {
        Err(FrameError::InvalidMagic)
    } else if s.len() < 4 {
        Err(FrameError::Incomplete)
    } else if s.len() < 4 + header_len_field(s) {
        Err(FrameError::Incomplete)
    } else {
        Ok((s[1], s.subrange(4, 4 + header_len_field(s) as int), 4 + header_len_field(s)))
    }
}

/// Encodes the four header bytes of a frame.
pub fn encode_header(type_id: u8, len: u16) -> (r: [u8; 4])
    ensures
        r@ == header_bytes(type_id, len as nat),
{
    let r = [MAGIC, type_id, (len / 256) as u8, (len % 256) as u8];
    assert(r@ =~= header_bytes(type_id, len as nat));
    r
}

/// Encodes a frame: header followed by the payload.
pub fn encode_frame(frame: &Frame) -> (r: Result<Vec<u8>, FrameError>)
    ensures
        frame.payload.len() > MAX_PAYLOAD_LEN ==> r == Err::<Vec<u8>, FrameError>(
            FrameError::FrameTooLarge,
        ),
        frame.payload.len() <= MAX_PAYLOAD_LEN ==> r is Ok && r->Ok_0@ == frame_bytes(
            frame.type_id,
            frame.payload@,
        ),
{
    let n = frame.payload.len();
    if n > MAX_PAYLOAD_LEN {
        return Err(FrameError::FrameTooLarge);
    }
    let header = encode_header(frame.type_id, n as u16);
    let mut out: Vec<u8> = Vec::with_capacity(HEADER_LEN + n);
    out.push(header[0]);
    out.push(header[1]);
    out.push(header[2]);
    out.push(header[3]);
    assert(out@ =~= header_bytes(frame.type_id, n as nat));
    let mut i: usize = 0;
    while i < n
        invariant
            n == frame.payload.len(),
            i <= n,
            out@ == header_bytes(frame.type_id, n as nat) + frame.payload@.subrange(0, i as int),
        decreases n - i,
    {
        out.push(frame.payload[i]);
        assert(frame.payload@.subrange(0, i + 1) =~= frame.payload@.subrange(0, i as int).push(
            frame.payload@[i as int],
        ));
        i = i + 1;
    }
    assert(frame.payload@.subrange(0, n as int) =~= frame.payload@);
    Ok(out)
}

/// Reads one frame from the start of `buf`, returning it with the number of bytes consumed.
pub fn decode_frame(buf: &[u8]) -> (r: Result<(Frame, usize), FrameError>)
    ensures
        match (r, parse_frame(buf@)) {
            (Ok((f, n)), Ok((t, p, m))) => f.type_id == t && f.payload@ == p && n == m,
            (Err(e), Err(e2)) => e == e2,
            _ => false,
        },
{
    if buf.len() == 0 {
        return Err(FrameError::Incomplete);
    }
    if buf[0] != MAGIC {
        return Err(FrameError::InvalidMagic);
    }
    if buf.len() < HEADER_LEN {
        return Err(FrameError::Incomplete);
    }
    let len: usize = buf[2] as usize * 256 + buf[3] as usize;
    if buf.len() - HEADER_LEN < len {
        return Err(FrameError::Incomplete);
    }
    let mut payload: Vec<u8> = Vec::with_capacity(len);
    let mut i: usize = 0;
    while i < len
        invariant
            len == header_len_field(buf@),
            HEADER_LEN + len <= buf.len(),
            i <= len,
            payload@ == buf@.subrange(4, 4 + i),
        decreases len - i,
    {
        payload.push(buf[HEADER_LEN + i]);
        assert(buf@.subrange(4, 4 + i + 1) =~= buf@.subrange(4, 4 + i).push(buf@[4 + i]));
        i = i + 1;
    }
    Ok((Frame { type_id: buf[1], payload }, HEADER_LEN + len))
}

/// Reading back an encoded frame yields the same type id and payload, whatever follows it.
pub proof fn lemma_frame_round_trip(type_id: u8, payload: Seq<u8>, rest: Seq<u8>)
    requires
        payload.len() <= MAX_PAYLOAD_LEN,
    ensures
        parse_frame(frame_bytes(type_id, payload) + rest) == Ok::<(u8, Seq<u8>, nat), FrameError>(
            (type_id, payload, 4 + payload.len()),
        ),
{
    let s = frame_bytes(type_id, payload) + rest;
    let n = payload.len();
    assert(s[0] == MAGIC);
    assert(s[1] == type_id);
    assert(s[2] == (n / 256) as u8);
    assert(s[3] == (n % 256) as u8);
    assert(header_len_field(s) == n);
    assert(s.subrange(4, 4 + n as int) =~= payload);
}

/// Message kinds of the lobby wire protocol, each with its fixed type id.
#[derive(Debug, Clone, Copy, PartialEq, Eq, Structural)]
pub enum PacketTypeId {
    ConnectLobby,
    ConnectAccept,
    ConnectReject,
    ClientDisconnect,
    Ping,
    Pong,
    GameInfo,
    GamePlayerEnter,
    GamePlayerLeave,
    GameSlotUpdate,
    GameSlotUpdateRequest,
    GameSelectNode,
    GameStartRequest,
    GameStarting,
    GameStartReject,
    GameStartPlayerClientInfoRequest,
    GamePlayerToken,
    PlayerPingMapUpdateRequest,
    PlayerPingMapUpdate,
    GamePlayerPingMapSnapshotRequest,
    GamePlayerPingMapSnapshot,
    ListNodesRequest,
    ListNodes,
}

/// The wire id of each message kind.
pub open spec fn type_id_of(k: PacketTypeId) -> u8 {
    match k {
        PacketTypeId::ConnectLobby => 0x01,
        PacketTypeId::ConnectAccept => 0x02,
        PacketTypeId::ConnectReject => 0x03,
        PacketTypeId::ClientDisconnect => 0x04,
        PacketTypeId::Ping => 0x10,
        PacketTypeId::Pong => 0x11,
        PacketTypeId::GameInfo => 0x20,
        PacketTypeId::GamePlayerEnter => 0x21,
        PacketTypeId::GamePlayerLeave => 0x22,
        PacketTypeId::GameSlotUpdate => 0x23,
        PacketTypeId::GameSlotUpdateRequest => 0x24,
        PacketTypeId::GameSelectNode => 0x25,
        PacketTypeId::GameStartRequest => 0x30,
        PacketTypeId::GameStarting => 0x31,
        PacketTypeId::GameStartReject => 0x32,
        PacketTypeId::GameStartPlayerClientInfoRequest => 0x33,
        PacketTypeId::GamePlayerToken => 0x34,
        PacketTypeId::PlayerPingMapUpdateRequest => 0x40,
        PacketTypeId::PlayerPingMapUpdate => 0x41,
        PacketTypeId::GamePlayerPingMapSnapshotRequest => 0x42,
        PacketTypeId::GamePlayerPingMapSnapshot => 0x43,
        PacketTypeId::ListNodesRequest => 0x50,
        PacketTypeId::ListNodes => 0x51,
    }
}

impl PacketTypeId {
    /// The wire id of this message kind.
    pub fn id(self) -> (r: u8)
        ensures
            r == type_id_of(self),
    {
        match self {
            PacketTypeId::ConnectLobby => 0x01,
            PacketTypeId::ConnectAccept => 0x02,
            PacketTypeId::ConnectReject => 0x03,
            PacketTypeId::ClientDisconnect => 0x04,
            PacketTypeId::Ping => 0x10,
            PacketTypeId::Pong => 0x11,
            PacketTypeId::GameInfo => 0x20,
            PacketTypeId::GamePlayerEnter => 0x21,
            PacketTypeId::GamePlayerLeave => 0x22,
            PacketTypeId::GameSlotUpdate => 0x23,
            PacketTypeId::GameSlotUpdateRequest => 0x24,
            PacketTypeId::GameSelectNode => 0x25,
            PacketTypeId::GameStartRequest => 0x30,
            PacketTypeId::GameStarting => 0x31,
            PacketTypeId::GameStartReject => 0x32,
            PacketTypeId::GameStartPlayerClientInfoRequest => 0x33,
            PacketTypeId::GamePlayerToken => 0x34,
            PacketTypeId::PlayerPingMapUpdateRequest => 0x40,
            PacketTypeId::PlayerPingMapUpdate => 0x41,
            PacketTypeId::GamePlayerPingMapSnapshotRequest => 0x42,
            PacketTypeId::GamePlayerPingMapSnapshot => 0x43,
            PacketTypeId::ListNodesRequest => 0x50,
            PacketTypeId::ListNodes => 0x51,
        }
    }

    /// The message kind with the given wire id, if there is one.
    pub fn from_id(id: u8) -> (r: Option<PacketTypeId>)
        ensures
            r matches Some(k) ==> type_id_of(k) == id,
            forall|k: PacketTypeId| type_id_of(k) == id ==> r == Some(k),
    {
        let r = match id {
            0x01 => Some(PacketTypeId::ConnectLobby),
            0x02 => Some(PacketTypeId::ConnectAccept),
            0x03 => Some(PacketTypeId::ConnectReject),
            0x04 => Some(PacketTypeId::ClientDisconnect),
            0x10 => Some(PacketTypeId::Ping),
            0x11 => Some(PacketTypeId::Pong),
            0x20 => Some(PacketTypeId::GameInfo),
            0x21 => Some(PacketTypeId::GamePlayerEnter),
            0x22 => Some(PacketTypeId::GamePlayerLeave),
            0x23 => Some(PacketTypeId::GameSlotUpdate),
            0x24 => Some(PacketTypeId::GameSlotUpdateRequest),
            0x25 => Some(PacketTypeId::GameSelectNode),
            0x30 => Some(PacketTypeId::GameStartRequest),
            0x31 => Some(PacketTypeId::GameStarting),
            0x32 => Some(PacketTypeId::GameStartReject),
            0x33 => Some(PacketTypeId::GameStartPlayerClientInfoRequest),
            0x34 => Some(PacketTypeId::GamePlayerToken),
            0x40 => Some(PacketTypeId::PlayerPingMapUpdateRequest),
            0x41 => Some(PacketTypeId::PlayerPingMapUpdate),
            0x42 => Some(PacketTypeId::GamePlayerPingMapSnapshotRequest),
            0x43 => Some(PacketTypeId::GamePlayerPingMapSnapshot),
            0x50 => Some(PacketTypeId::ListNodesRequest),
            0x51 => Some(PacketTypeId::ListNodes),
            _ => None,
        };
        r
    }
}

/// Each message kind is found again from its wire id.
pub proof fn lemma_type_id_round_trip(k: PacketTypeId)
    ensures
        forall|k2: PacketTypeId| type_id_of(k2) == type_id_of(k) ==> k2 == k,
{
}

} // verus!
