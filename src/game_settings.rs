use vstd::prelude::*;

use crate::chat::{c_string_lossy, first_nul, le_u32, no_nul, parse_cstr, u32_le, without_nul};
use crate::stat_string::{decode_spec, encode_spec, encoded_len_spec};

verus! {

/// Fewest raw bytes a settings block can have: the fixed fields, an empty map path and host
/// name with their terminators, the zero byte and the map hash.
pub const MIN_RAW_LEN: usize = 36;

/// Every defined game-setting flag: speed (0x3), terrain visibility (0xF00), observers
/// (0x3000), teams together (0x4000), fixed teams (0x60000), shared unit control, random
/// hero and random races (0x7000000), referees (0x40000000).
pub const KNOWN_GAME_SETTING_FLAGS: u32 = 0x4706_7F03;

/// The settings of a hosted game, as the game wire carries them inside a stat-string.
#[derive(Debug, Clone, PartialEq, Eq)]
pub struct GameSettings {
    pub game_setting_flags: u32,
    pub unk_1: u8,
    pub map_width: u16,
    pub map_height: u16,
    pub map_checksum: u32,
    pub map_path: Vec<u8>,
    pub host_name: Vec<u8>,
    pub map_sha1: [u8; 20],
}

/// The map facts that a `GameSettings` is made from.
#[derive(Debug, Clone, PartialEq, Eq)]
pub struct GameSettingsMap {
    pub path: Vec<u8>,
    pub width: u16,
    pub height: u16,
    pub sha1: [u8; 20],
    pub checksum: u32,
}

/// The mathematical value of a `GameSettings`.
pub struct GameSettingsView {
    pub flags: u32,
    pub unk_1: u8,
    pub width: u16,
    pub height: u16,
    pub checksum: u32,
    pub map_path: Seq<u8>,
    pub host_name: Seq<u8>,
    pub sha1: Seq<u8>,
}

impl View for GameSettings {
    type V = GameSettingsView;

    open spec fn view(&self) -> GameSettingsView {
        GameSettingsView {
            flags: self.game_setting_flags,
            unk_1: self.unk_1,
            width: self.map_width,
            height: self.map_height,
            checksum: self.map_checksum,
            map_path: self.map_path@,
            host_name: self.host_name@,
            sha1: self.map_sha1@,
        }
    }
}

/// Little-endian bytes of a `u16`.
pub open spec fn u16_le(n: u16) -> Seq<u8> {
    seq![(n & 0xff) as u8, (n >> 8u16) as u8]
}

/// The `u16` stored little-endian at `s[i..i + 2]`.
pub open spec fn le_u16(s: Seq<u8>, i: int) -> u16 {
    (s[i] as u16) | ((s[i + 1] as u16) << 8u16)
}

/// The raw bytes of a settings block, before the stat-string encoding.
pub open spec fn raw_bytes(g: GameSettingsView) -> Seq<u8> {
    u32_le(g.flags) + seq![g.unk_1] + u16_le(g.width) + u16_le(g.height) + u32_le(g.checksum)
        + g.map_path + seq![0u8] + g.host_name + seq![0u8] + seq![0u8] + g.sha1
}

/// The bytes of a settings block on the wire: the stat-string of its raw bytes and a zero.
pub open spec fn settings_bytes(g: GameSettingsView) -> Seq<u8> {
    encode_spec(raw_bytes(g)) + seq![0u8]
}

/// A settings block read from its raw bytes.
pub open spec fn parse_raw(d: Seq<u8>) -> Option<GameSettingsView> {
    if d.len() < 13 {
        None
    } else if le_u32(d, 0) & !KNOWN_GAME_SETTING_FLAGS != 0 {
        None
    } else {
        match parse_cstr(d, 13) {
            None => None,
            Some((path, e1)) => match parse_cstr(d, e1) {
                None => None,
                Some((host, e2)) => if d.len() - e2 != 21 {
                    None
                } else if d[e2] != 0 {
                    None
                } else {
                    Some(
                        GameSettingsView {
                            flags: le_u32(d, 0),
                            unk_1: d[4],
                            width: le_u16(d, 5),
                            height: le_u16(d, 7),
                            checksum: le_u32(d, 9),
                            map_path: path,
                            host_name: host,
                            sha1: d.subrange(e2 + 1, e2 + 21),
                        },
                    )
                },
            },
        }
    }
}

/// A settings block read from the start of `s`, and the number of bytes it took.
pub open spec fn parse_settings(s: Seq<u8>) -> Option<(GameSettingsView, int)> {
    if s.len() < encoded_len_spec(MIN_RAW_LEN as nat) {
        None
    } else {
        match first_nul(s, 0) {
            None => None,
            Some(e) => match parse_raw(decode_spec(s.subrange(0, e))) {
                Some(g) => Some((g, e + 1)),
                None => None,
            },
        }
    }
}

/// Whether a settings block can be written and read back: its flags are all defined and
/// its texts hold no zero byte.
pub open spec fn settings_wf(g: GameSettingsView) -> bool {
    &&& g.flags & !KNOWN_GAME_SETTING_FLAGS == 0
    &&& no_nul(g.map_path)
    &&& no_nul(g.host_name)
    &&& g.sha1.len() == 20
}

proof fn lemma_u16_le_round_trip(n: u16)
    ensures
        le_u16(u16_le(n), 0) == n,
{
    let b0 = (n & 0xff) as u8;
    let b1 = (n >> 8u16) as u8;
    assert((b0 as u16) | ((b1 as u16) << 8u16) == n) by (bit_vector)
        requires
            b0 == (n & 0xff) as u8,
            b1 == (n >> 8u16) as u8,
    ;
}

proof fn lemma_first_nul_at(s: Seq<u8>, i: int, e: int)
    requires
        0 <= i <= e < s.len(),
        s[e] == 0,
        forall|k: int| i <= k < e ==> #[trigger] s[k] != 0,
    ensures
        first_nul(s, i) == Some(e),
    decreases e - i,
{
    if i < e {
        lemma_first_nul_at(s, i + 1, e);
    }
}

/// Reading back a written settings block gives it back, whatever follows it.
pub proof fn lemma_settings_round_trip(g: GameSettingsView, rest: Seq<u8>)
    requires
        settings_wf(g),
    ensures
        parse_settings(settings_bytes(g) + rest) == Some((g, settings_bytes(g).len() as int)),
{
    let raw = raw_bytes(g);
    let enc = encode_spec(raw);
    let s = settings_bytes(g) + rest;
    crate::stat_string::lemma_encode_len(raw);
    crate::stat_string::lemma_encode_odd(raw);
    crate::stat_string::lemma_stat_string_round_trip(raw);
    assert(s.len() >= encoded_len_spec(MIN_RAW_LEN as nat));
    assert forall|k: int| 0 <= k < enc.len() implies #[trigger] s[k] != 0 by {
        assert(s[k] == enc[k]);
    }
    assert(s[enc.len() as int] == 0);
    lemma_first_nul_at(s, 0, enc.len() as int);
    assert(s.subrange(0, enc.len() as int) =~= enc);
    let p = g.map_path.len() as int;
    let h = g.host_name.len() as int;
    assert forall|k: int| 13 <= k < 13 + p implies #[trigger] raw[k] != 0 by {
        assert(raw[k] == g.map_path[k - 13]);
    }
    assert(raw[13 + p] == 0);
    lemma_first_nul_at(raw, 13, 13 + p);
    assert forall|k: int| 14 + p <= k < 14 + p + h implies #[trigger] raw[k] != 0 by {
        assert(raw[k] == g.host_name[k - 14 - p]);
    }
    assert(raw[14 + p + h] == 0);
    lemma_first_nul_at(raw, 14 + p, 14 + p + h);
    assert(raw.subrange(13, 13 + p) =~= g.map_path);
    assert(raw.subrange(14 + p, 14 + p + h) =~= g.host_name);
    assert(raw.subrange(16 + p + h, 36 + p + h) =~= g.sha1);
    assert(raw[15 + p + h] == 0);
    assert(raw.subrange(0, 4) =~= u32_le(g.flags));
    assert(raw.subrange(9, 13) =~= u32_le(g.checksum));
    lemma_u32_round_trip_at(raw, 0, g.flags);
    lemma_u32_round_trip_at(raw, 9, g.checksum);
    lemma_u16_le_round_trip(g.width);
    lemma_u16_le_round_trip(g.height);
    assert(raw.subrange(5, 7) =~= u16_le(g.width));
    assert(raw.subrange(7, 9) =~= u16_le(g.height));
    assert(le_u16(raw, 5) == le_u16(u16_le(g.width), 0));
    assert(le_u16(raw, 7) == le_u16(u16_le(g.height), 0));
}

proof fn lemma_u32_round_trip_at(s: Seq<u8>, i: int, n: u32)
    requires
        0 <= i,
        i + 4 <= s.len(),
        s.subrange(i, i + 4) == u32_le(n),
    ensures
        le_u32(s, i) == n,
{
    crate::chat::lemma_u32_le_round_trip(n);
    assert(s[i] == u32_le(n)[0]);
    assert(s[i + 1] == u32_le(n)[1]);
    assert(s[i + 2] == u32_le(n)[2]);
    assert(s[i + 3] == u32_le(n)[3]);
}

fn push_slice(buf: &mut Vec<u8>, bytes: &[u8])
    ensures
        final(buf)@ == old(buf)@ + bytes@,
{
    let ghost start = buf@;
    let mut i: usize = 0;
    while i < bytes.len()
        invariant
            i <= bytes.len(),
            buf@ == start + bytes@.subrange(0, i as int),
        decreases bytes.len() - i,
    {
        buf.push(bytes[i]);
        assert(bytes@.subrange(0, i + 1) =~= bytes@.subrange(0, i as int).push(bytes@[i as int]));
        i = i + 1;
    }
    assert(bytes@.subrange(0, bytes.len() as int) =~= bytes@);
}

fn push_u32(buf: &mut Vec<u8>, n: u32)
    ensures
        final(buf)@ == old(buf)@ + u32_le(n),
{
    let ghost start = buf@;
    buf.push((n & 0xff) as u8);
    buf.push(((n >> 8u32) & 0xff) as u8);
    buf.push(((n >> 16u32) & 0xff) as u8);
    buf.push((n >> 24u32) as u8);
    assert(buf@ =~= start + u32_le(n));
}

fn push_u16(buf: &mut Vec<u8>, n: u16)
    ensures
        final(buf)@ == old(buf)@ + u16_le(n),
{
    let ghost start = buf@;
    buf.push((n & 0xff) as u8);
    buf.push((n >> 8u16) as u8);
    assert(buf@ =~= start + u16_le(n));
}

/// Finds the first zero byte at or after `i`.
fn find_nul(s: &[u8], i: usize) -> (r: Option<usize>)
    ensures
        match (r, first_nul(s@, i as int)) {
            (Some(e), Some(e2)) => e == e2,
            (None, None) => true,
            _ => false,
        },
        r matches Some(e) ==> i <= e < s.len() && s@[e as int] == 0,
{
    let mut j: usize = i;
    while j < s.len() && s[j] != 0
        invariant
            i <= j,
            first_nul(s@, i as int) == first_nul(s@, j as int),
        decreases s.len() - j,
    {
        j = j + 1;
    }
    if j >= s.len() {
        None
    } else {
        Some(j)
    }
}

fn copy_range(s: &[u8], from: usize, to: usize) -> (r: Vec<u8>)
    requires
        from <= to <= s.len(),
    ensures
        r@ == s@.subrange(from as int, to as int),
{
    let mut r: Vec<u8> = Vec::new();
    let mut i: usize = from;
    while i < to
        invariant
            from <= i <= to <= s.len(),
            r@ == s@.subrange(from as int, i as int),
        decreases to - i,
    {
        r.push(s[i]);
        assert(s@.subrange(from as int, i + 1) =~= s@.subrange(from as int, i as int).push(s@[i as int]));
        i = i + 1;
    }
    r
}

impl GameSettings {
    /// Settings for a game on `map`, hosted under the name `FLO`.
    pub fn new(flags: u32, map: GameSettingsMap) -> (r: GameSettings)
        ensures
            r@ == (GameSettingsView {
                flags,
                unk_1: 0,
                width: map.width,
                height: map.height,
                checksum: map.checksum,
                map_path: without_nul(map.path@),
                host_name: seq![0x46u8, 0x4cu8, 0x4fu8],
                sha1: map.sha1@,
            }),
    {
        let mut host_name: Vec<u8> = Vec::new();
        host_name.push(0x46);
        host_name.push(0x4c);
        host_name.push(0x4f);
        assert(host_name@ =~= seq![0x46u8, 0x4cu8, 0x4fu8]);
        GameSettings {
            game_setting_flags: flags,
            unk_1: 0,
            map_width: map.width,
            map_height: map.height,
            map_checksum: map.checksum,
            map_sha1: map.sha1,
            map_path: c_string_lossy(map.path.as_slice()),
            host_name,
        }
    }

    /// Number of raw bytes before the stat-string encoding.
    pub fn get_encode_size(&self) -> (r: usize)
        requires
            self.map_path.len() + self.host_name.len() <= usize::MAX - 64,
        ensures
            r == raw_bytes(self@).len(),
    {
        4 + 1 + 2 + 2 + 4 + self.map_path.len() + 1 + self.host_name.len() + 1 + 1 + 20
    }

    /// Appends the bytes of this settings block to `buf`: the stat-string of its raw bytes,
    /// then a zero.
    pub fn encode(&self, buf: &mut Vec<u8>)
        ensures
            final(buf)@ == old(buf)@ + settings_bytes(self@),
    {
        let mut raw: Vec<u8> = Vec::new();
        push_u32(&mut raw, self.game_setting_flags);
        raw.push(self.unk_1);
        push_u16(&mut raw, self.map_width);
        push_u16(&mut raw, self.map_height);
        push_u32(&mut raw, self.map_checksum);
        push_slice(&mut raw, self.map_path.as_slice());
        raw.push(0);
        push_slice(&mut raw, self.host_name.as_slice());
        raw.push(0);
        raw.push(0);
        push_slice(&mut raw, &self.map_sha1);
        assert(raw@ =~= raw_bytes(self@));
        let encoded = crate::stat_string::encode(raw.as_slice());
        let ghost start = buf@;
        push_slice(buf, encoded.as_slice());
        buf.push(0);
        assert(buf@ =~= start + settings_bytes(self@));
    }

    /// Reads a settings block from the start of `buf`, returning it with the number of
    /// bytes taken.
    pub fn decode(buf: &[u8]) -> (r: Option<(GameSettings, usize)>)
        ensures
            match (r, parse_settings(buf@)) {
                (Some((g, n)), Some((g2, n2))) => g@ == g2 && n == n2,
                (None, None) => true,
                _ => false,
            },
    {
        if buf.len() < crate::stat_string::encoded_len(MIN_RAW_LEN) {
            return None;
        }
        let e = match find_nul(buf, 0) {
            Some(e) => e,
            None => {
                return None;
            },
        };
        let enc = copy_range(buf, 0, e);
        let data = crate::stat_string::decode(enc.as_slice());
        let d = data.as_slice();
        assert(d@ == decode_spec(buf@.subrange(0, e as int)));
        if d.len() < 13 {
            return None;
        }
        let flags: u32 = (d[0] as u32) | ((d[1] as u32) << 8u32) | ((d[2] as u32) << 16u32) | ((d[3] as u32) << 24u32);
        if flags & !KNOWN_GAME_SETTING_FLAGS != 0 {
            return None;
        }
        let e1 = match find_nul(d, 13) {
            Some(x) => x,
            None => {
                return None;
            },
        };
        let map_path = copy_range(d, 13, e1);
        let e2 = match find_nul(d, e1 + 1) {
            Some(x) => x,
            None => {
                return None;
            },
        };
        let host_name = copy_range(d, e1 + 1, e2);
        let z = e2 + 1;
        if d.len() - z != 21 {
            return None;
        }
        if d[z] != 0 {
            return None;
        }
        let mut map_sha1 = [0u8; 20];
        let mut k: usize = 0;
        while k < 20
            invariant
                k <= 20,
                z + 21 == d.len(),
                forall|a: int| 0 <= a < k ==> map_sha1@[a] == d@[z + 1 + a],
            decreases 20 - k,
        {
            map_sha1[k] = d[z + 1 + k];
            k = k + 1;
        }
        assert(map_sha1@ =~= d@.subrange(z + 1, z + 21));

        let checksum: u32 = (d[9] as u32) | ((d[10] as u32) << 8u32) | ((d[11] as u32) << 16u32) | ((d[12] as u32) << 24u32);
        let width: u16 = (d[5] as u16) | ((d[6] as u16) << 8u16);
        let height: u16 = (d[7] as u16) | ((d[8] as u16) << 8u16);
        Some(
            (
                GameSettings {
                    game_setting_flags: flags,
                    unk_1: d[4],
                    map_width: width,
                    map_height: height,
                    map_checksum: checksum,
                    map_path,
                    host_name,
                    map_sha1,
                },
                e + 1,
            ),
        )
    }
}

/// A packet with no payload: the countdown before loading starts.
#[derive(Debug, Clone, Copy, PartialEq, Eq, Structural)]
pub struct CountDownStart;

/// A packet with no payload: the countdown is over.
#[derive(Debug, Clone, Copy, PartialEq, Eq, Structural)]
pub struct CountDownEnd;

/// A packet with no payload: this player finished loading.
#[derive(Debug, Clone, Copy, PartialEq, Eq, Structural)]
pub struct GameLoadedSelf;

/// Another player finished loading.
#[derive(Debug, Clone, Copy, PartialEq, Eq, Structural)]
pub struct PlayerLoaded {
    pub player_id: u8,
}

impl PlayerLoaded {
    /// Appends the payload to `buf`.
    pub fn encode(&self, buf: &mut Vec<u8>)
        ensures
            final(buf)@ == old(buf)@.push(self.player_id),
    {
        buf.push(self.player_id);
    }

    /// Reads the payload from the start of `buf`.
    pub fn decode(buf: &[u8]) -> (r: Option<PlayerLoaded>)
        ensures
            buf@.len() >= 1 ==> r == Some(PlayerLoaded { player_id: buf@[0] }),
            buf@.len() == 0 ==> r is None,
    {
        if buf.len() == 0 {
            None
        } else {
            Some(PlayerLoaded { player_id: buf[0] })
        }
    }
}

} // verus!
