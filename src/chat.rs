use vstd::prelude::*;

verus! {

/// Type byte of a plain chat message.
pub const MESSAGE_CHAT: u8 = 0x10;

/// Type byte of a team change.
pub const MESSAGE_TEAM_CHANGE: u8 = 0x11;

/// Type byte of a color change.
pub const MESSAGE_COLOR_CHANGE: u8 = 0x12;

/// Type byte of a race change.
pub const MESSAGE_RACE_CHANGE: u8 = 0x13;

/// Type byte of a handicap change.
pub const MESSAGE_HANDICAP_CHANGE: u8 = 0x14;

/// Type byte of an in-game message with a scope.
pub const MESSAGE_SCOPED: u8 = 0x20;

/// Who an in-game message is for.
#[derive(Debug, Clone, Copy, PartialEq, Eq, Structural)]
pub enum MessageScope {
    All,
    Allies,
    Observers,
    Player(u8),
}

/// The scope value written on the wire. A player scope is written as `2 + v`, while it is
/// read back from `3 + v`: that asymmetry is what deployed clients exchange.
pub open spec fn scope_code(s: MessageScope) -> u32 {
    match s {
        MessageScope::All => 0,
        MessageScope::Allies => 1,
        MessageScope::Observers => 2,
        MessageScope::Player(v) => (2 + v) as u32,
    }
}

/// The scope read from a wire value, if the value is valid.
pub open spec fn scope_of_code(n: u32) -> Option<MessageScope> {
    if n == 0 {
        Some(MessageScope::All)
    } else if n == 1 {
        Some(MessageScope::Allies)
    } else if n == 2 {
        Some(MessageScope::Observers)
    } else if n <= 252 {
        Some(MessageScope::Player((n - 3) as u8))
    } else {
        None
    }
}

/// Little-endian bytes of a `u32`.
pub open spec fn u32_le(n: u32) -> Seq<u8> {
    seq![(n & 0xff) as u8, ((n >> 8u32) & 0xff) as u8, ((n >> 16u32) & 0xff) as u8, (n >> 24u32) as u8]
}

/// The `u32` stored little-endian at `s[i..i + 4]`.
pub open spec fn le_u32(s: Seq<u8>, i: int) -> u32 {
    (s[i] as u32) | ((s[i + 1] as u32) << 8u32) | ((s[i + 2] as u32) << 16u32) | ((s[i + 3] as u32)
        << 24u32)
}

pub proof fn lemma_u32_le_round_trip(n: u32)
    ensures
        le_u32(u32_le(n), 0) == n,
{
    let b0 = (n & 0xff) as u8;
    let b1 = ((n >> 8u32) & 0xff) as u8;
    let b2 = ((n >> 16u32) & 0xff) as u8;
    let b3 = (n >> 24u32) as u8;
    assert((b0 as u32) | ((b1 as u32) << 8u32) | ((b2 as u32) << 16u32) | ((b3 as u32) << 24u32)
        == n) by (bit_vector)
        requires
            b0 == (n & 0xff) as u8,
            b1 == ((n >> 8u32) & 0xff) as u8,
            b2 == ((n >> 16u32) & 0xff) as u8,
            b3 == (n >> 24u32) as u8,
    ;
}

/// A chat payload. Text is held as the bytes of a C string, without its terminating zero.
#[derive(Debug, Clone, PartialEq, Eq)]
pub enum ChatMessage {
    Chat(Vec<u8>),
    TeamChange(u8),
    ColorChange(u8),
    RaceChange(u8),
    HandicapChange(u8),
    Scoped { scope: MessageScope, message: Vec<u8> },
}

/// The mathematical value of a `ChatMessage`.
pub enum ChatMessageView {
    Chat(Seq<u8>),
    TeamChange(u8),
    ColorChange(u8),
    RaceChange(u8),
    HandicapChange(u8),
    Scoped(MessageScope, Seq<u8>),
}

impl View for ChatMessage {
    type V = ChatMessageView;

    open spec fn view(&self) -> ChatMessageView {
        match self {
            ChatMessage::Chat(t) => ChatMessageView::Chat(t@),
            ChatMessage::TeamChange(v) => ChatMessageView::TeamChange(*v),
            ChatMessage::ColorChange(v) => ChatMessageView::ColorChange(*v),
            ChatMessage::RaceChange(v) => ChatMessageView::RaceChange(*v),
            ChatMessage::HandicapChange(v) => ChatMessageView::HandicapChange(*v),
            ChatMessage::Scoped { scope, message } => ChatMessageView::Scoped(*scope, message@),
        }
    }
}

/// A chat packet: the recipients, the sender and the payload.
#[derive(Debug, Clone, PartialEq, Eq)]
pub struct ChatToHost {
    pub to_players_len: u8,
    pub to_players: Vec<u8>,
    pub from_player: u8,
    pub message: ChatMessage,
}

/// The mathematical value of a `ChatToHost`.
pub struct ChatToHostView {
    pub to_players_len: u8,
    pub to_players: Seq<u8>,
    pub from_player: u8,
    pub message: ChatMessageView,
}

impl View for ChatToHost {
    type V = ChatToHostView;

    open spec fn view(&self) -> ChatToHostView {
        ChatToHostView {
            to_players_len: self.to_players_len,
            to_players: self.to_players@,
            from_player: self.from_player,
            message: self.message@,
        }
    }
}

/// Whether a byte string holds no zero byte, as the text of a C string must.
pub open spec fn no_nul(s: Seq<u8>) -> bool {
    forall|i: int| 0 <= i < s.len() ==> #[trigger] s[i] != 0
}

/// A C string on the wire: its bytes and a terminating zero.
pub open spec fn cstr_bytes(t: Seq<u8>) -> Seq<u8> {
    t + seq![0u8]
}

/// The bytes of a chat payload.
pub open spec fn message_bytes(m: ChatMessageView) -> Seq<u8> {
    match m {
        ChatMessageView::Chat(t) => seq![MESSAGE_CHAT] + cstr_bytes(t),
        ChatMessageView::TeamChange(v) => seq![MESSAGE_TEAM_CHANGE, v],
        ChatMessageView::ColorChange(v) => seq![MESSAGE_COLOR_CHANGE, v],
        ChatMessageView::RaceChange(v) => seq![MESSAGE_RACE_CHANGE, v],
        ChatMessageView::HandicapChange(v) => seq![MESSAGE_HANDICAP_CHANGE, v],
        ChatMessageView::Scoped(sc, t) => seq![MESSAGE_SCOPED] + u32_le(scope_code(sc)) + cstr_bytes(t),
    }
}

/// The bytes of a chat packet.
pub open spec fn chat_bytes(c: ChatToHostView) -> Seq<u8> {
    seq![c.to_players_len] + c.to_players + seq![c.from_player] + message_bytes(c.message)
}

/// The first zero byte at or after `i`.
pub open spec fn first_nul(s: Seq<u8>, i: int) -> Option<int>
    decreases s.len() - i,
{
    if i < 0 || i >= s.len() {
        None
    } else if s[i] == 0 {
        Some(i)
    } else {
        first_nul(s, i + 1)
    }
}

/// A C string read at `i`: its text and the index after its zero.
pub open spec fn parse_cstr(s: Seq<u8>, i: int) -> Option<(Seq<u8>, int)> {
    match first_nul(s, i) {
        Some(e) => Some((s.subrange(i, e), e + 1)),
        None => None,
    }
}

/// A chat payload read at `i`, and the index after it.
pub open spec fn parse_message(s: Seq<u8>, i: int) -> Option<(ChatMessageView, int)> {
    if i < 0 || s.len() < i + 2 {
        None
    } else {
        let t = s[i];
        if t == MESSAGE_CHAT {
            match parse_cstr(s, i + 1) {
                Some((text, e)) => Some((ChatMessageView::Chat(text), e)),
                None => None,
            }
        } else if t == MESSAGE_TEAM_CHANGE {
            Some((ChatMessageView::TeamChange(s[i + 1]), i + 2))
        } else if t == MESSAGE_COLOR_CHANGE {
            Some((ChatMessageView::ColorChange(s[i + 1]), i + 2))
        } else if t == MESSAGE_RACE_CHANGE {
            Some((ChatMessageView::RaceChange(s[i + 1]), i + 2))
        } else if t == MESSAGE_HANDICAP_CHANGE {
            Some((ChatMessageView::HandicapChange(s[i + 1]), i + 2))
        } else if t == MESSAGE_SCOPED {
            if s.len() < i + 5 {
                None
            } else {
                match scope_of_code(le_u32(s, i + 1)) {
                    Some(sc) => match parse_cstr(s, i + 5) {
                        Some((text, e)) => Some((ChatMessageView::Scoped(sc, text), e)),
                        None => None,
                    },
                    None => None,
                }
            }
        } else {
            None
        }
    }
}

/// A chat packet read from the start of `s`, and the number of bytes it took.
pub open spec fn parse_chat(s: Seq<u8>) -> Option<(ChatToHostView, int)> {
    if s.len() < 1 {
        None
    } else {
        let n = s[0] as int;
        if s.len() < n + 2 {
            None
        } else {
            match parse_message(s, n + 2) {
                Some((m, e)) => Some(
                    (
                        ChatToHostView {
                            to_players_len: s[0],
                            to_players: s.subrange(1, n + 1),
                            from_player: s[n + 1],
                            message: m,
                        },
                        e,
                    ),
                ),
                None => None,
            }
        }
    }
}

/// Whether a payload's text holds no zero byte.
pub open spec fn message_wf(m: ChatMessageView) -> bool {
    match m {
        ChatMessageView::Chat(t) => no_nul(t),
        ChatMessageView::Scoped(_, t) => no_nul(t),
        _ => true,
    }
}

/// Whether a chat packet can be written and read back: its recipient count matches its
/// recipients and its text holds no zero byte.
pub open spec fn chat_wf(c: ChatToHostView) -> bool {
    c.to_players.len() == c.to_players_len as int && message_wf(c.message)
}

proof fn lemma_first_nul(pre: Seq<u8>, t: Seq<u8>, rest: Seq<u8>, i: int)
    requires
        no_nul(t),
        0 <= i <= t.len(),
    ensures
        first_nul(pre + cstr_bytes(t) + rest, pre.len() + i) == Some((pre.len() + t.len()) as int),
    decreases t.len() - i,
{
    let s = pre + cstr_bytes(t) + rest;
    if i < t.len() {
        assert(s[pre.len() + i] == t[i]);
        lemma_first_nul(pre, t, rest, i + 1);
    } else {
        assert(s[(pre.len() + t.len()) as int] == 0);
    }
}

proof fn lemma_parse_cstr(pre: Seq<u8>, t: Seq<u8>, rest: Seq<u8>)
    requires
        no_nul(t),
    ensures
        parse_cstr(pre + cstr_bytes(t) + rest, pre.len() as int) == Some(
            (t, (pre.len() + t.len() + 1) as int),
        ),
{
    lemma_first_nul(pre, t, rest, 0);
    let s = pre + cstr_bytes(t) + rest;
    assert(s.subrange(pre.len() as int, (pre.len() + t.len()) as int) =~= t);
}

/// Reading back a written chat packet gives it back, whatever follows it, when its
/// recipient count matches, its text holds no zero byte and its scope is not a single
/// player (a player scope is written and read with different offsets).
pub proof fn lemma_chat_round_trip(c: ChatToHostView, rest: Seq<u8>)
    requires
        chat_wf(c),
        !(c.message matches ChatMessageView::Scoped(MessageScope::Player(_), _)),
    ensures
        parse_chat(chat_bytes(c) + rest) == Some((c, chat_bytes(c).len() as int)),
{
    let s = chat_bytes(c) + rest;
    let n = c.to_players_len as int;
    let head = seq![c.to_players_len] + c.to_players + seq![c.from_player];
    assert(head.len() == n + 2);
    assert(s =~= head + message_bytes(c.message) + rest);
    assert(s[0] == c.to_players_len);
    assert(s.subrange(1, n + 1) =~= c.to_players);
    assert(s[n + 1] == c.from_player);
    match c.message {
        ChatMessageView::Chat(t) => {
            let pre = head + seq![MESSAGE_CHAT];
            assert(s =~= pre + cstr_bytes(t) + rest);
            lemma_parse_cstr(pre, t, rest);
        },
        ChatMessageView::Scoped(sc, t) => {
            let pre = head + seq![MESSAGE_SCOPED] + u32_le(scope_code(sc));
            assert(s =~= pre + cstr_bytes(t) + rest);
            lemma_parse_cstr(pre, t, rest);
            lemma_u32_le_round_trip(scope_code(sc));
            assert(s.subrange(n + 3, n + 7) =~= u32_le(scope_code(sc)));
            assert(le_u32(s, n + 3) == le_u32(u32_le(scope_code(sc)), 0));
        },
        _ => {
            assert(s[n + 2] == message_bytes(c.message)[0]);
            assert(s[n + 3] == message_bytes(c.message)[1]);
        },
    }
}

/// Appends `bytes` to `buf`.
fn push_all(buf: &mut Vec<u8>, bytes: &Vec<u8>)
    ensures
        final(buf)@ == old(buf)@ + bytes@,
{
    let ghost start = buf@;
    let mut i: usize = 0;
    while i < bytes.len()
        invariant
            i <= bytes.len(),
            buf@ == start + bytes@.subrange(0, i as int),
        decreases bytes.len() - i,
    {
        buf.push(bytes[i]);
        assert(bytes@.subrange(0, i + 1) =~= bytes@.subrange(0, i as int).push(bytes@[i as int]));
        i = i + 1;
    }
    assert(bytes@.subrange(0, bytes.len() as int) =~= bytes@);
}

/// Appends the little-endian bytes of `n` to `buf`.
fn push_u32_le(buf: &mut Vec<u8>, n: u32)
    ensures
        final(buf)@ == old(buf)@ + u32_le(n),
{
    let ghost start = buf@;
    buf.push((n & 0xff) as u8);
    buf.push(((n >> 8u32) & 0xff) as u8);
    buf.push(((n >> 16u32) & 0xff) as u8);
    buf.push((n >> 24u32) as u8);
    assert(buf@ =~= start + u32_le(n));
}

/// Reads a C string at `i`: its text and the index after its zero.
fn read_cstr(buf: &[u8], i: usize) -> (r: Option<(Vec<u8>, usize)>)
    ensures
        match (r, parse_cstr(buf@, i as int)) {
            (Some((t, e)), Some((t2, e2))) => t@ == t2 && e == e2,
            (None, None) => true,
            _ => false,
        },
{
    let mut t: Vec<u8> = Vec::new();
    let mut j: usize = i;
    while j < buf.len() && buf[j] != 0
        invariant
            i <= j,
            j <= buf.len() || i >= buf.len(),
            first_nul(buf@, i as int) == first_nul(buf@, j as int),
            i <= buf.len() ==> t@ == buf@.subrange(i as int, j as int),
        decreases buf.len() - j,
    {
        t.push(buf[j]);
        assert(buf@.subrange(i as int, j + 1) =~= buf@.subrange(i as int, j as int).push(buf@[j as int]));
        j = j + 1;
    }
    if j >= buf.len() {
        return None;
    }
    Some((t, j + 1))
}

impl MessageScope {
    /// The scope value written on the wire.
    pub fn encode_code(self) -> (r: u32)
        ensures
            r == scope_code(self),
    {
        match self {
            MessageScope::All => 0,
            MessageScope::Allies => 1,
            MessageScope::Observers => 2,
            MessageScope::Player(v) => 2 + v as u32,
        }
    }

    /// The scope read from a wire value, if the value is valid.
    pub fn decode_code(n: u32) -> (r: Option<MessageScope>)
        ensures
            r == scope_of_code(n),
    {
        if n == 0 {
            Some(MessageScope::All)
        } else if n == 1 {
            Some(MessageScope::Allies)
        } else if n == 2 {
            Some(MessageScope::Observers)
        } else if n <= 252 {
            Some(MessageScope::Player((n - 3) as u8))
        } else {
            None
        }
    }
}

impl ChatMessage {
    /// Appends the bytes of this payload to `buf`.
    pub fn encode(&self, buf: &mut Vec<u8>)
        ensures
            final(buf)@ == old(buf)@ + message_bytes(self@),
    {
        let ghost start = buf@;
        match self {
            ChatMessage::Chat(t) => {
                buf.push(MESSAGE_CHAT);
                push_all(buf, t);
                buf.push(0);
            },
            ChatMessage::TeamChange(v) => {
                buf.push(MESSAGE_TEAM_CHANGE);
                buf.push(*v);
            },
            ChatMessage::ColorChange(v) => {
                buf.push(MESSAGE_COLOR_CHANGE);
                buf.push(*v);
            },
            ChatMessage::RaceChange(v) => {
                buf.push(MESSAGE_RACE_CHANGE);
                buf.push(*v);
            },
            ChatMessage::HandicapChange(v) => {
                buf.push(MESSAGE_HANDICAP_CHANGE);
                buf.push(*v);
            },
            ChatMessage::Scoped { scope, message } => {
                buf.push(MESSAGE_SCOPED);
                push_u32_le(buf, scope.encode_code());
                push_all(buf, message);
                buf.push(0);
            },
        }
        assert(buf@ =~= start + message_bytes(self@));
    }

    /// Number of bytes that `encode` writes.
    pub fn encode_len(&self) -> (r: usize)
        requires
            match self@ {
                ChatMessageView::Chat(t) => t.len() <= usize::MAX - 6,
                ChatMessageView::Scoped(_, t) => t.len() <= usize::MAX - 6,
                _ => true,
            },
        ensures
            r == message_bytes(self@).len(),
    {
        match self {
            ChatMessage::Chat(t) => 1 + t.len() + 1,
            ChatMessage::TeamChange(_) => 2,
            ChatMessage::ColorChange(_) => 2,
            ChatMessage::RaceChange(_) => 2,
            ChatMessage::HandicapChange(_) => 2,
            ChatMessage::Scoped { message, .. } => 1 + 4 + message.len() + 1,
        }
    }

    /// Reads a payload at `i`, returning it with the index after it.
    pub fn decode(buf: &[u8], i: usize) -> (r: Option<(ChatMessage, usize)>)
        ensures
            match (r, parse_message(buf@, i as int)) {
                (Some((m, e)), Some((m2, e2))) => m@ == m2 && e == e2,
                (None, None) => true,
                _ => false,
            },
    {
        if buf.len() < 2 || i > buf.len() - 2 {
            return None;
        }
        let t = buf[i];
        if t == MESSAGE_CHAT {
            match read_cstr(buf, i + 1) {
                Some((text, e)) => Some((ChatMessage::Chat(text), e)),
                None => None,
            }
        } else if t == MESSAGE_TEAM_CHANGE {
            Some((ChatMessage::TeamChange(buf[i + 1]), i + 2))
        } else if t == MESSAGE_COLOR_CHANGE {
            Some((ChatMessage::ColorChange(buf[i + 1]), i + 2))
        } else if t == MESSAGE_RACE_CHANGE {
            Some((ChatMessage::RaceChange(buf[i + 1]), i + 2))
        } else if t == MESSAGE_HANDICAP_CHANGE {
            Some((ChatMessage::HandicapChange(buf[i + 1]), i + 2))
        } else if t == MESSAGE_SCOPED {
            if buf.len() < 5 || i > buf.len() - 5 {
                return None;
            }
            let code: u32 = (buf[i + 1] as u32) | ((buf[i + 2] as u32) << 8u32) | ((buf[i + 3] as u32)
                << 16u32) | ((buf[i + 4] as u32) << 24u32);
            match MessageScope::decode_code(code) {
                Some(scope) => match read_cstr(buf, i + 5) {
                    Some((message, e)) => Some((ChatMessage::Scoped { scope, message }, e)),
                    None => None,
                },
                None => None,
            }
        } else {
            None
        }
    }
}

/// The bytes of `s` without its zero bytes, in order.
pub open spec fn without_nul(s: Seq<u8>) -> Seq<u8>
    decreases s.len(),
{
    if s.len() == 0 {
        seq![]
    } else {
        let r = without_nul(s.drop_last());
        if s.last() == 0 {
            r
        } else {
            r.push(s.last())
        }
    }
}

proof fn lemma_without_nul(s: Seq<u8>)
    ensures
        no_nul(without_nul(s)),
    decreases s.len(),
{
    if s.len() > 0 {
        lemma_without_nul(s.drop_last());
    }
}

/// The text of a C string made from `s`: zero bytes are dropped.
pub fn c_string_lossy(s: &[u8]) -> (r: Vec<u8>)
    ensures
        r@ == without_nul(s@),
        no_nul(r@),
{
    let mut r: Vec<u8> = Vec::new();
    let mut i: usize = 0;
    while i < s.len()
        invariant
            i <= s.len(),
            r@ == without_nul(s@.subrange(0, i as int)),
        decreases s.len() - i,
    {
        assert(s@.subrange(0, i + 1).drop_last() =~= s@.subrange(0, i as int));
        if s[i] != 0 {
            r.push(s[i]);
        }
        i = i + 1;
    }
    assert(s@.subrange(0, s.len() as int) =~= s@);
    proof {
        lemma_without_nul(s@);
    }
    r
}

fn copy_bytes(s: &[u8]) -> (r: Vec<u8>)
    ensures
        r@ == s@,
{
    let mut r: Vec<u8> = Vec::new();
    let mut i: usize = 0;
    while i < s.len()
        invariant
            i <= s.len(),
            r@ == s@.subrange(0, i as int),
        decreases s.len() - i,
    {
        r.push(s[i]);
        assert(s@.subrange(0, i + 1) =~= s@.subrange(0, i as int).push(s@[i as int]));
        i = i + 1;
    }
    assert(s@.subrange(0, s.len() as int) =~= s@);
    r
}

impl ChatToHost {
    /// Whether this is an in-game message with a scope.
    pub fn is_in_game_chat(&self) -> (r: bool)
        ensures
            r == (self.message@ is Scoped),
    {
        if let ChatMessage::Scoped { .. } = self.message {
            true
        } else {
            false
        }
    }

    /// The text of an in-game message.
    pub fn chat_message(&self) -> (r: Option<&Vec<u8>>)
        ensures
            self.message@ matches ChatMessageView::Scoped(_, t) ==> r matches Some(m) && m@ == t,
            !(self.message@ is Scoped) ==> r is None,
    {
        match &self.message {
            ChatMessage::Scoped { message, .. } => Some(message),
            _ => None,
        }
    }

    /// A lobby chat message from `from` to the players `to`.
    pub fn lobby(from: u8, to: &[u8], message: &[u8]) -> (r: ChatToHost)
        requires
            to.len() <= 255,
        ensures
            r@ == (ChatToHostView {
                to_players_len: to.len() as u8,
                to_players: to@,
                from_player: from,
                message: ChatMessageView::Chat(without_nul(message@)),
            }),
            chat_wf(r@),
    {
        ChatToHost {
            to_players_len: to.len() as u8,
            to_players: copy_bytes(to),
            from_player: from,
            message: ChatMessage::Chat(c_string_lossy(message)),
        }
    }

    /// An in-game message with scope `scope` from `from` to the players `to`.
    pub fn in_game(scope: MessageScope, from: u8, to: &[u8], message: &[u8]) -> (r: ChatToHost)
        requires
            to.len() <= 255,
        ensures
            r@ == (ChatToHostView {
                to_players_len: to.len() as u8,
                to_players: to@,
                from_player: from,
                message: ChatMessageView::Scoped(scope, without_nul(message@)),
            }),
            chat_wf(r@),
    {
        ChatToHost {
            to_players_len: to.len() as u8,
            to_players: copy_bytes(to),
            from_player: from,
            message: ChatMessage::Scoped { scope, message: c_string_lossy(message) },
        }
    }

    /// Appends the bytes of this packet to `buf`.
    pub fn encode(&self, buf: &mut Vec<u8>)
        ensures
            final(buf)@ == old(buf)@ + chat_bytes(self@),
    {
        let ghost start = buf@;
        buf.push(self.to_players_len);
        push_all(buf, &self.to_players);
        buf.push(self.from_player);
        self.message.encode(buf);
        assert(buf@ =~= start + chat_bytes(self@));
    }

    /// Reads a packet from the start of `buf`, returning it with the number of bytes taken.
    pub fn decode(buf: &[u8]) -> (r: Option<(ChatToHost, usize)>)
        ensures
            match (r, parse_chat(buf@)) {
                (Some((c, e)), Some((c2, e2))) => c@ == c2 && e == e2,
                (None, None) => true,
                _ => false,
            },
    {
        if buf.len() < 1 {
            return None;
        }
        let n = buf[0] as usize;
        if buf.len() < n + 2 {
            return None;
        }
        let mut to: Vec<u8> = Vec::new();
        let mut k: usize = 0;
        while k < n
            invariant
                n == buf@[0] as int,
                n + 2 <= buf.len(),
                k <= n,
                to@ == buf@.subrange(1, k + 1),
            decreases n - k,
        {
            to.push(buf[k + 1]);
            assert(buf@.subrange(1, k + 2) =~= buf@.subrange(1, k + 1).push(buf@[k + 1]));
            k = k + 1;
        }
        match ChatMessage::decode(buf, n + 2) {
            Some((message, e)) => Some(
                (ChatToHost { to_players_len: buf[0], to_players: to, from_player: buf[n + 1], message }, e),
            ),
            None => None,
        }
    }
}

/// A chat packet as the host relays it.
#[derive(Debug, Clone, PartialEq, Eq)]
pub struct ChatFromHost(pub ChatToHost);

impl ChatFromHost {
    pub fn from(inner: ChatToHost) -> (r: ChatFromHost)
        ensures
            r.0@ == inner@,
    {
        ChatFromHost(inner)
    }

    /// The sender.
    pub fn from_player(&self) -> (r: u8)
        ensures
            r == self.0.from_player,
    {
        self.0.from_player
    }

    /// A lobby chat message from `from` to the players `to`.
    pub fn lobby(from: u8, to: &[u8], message: &[u8]) -> (r: ChatFromHost)
        requires
            to.len() <= 255,
        ensures
            r.0@ == (ChatToHostView {
                to_players_len: to.len() as u8,
                to_players: to@,
                from_player: from,
                message: ChatMessageView::Chat(without_nul(message@)),
            }),
    {
        ChatFromHost(ChatToHost::lobby(from, to, message))
    }

    /// A message that only `player_id` sees, as if sent by themselves.
    pub fn private_to_self(player_id: u8, message: &[u8]) -> (r: ChatFromHost)
        ensures
            r.0@ == (ChatToHostView {
                to_players_len: 1,
                to_players: seq![player_id],
                from_player: player_id,
                message: ChatMessageView::Scoped(MessageScope::Player(player_id), without_nul(message@)),
            }),
    {
        let to = [player_id];
        let r = ChatFromHost(ChatToHost::in_game(MessageScope::Player(player_id), player_id, &to, message));
        assert(to@ =~= seq![player_id]);
        r
    }
}

/// A chat packet relayed from another player.
#[derive(Debug, Clone, PartialEq, Eq)]
pub struct ChatFromOthers(pub ChatToHost);

impl ChatFromOthers {
    pub fn new(msg: ChatToHost) -> (r: ChatFromOthers)
        ensures
            r.0@ == msg@,
    {
        ChatFromOthers(msg)
    }
}

} // verus!
