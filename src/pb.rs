use vstd::prelude::*;

verus! {

/// Most bytes a varint may take.
pub const MAX_VARINT_LEN: u64 = 10;

/// Wire type of a varint field.
pub const WIRE_VARINT: u64 = 0;

/// Wire type of a length-delimited field.
pub const WIRE_LEN: u64 = 2;

/// Largest field number.
pub const MAX_FIELD_NUMBER: u32 = 0x1fff_ffff;

/// The varint bytes of `n`: seven bits per byte, low bits first, the top bit set on every
/// byte but the last.
pub open spec fn varint_bytes(n: u64) -> Seq<u8>
    decreases n,
{
    if n < 128 {
        seq![n as u8]
    } else {
        seq![((n % 128) + 128) as u8] + varint_bytes(n / 128)
    }
}

/// A varint read at `i`, taking at most `d` bytes: its value and the index after it.
pub open spec fn parse_varint(s: Seq<u8>, i: int, d: nat) -> Option<(u64, int)>
    decreases d,
{
    if d == 0 || i < 0 || i >= s.len() {
        None
    } else if s[i] < 128 {
        Some((s[i] as u64, i + 1))
    } else {
        match parse_varint(s, i + 1, (d - 1) as nat) {
            None => None,
            Some((rest, e)) => {
                let v = (s[i] - 128) as int + 128 * rest as int;
                if v <= u64::MAX {
                    Some((v as u64, e))
                } else {
                    None
                }
            },
        }
    }
}

pub open spec fn pow128(k: nat) -> int
    decreases k,
{
    if k == 0 {
        1
    } else {
        128 * pow128((k - 1) as nat)
    }
}

proof fn lemma_varint_len(n: u64, k: nat)
    requires
        k >= 1,
        n < pow128(k),
    ensures
        varint_bytes(n).len() <= k,
    decreases n,
{
    if n >= 128 {
        assert(pow128(k) == 128 * pow128((k - 1) as nat));
        if k == 1 {
            assert(false);
        }
        assert((n / 128) < pow128((k - 1) as nat)) by (nonlinear_arith)
            requires
                n < 128 * pow128((k - 1) as nat),
        ;
        lemma_varint_len(n / 128, (k - 1) as nat);
    }
}

proof fn lemma_u64_fits_ten_groups(n: u64)
    ensures
        n < pow128(10),
{
    reveal_with_fuel(pow128, 11);
}

proof fn lemma_varint_round_trip_at(pre: Seq<u8>, n: u64, rest: Seq<u8>, d: nat)
    requires
        varint_bytes(n).len() <= d,
    ensures
        parse_varint(pre + varint_bytes(n) + rest, pre.len() as int, d) == Some(
            (n, (pre.len() + varint_bytes(n).len()) as int),
        ),
    decreases n,
{
    let s = pre + varint_bytes(n) + rest;
    let i = pre.len() as int;
    if n < 128 {
        assert(s[i] == n as u8);
    } else {
        let b = ((n % 128) + 128) as u8;
        let pre2 = pre.push(b);
        assert(s =~= pre2 + varint_bytes(n / 128) + rest);
        lemma_varint_round_trip_at(pre2, n / 128, rest, (d - 1) as nat);
        assert(s[i] == b);
    }
}

/// A varint is read back as written, whatever surrounds it.
pub proof fn lemma_varint_round_trip(pre: Seq<u8>, n: u64, rest: Seq<u8>)
    ensures
        parse_varint(pre + varint_bytes(n) + rest, pre.len() as int, MAX_VARINT_LEN as nat) == Some(
            (n, (pre.len() + varint_bytes(n).len()) as int),
        ),
        varint_bytes(n).len() <= MAX_VARINT_LEN,
{
    lemma_u64_fits_ten_groups(n);
    lemma_varint_len(n, 10);
    lemma_varint_round_trip_at(pre, n, rest, MAX_VARINT_LEN as nat);
}

/// Appends the varint bytes of `n` to `buf`.
pub fn encode_varint(buf: &mut Vec<u8>, n: u64)
    ensures
        final(buf)@ == old(buf)@ + varint_bytes(n),
{
    let ghost start = buf@;
    let mut m = n;
    while m >= 128
        invariant
            buf@ + varint_bytes(m) == start + varint_bytes(n),
        decreases m,
    {
        let ghost before = buf@;
        buf.push(((m % 128) + 128) as u8);
        assert(before + varint_bytes(m) =~= buf@ + varint_bytes(m / 128));
        m = m / 128;
    }
    buf.push(m as u8);
    assert(buf@ =~= start + varint_bytes(n));
}

/// Reads a varint at `i` taking at most `d` bytes: its value and the index after it.
pub fn decode_varint(buf: &[u8], i: usize, d: u64) -> (r: Option<(u64, usize)>)
    ensures
        match (r, parse_varint(buf@, i as int, d as nat)) {
            (Some((v, e)), Some((v2, e2))) => v == v2 && e == e2,
            (None, None) => true,
            _ => false,
        },
    decreases d,
{
    if d == 0 || i >= buf.len() {
        return None;
    }
    let b = buf[i];
    if b < 128 {
        return Some((b as u64, i + 1));
    }
    match decode_varint(buf, i + 1, d - 1) {
        None => None,
        Some((rest, e)) => {
            let low = (b - 128) as u64;
            if rest > (u64::MAX - low) / 128 {
                assert((b - 128) as int + 128 * rest as int > u64::MAX) by (nonlinear_arith)
                    requires
                        rest > (u64::MAX - low) / 128,
                        low == (b - 128) as int,
                ;
                None
            } else {
                assert(low + 128 * rest <= u64::MAX) by (nonlinear_arith)
                    requires
                        rest <= (u64::MAX - low) / 128,
                        low <= 127,
                ;
                Some((low + 128 * rest, e))
            }
        },
    }
}

/// The value of a protobuf field: a varint or a length-delimited byte string (a string,
/// bytes or a nested message).
#[derive(Debug, Clone, PartialEq, Eq)]
pub enum WireValue {
    Varint(u64),
    Bytes(Vec<u8>),
}

/// One protobuf field: its number and value.
#[derive(Debug, Clone, PartialEq, Eq)]
pub struct Field {
    pub number: u32,
    pub value: WireValue,
}

/// The mathematical value of a `WireValue`.
pub enum WireValueView {
    Varint(u64),
    Bytes(Seq<u8>),
}

/// The mathematical value of a `Field`.
pub struct FieldView {
    pub number: u32,
    pub value: WireValueView,
}

impl View for Field {
    type V = FieldView;

    open spec fn view(&self) -> FieldView {
        FieldView {
            number: self.number,
            value: match &self.value {
                WireValue::Varint(n) => WireValueView::Varint(*n),
                WireValue::Bytes(b) => WireValueView::Bytes(b@),
            },
        }
    }
}

/// The key of a field: its number and wire type.
pub open spec fn field_key(f: FieldView) -> u64 {
    ((f.number as u64) * 8 + match f.value {
        WireValueView::Varint(_) => WIRE_VARINT,
        WireValueView::Bytes(_) => WIRE_LEN,
    }) as u64
}

/// The bytes of a field.
pub open spec fn field_bytes(f: FieldView) -> Seq<u8> {
    varint_bytes(field_key(f)) + match f.value {
        WireValueView::Varint(n) => varint_bytes(n),
        WireValueView::Bytes(b) => varint_bytes(b.len() as u64) + b,
    }
}

/// The bytes of a message: its fields, in order.
pub open spec fn message_bytes(fs: Seq<FieldView>) -> Seq<u8>
    decreases fs.len(),
{
    if fs.len() == 0 {
        seq![]
    } else {
        field_bytes(fs[0]) + message_bytes(fs.subrange(1, fs.len() as int))
    }
}

/// A field read at `i`, and the index after it. Only varint and length-delimited fields
/// with a nonzero number are read.
pub open spec fn parse_field(s: Seq<u8>, i: int) -> Option<(FieldView, int)> {
    match parse_varint(s, i, MAX_VARINT_LEN as nat) {
        None => None,
        Some((key, e)) => {
            let number = key / 8;
            let wt = key % 8;
            if number == 0 || number > MAX_FIELD_NUMBER as u64 {
                None
            } else if wt == WIRE_VARINT {
                match parse_varint(s, e, MAX_VARINT_LEN as nat) {
                    None => None,
                    Some((v, e2)) => Some(
                        (FieldView { number: number as u32, value: WireValueView::Varint(v) }, e2),
                    ),
                }
            } else if wt == WIRE_LEN {
                match parse_varint(s, e, MAX_VARINT_LEN as nat) {
                    None => None,
                    Some((n, e2)) => if e2 + n > s.len() {
                        None
                    } else {
                        Some(
                            (
                                FieldView {
                                    number: number as u32,
                                    value: WireValueView::Bytes(s.subrange(e2, e2 + n)),
                                },
                                e2 + n,
                            ),
                        )
                    },
                }
            } else {
                None
            }
        },
    }
}

/// The fields of a message that spans `s[i..]`.
pub open spec fn parse_fields(s: Seq<u8>, i: int) -> Option<Seq<FieldView>>
    decreases s.len() - i,
{
    if i < 0 || i > s.len() {
        None
    } else if i == s.len() {
        Some(seq![])
    } else {
        match parse_field(s, i) {
            None => None,
            Some((f, e)) => if e <= i || e > s.len() {
                None
            } else {
                match parse_fields(s, e) {
                    None => None,
                    Some(rest) => Some(seq![f] + rest),
                }
            },
        }
    }
}

/// Whether a field can be written: a number between 1 and `MAX_FIELD_NUMBER`, and bytes
/// whose length fits a `u64`.
pub open spec fn field_wf(f: FieldView) -> bool {
    &&& 1 <= f.number <= MAX_FIELD_NUMBER
    &&& f.value matches WireValueView::Bytes(b) ==> b.len() <= u64::MAX
}

proof fn lemma_field_round_trip(pre: Seq<u8>, f: FieldView, rest: Seq<u8>)
    requires
        field_wf(f),
    ensures
        parse_field(pre + field_bytes(f) + rest, pre.len() as int) == Some(
            (f, (pre.len() + field_bytes(f).len()) as int),
        ),
{
    let s = pre + field_bytes(f) + rest;
    let key = field_key(f);
    let tail = match f.value {
        WireValueView::Varint(n) => varint_bytes(n),
        WireValueView::Bytes(b) => varint_bytes(b.len() as u64) + b,
    };
    assert(s =~= pre + varint_bytes(key) + (tail + rest));
    lemma_varint_round_trip(pre, key, tail + rest);
    assert(key / 8 == f.number as u64);
    let e = pre.len() + varint_bytes(key).len();
    let pre2 = pre + varint_bytes(key);
    match f.value {
        WireValueView::Varint(n) => {
            assert(key % 8 == WIRE_VARINT);
            assert(s =~= pre2 + varint_bytes(n) + rest);
            lemma_varint_round_trip(pre2, n, rest);
        },
        WireValueView::Bytes(b) => {
            assert(key % 8 == WIRE_LEN);
            assert(s =~= pre2 + varint_bytes(b.len() as u64) + (b + rest));
            lemma_varint_round_trip(pre2, b.len() as u64, b + rest);
            let e2 = pre2.len() + varint_bytes(b.len() as u64).len();
            assert(s.subrange(e2 as int, (e2 + b.len()) as int) =~= b);
        },
    }
}

proof fn lemma_message_round_trip_at(pre: Seq<u8>, fs: Seq<FieldView>)
    requires
        forall|k: int| 0 <= k < fs.len() ==> field_wf(#[trigger] fs[k]),
    ensures
        parse_fields(pre + message_bytes(fs), pre.len() as int) == Some(fs),
    decreases fs.len(),
{
    let s = pre + message_bytes(fs);
    if fs.len() == 0 {
        assert(s.len() == pre.len());
        assert(fs =~= seq![]);
    } else {
        let f = fs[0];
        let tail = fs.subrange(1, fs.len() as int);
        assert(field_wf(f));
        assert(s =~= pre + field_bytes(f) + message_bytes(tail));
        lemma_field_round_trip(pre, f, message_bytes(tail));
        let pre2 = pre + field_bytes(f);
        assert(s =~= pre2 + message_bytes(tail));
        assert forall|k: int| 0 <= k < tail.len() implies field_wf(#[trigger] tail[k]) by {
            assert(tail[k] == fs[k + 1]);
        }
        lemma_message_round_trip_at(pre2, tail);
        assert(field_bytes(f).len() > 0);
        assert(seq![f] + tail =~= fs);
    }
}

/// Reading back an encoded message gives its fields back, in order.
pub proof fn lemma_message_round_trip(fs: Seq<FieldView>)
    requires
        forall|k: int| 0 <= k < fs.len() ==> field_wf(#[trigger] fs[k]),
    ensures
        parse_fields(message_bytes(fs), 0) == Some(fs),
{
    lemma_message_round_trip_at(seq![], fs);
    assert(seq![] + message_bytes(fs) =~= message_bytes(fs));
}

/// Appends the bytes of field `f` to `buf`.
pub fn encode_field(buf: &mut Vec<u8>, f: &Field)
    requires
        f.number <= MAX_FIELD_NUMBER,
    ensures
        final(buf)@ == old(buf)@ + field_bytes(f@),
{
    let ghost start = buf@;
    let wt: u64 = match &f.value {
        WireValue::Varint(_) => WIRE_VARINT,
        WireValue::Bytes(_) => WIRE_LEN,
    };
    encode_varint(buf, (f.number as u64) * 8 + wt);
    match &f.value {
        WireValue::Varint(n) => {
            encode_varint(buf, *n);
        },
        WireValue::Bytes(b) => {
            encode_varint(buf, b.len() as u64);
            let mut i: usize = 0;
            let ghost mid = buf@;
            while i < b.len()
                invariant
                    i <= b.len(),
                    buf@ == mid + b@.subrange(0, i as int),
                decreases b.len() - i,
            {
                buf.push(b[i]);
                assert(b@.subrange(0, i + 1) =~= b@.subrange(0, i as int).push(b@[i as int]));
                i = i + 1;
            }
            assert(b@.subrange(0, b.len() as int) =~= b@);
        },
    }
    assert(buf@ =~= start + field_bytes(f@));
}

/// Encodes a message: its fields in order.
pub fn encode_message(fields: &Vec<Field>) -> (r: Vec<u8>)
    requires
        forall|k: int| 0 <= k < fields@.len() ==> #[trigger] fields@[k].number <= MAX_FIELD_NUMBER,
    ensures
        r@ == message_bytes(fields@.map_values(|f: Field| f@)),
{
    let ghost all = fields@.map_values(|f: Field| f@);
    let mut out: Vec<u8> = Vec::new();
    let mut k: usize = 0;
    assert(all.subrange(0, all.len() as int) =~= all);
    while k < fields.len()
        invariant
            k <= fields.len(),
            all == fields@.map_values(|f: Field| f@),
            forall|a: int| 0 <= a < fields@.len() ==> #[trigger] fields@[a].number <= MAX_FIELD_NUMBER,
            out@ + message_bytes(all.subrange(k as int, all.len() as int)) == message_bytes(all),
        decreases fields.len() - k,
    {
        let ghost before = out@;
        let ghost tail = all.subrange(k as int, all.len() as int);
        encode_field(&mut out, &fields[k]);
        assert(tail[0] == fields@[k as int]@);
        assert(tail.subrange(1, tail.len() as int) =~= all.subrange(k + 1, all.len() as int));
        assert(out@ + message_bytes(all.subrange(k + 1, all.len() as int)) =~= before + message_bytes(tail));
        k = k + 1;
    }
    assert(out@ =~= out@ + message_bytes(all.subrange(all.len() as int, all.len() as int)));
    out
}

fn decode_field(buf: &[u8], i: usize) -> (r: Option<(Field, usize)>)
    ensures
        match (r, parse_field(buf@, i as int)) {
            (Some((f, e)), Some((f2, e2))) => f@ == f2 && e == e2,
            (None, None) => true,
            _ => false,
        },
{
    let (key, e) = match decode_varint(buf, i, MAX_VARINT_LEN) {
        None => {
            return None;
        },
        Some(x) => x,
    };
    let number = key / 8;
    let wt = key % 8;
    if number == 0 || number > MAX_FIELD_NUMBER as u64 {
        return None;
    }
    if wt == WIRE_VARINT {
        match decode_varint(buf, e, MAX_VARINT_LEN) {
            None => None,
            Some((v, e2)) => Some((Field { number: number as u32, value: WireValue::Varint(v) }, e2)),
        }
    } else if wt == WIRE_LEN {
        match decode_varint(buf, e, MAX_VARINT_LEN) {
            None => None,
            Some((n, e2)) => {
                if e2 > buf.len() || n > (buf.len() - e2) as u64 {
                    return None;
                }
                let n = n as usize;
                let mut b: Vec<u8> = Vec::new();
                let mut k: usize = 0;
                while k < n
                    invariant
                        k <= n,
                        e2 + n <= buf.len(),
                        b@ == buf@.subrange(e2 as int, e2 + k),
                    decreases n - k,
                {
                    b.push(buf[e2 + k]);
                    assert(buf@.subrange(e2 as int, e2 + k + 1) =~= buf@.subrange(e2 as int, e2 + k).push(buf@[e2 + k]));
                    k = k + 1;
                }
                Some((Field { number: number as u32, value: WireValue::Bytes(b) }, e2 + n))
            },
        }
    } else {
        None
    }
}

/// Decodes a message that spans all of `buf` into its fields.
pub fn decode_message(buf: &[u8]) -> (r: Option<Vec<Field>>)
    ensures
        match (r, parse_fields(buf@, 0)) {
            (Some(fs), Some(fs2)) => fs@.map_values(|f: Field| f@) == fs2,
            (None, None) => true,
            _ => false,
        },
{
    let mut out: Vec<Field> = Vec::new();
    let mut i: usize = 0;
    while i < buf.len()
        invariant
            i <= buf.len(),
            match parse_fields(buf@, i as int) {
                None => parse_fields(buf@, 0) is None,
                Some(rest) => parse_fields(buf@, 0) == Some(out@.map_values(|f: Field| f@) + rest),
            },
        decreases buf.len() - i,
    {
        match decode_field(buf, i) {
            None => {
                return None;
            },
            Some((f, e)) => {
                if e <= i || e > buf.len() {
                    return None;
                }
                let ghost before = out@.map_values(|f: Field| f@);
                let ghost fv = f@;
                out.push(f);
                proof {
                    assert(out@.map_values(|f: Field| f@) =~= before.push(fv));
                    match parse_fields(buf@, e as int) {
                        None => {},
                        Some(rest) => {
                            assert(before + (seq![fv] + rest) =~= before.push(fv) + rest);
                        },
                    }
                }
                i = e;
            },
        }
    }
    assert(out@.map_values(|f: Field| f@) + seq![] =~= out@.map_values(|f: Field| f@));
    Some(out)
}

/// The varint an `int32` field holds: a negative value is sign-extended to 64 bits.
pub fn int32_to_varint(v: i32) -> (r: u64)
    ensures
        r == v as i64 as u64,
{
    v as i64 as u64
}

/// The `int32` a varint field holds: its low 32 bits.
pub fn varint_to_int32(n: u64) -> (r: i32)
    ensures
        r == n as i32,
{
    n as i32
}

/// An `int32` written as a varint reads back as itself.
pub proof fn lemma_int32_round_trip(v: i32)
    ensures
        (v as i64 as u64) as i32 == v,
{
    assert((v as i64 as u64) as i32 == v) by (bit_vector);
}

/// The value of the last varint field numbered `number`, if any.
pub open spec fn last_varint(fs: Seq<FieldView>, number: u32) -> Option<u64>
    decreases fs.len(),
{
    if fs.len() == 0 {
        None
    } else {
        let f = fs.last();
        if f.number == number && f.value is Varint {
            Some(f.value->Varint_0)
        } else {
            last_varint(fs.drop_last(), number)
        }
    }
}

/// The value of the last length-delimited field numbered `number`, if any.
pub open spec fn last_bytes(fs: Seq<FieldView>, number: u32) -> Option<Seq<u8>>
    decreases fs.len(),
{
    if fs.len() == 0 {
        None
    } else {
        let f = fs.last();
        if f.number == number && f.value is Bytes {
            Some(f.value->Bytes_0)
        } else {
            last_bytes(fs.drop_last(), number)
        }
    }
}

/// The value of the last varint field numbered `number`, if any: a repeated scalar field
/// keeps its last value.
pub fn get_varint(fields: &Vec<Field>, number: u32) -> (r: Option<u64>)
    ensures
        r == last_varint(fields@.map_values(|f: Field| f@), number),
{
    let ghost all = fields@.map_values(|f: Field| f@);
    let mut k: usize = fields.len();
    assert(all.subrange(0, k as int) =~= all);
    while k > 0
        invariant
            k <= fields.len(),
            all == fields@.map_values(|f: Field| f@),
            last_varint(all, number) == last_varint(all.subrange(0, k as int), number),
        decreases k,
    {
        let ghost pre = all.subrange(0, k as int);
        assert(pre.drop_last() =~= all.subrange(0, k - 1));
        assert(pre.last() == fields@[k - 1]@);
        if fields[k - 1].number == number {
            if let WireValue::Varint(v) = &fields[k - 1].value {
                return Some(*v);
            }
        }
        k = k - 1;
    }
    None
}

/// The value of the last length-delimited field numbered `number`, if any.
pub fn get_bytes(fields: &Vec<Field>, number: u32) -> (r: Option<Vec<u8>>)
    ensures
        match (r, last_bytes(fields@.map_values(|f: Field| f@), number)) {
            (Some(b), Some(b2)) => b@ == b2,
            (None, None) => true,
            _ => false,
        },
{
    let ghost all = fields@.map_values(|f: Field| f@);
    let mut k: usize = fields.len();
    assert(all.subrange(0, k as int) =~= all);
    while k > 0
        invariant
            k <= fields.len(),
            all == fields@.map_values(|f: Field| f@),
            last_bytes(all, number) == last_bytes(all.subrange(0, k as int), number),
        decreases k,
    {
        let ghost pre = all.subrange(0, k as int);
        assert(pre.drop_last() =~= all.subrange(0, k - 1));
        assert(pre.last() == fields@[k - 1]@);
        if fields[k - 1].number == number {
            if let WireValue::Bytes(b) = &fields[k - 1].value {
                let mut out: Vec<u8> = Vec::new();
                let mut i: usize = 0;
                while i < b.len()
                    invariant
                        i <= b.len(),
                        out@ == b@.subrange(0, i as int),
                    decreases b.len() - i,
                {
                    out.push(b[i]);
                    assert(b@.subrange(0, i + 1) =~= b@.subrange(0, i as int).push(b@[i as int]));
                    i = i + 1;
                }
                assert(b@.subrange(0, b.len() as int) =~= b@);
                return Some(out);
            }
        }
        k = k - 1;
    }
    None
}

} // verus!
