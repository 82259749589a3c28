use vstd::prelude::*;

verus! {

/// A stat-string group: one mask byte followed by up to seven data bytes.
pub const GROUP_DATA_LEN: usize = 7;

/// A data byte as it is written: even bytes are raised by one, so every written byte is odd.
pub open spec fn enc_byte(b: u8) -> u8 {
    if b % 2 == 0 {
        (b + 1) as u8
    } else {
        b
    }
}

/// A written byte as it is read back, given its group's mask and its place `j` in the group.
pub open spec fn dec_byte(mask: u8, j: int, b: u8) -> u8 {
    if mask & (1u8 << ((j + 1) as u8)) == 0 {
        if b == 0 {
            255
        } else {
            (b - 1) as u8
        }
    } else {
        b
    }
}

/// The mask of the first `n` bytes of a chunk: bit 0 always, bit `j + 1` when byte `j` is odd.
pub open spec fn chunk_mask(c: Seq<u8>, n: nat) -> u8
    decreases n,
{
    if n == 0 {
        1
    } else {
        let m = chunk_mask(c, (n - 1) as nat);
        if c[n - 1] % 2 == 1 {
            m | (1u8 << (n as u8))
        } else {
            m
        }
    }
}

/// The smaller of two naturals.
pub open spec fn min_nat(a: nat, b: nat) -> nat {
    if a < b {
        a
    } else {
        b
    }
}

/// The stat-string encoding of a byte sequence, seven data bytes per group.
pub open spec fn encode_spec(d: Seq<u8>) -> Seq<u8>
    decreases d.len(),
{
    if d.len() == 0 {
        seq![]
    } else {
        let n = min_nat(7, d.len());
        let c = d.subrange(0, n as int);
        seq![chunk_mask(c, n)] + c.map_values(|b: u8| enc_byte(b)) + encode_spec(
            d.subrange(n as int, d.len() as int),
        )
    }
}

/// The bytes of one encoded group as they are read back.
pub open spec fn decode_group(g: Seq<u8>) -> Seq<u8>
    recommends
        g.len() >= 1,
{
    Seq::new((g.len() - 1) as nat, |j: int| dec_byte(g[0], j, g[j + 1]))
}

/// Reads back a stat-string, eight bytes per group.
pub open spec fn decode_spec(e: Seq<u8>) -> Seq<u8>
    decreases e.len(),
{
    if e.len() == 0 {
        seq![]
    } else {
        let n = min_nat(8, e.len());
        decode_group(e.subrange(0, n as int)) + decode_spec(e.subrange(n as int, e.len() as int))
    }
}

/// Length of the encoding of `n` bytes: one mask byte for every seven data bytes.
pub open spec fn encoded_len_spec(n: nat) -> nat {
    n + (n + 6) / 7
}

proof fn lemma_bits_base(k: u8)
    requires
        1 <= k <= 7,
    ensures
        1u8 & (1u8 << k) == 0,
{
    assert(1u8 & (1u8 << k) == 0) by (bit_vector)
        requires
            1 <= k <= 7,
    ;
}

proof fn lemma_bits_step(m: u8, n: u8, k: u8)
    requires
        1 <= k <= 7,
        1 <= n <= 7,
    ensures
        ((m | (1u8 << n)) & (1u8 << k) != 0) <==> ((m & (1u8 << k) != 0) || n == k),
{
    assert(((m | (1u8 << n)) & (1u8 << k) != 0) <==> ((m & (1u8 << k) != 0) || n == k))
        by (bit_vector)
        requires
            1 <= k <= 7,
            1 <= n <= 7,
    ;
}

proof fn lemma_odd_or(m: u8, n: u8)
    requires
        m % 2 == 1,
        1 <= n <= 7,
    ensures
        (m | (1u8 << n)) % 2 == 1,
{
    assert((m | (1u8 << n)) % 2 == 1) by (bit_vector)
        requires
            m % 2 == 1,
            1 <= n <= 7,
    ;
}

/// Bit `k` of a chunk's mask is set exactly when byte `k - 1` is among the first `n` and odd.
proof fn lemma_chunk_mask_bits(c: Seq<u8>, n: nat, k: u8)
    requires
        n <= 7,
        n <= c.len(),
        1 <= k <= 7,
    ensures
        (chunk_mask(c, n) & (1u8 << k) != 0) <==> (k <= n && c[k - 1] % 2 == 1),
        chunk_mask(c, n) % 2 == 1,
    decreases n,
{
    if n == 0 {
        lemma_bits_base(k);
    } else {
        lemma_chunk_mask_bits(c, (n - 1) as nat, k);
        let m = chunk_mask(c, (n - 1) as nat);
        if c[n - 1] % 2 == 1 {
            lemma_bits_step(m, n as u8, k);
            lemma_odd_or(m, n as u8);
        }
    }
}

/// Decoding one encoded chunk gives the chunk back.
proof fn lemma_group_round_trip(c: Seq<u8>)
    requires
        1 <= c.len() <= 7,
    ensures
        decode_group(seq![chunk_mask(c, c.len())] + c.map_values(|b: u8| enc_byte(b))) =~= c,
{
    let g = seq![chunk_mask(c, c.len())] + c.map_values(|b: u8| enc_byte(b));
    assert forall|j: int| 0 <= j < c.len() implies dec_byte(g[0], j, g[j + 1]) == c[j] by {
        lemma_chunk_mask_bits(c, c.len(), (j + 1) as u8);
        assert(g[j + 1] == enc_byte(c[j]));
    }
}

/// Stat-string decoding undoes stat-string encoding, for every byte sequence.
pub proof fn lemma_stat_string_round_trip(d: Seq<u8>)
    ensures
        decode_spec(encode_spec(d)) == d,
    decreases d.len(),
{
    if d.len() > 0 {
        let n = min_nat(7, d.len());
        let c = d.subrange(0, n as int);
        let rest = d.subrange(n as int, d.len() as int);
        let g = seq![chunk_mask(c, n)] + c.map_values(|b: u8| enc_byte(b));
        let e = encode_spec(d);
        assert(e == g + encode_spec(rest));
        lemma_stat_string_round_trip(rest);
        lemma_group_round_trip(c);
        lemma_encode_len(rest);
        if n < 7 {
            assert(rest.len() == 0);
            assert(encode_spec(rest) =~= seq![]);
        }
        assert(min_nat(8, e.len()) == g.len());
        assert(e.subrange(0, g.len() as int) =~= g);
        assert(e.subrange(g.len() as int, e.len() as int) =~= encode_spec(rest));
        assert(decode_spec(e) == decode_group(g) + decode_spec(encode_spec(rest)));
        assert(d =~= c + rest);
    }
}

/// The encoding of `d` has `encoded_len_spec(d.len())` bytes.
pub proof fn lemma_encode_len(d: Seq<u8>)
    ensures
        encode_spec(d).len() == encoded_len_spec(d.len()),
    decreases d.len(),
{
    if d.len() > 0 {
        let n = min_nat(7, d.len());
        lemma_encode_len(d.subrange(n as int, d.len() as int));
    }
}

/// Every byte of an encoding is odd, so an encoding never holds a zero byte.
pub proof fn lemma_encode_odd(d: Seq<u8>)
    ensures
        forall|i: int| 0 <= i < encode_spec(d).len() ==> #[trigger] encode_spec(d)[i] % 2 == 1,
    decreases d.len(),
{
    if d.len() > 0 {
        let n = min_nat(7, d.len());
        let c = d.subrange(0, n as int);
        let rest = d.subrange(n as int, d.len() as int);
        lemma_encode_odd(rest);
        if n > 0 {
            lemma_chunk_mask_bits(c, n, 1);
        }
        let g = seq![chunk_mask(c, n)] + c.map_values(|b: u8| enc_byte(b));
        assert(encode_spec(d) == g + encode_spec(rest));
        assert forall|i: int| 0 <= i < encode_spec(d).len() implies #[trigger] encode_spec(d)[i]
            % 2 == 1 by {
            if i >= g.len() {
                assert(encode_spec(d)[i] == encode_spec(rest)[i - g.len()]);
            } else if i > 0 {
                assert(g[i] == enc_byte(c[i - 1]));
            }
        }
    }
}

/// Number of bytes that encoding `n` bytes produces.
pub fn encoded_len(n: usize) -> (r: usize)
    requires
        n <= usize::MAX / 2,
    ensures
        r == encoded_len_spec(n as nat),
{
    n + (n + 6) / 7
}

/// Encodes bytes as a stat-string: each group of up to seven bytes is preceded by a mask byte,
/// and every byte written is odd.
pub fn encode(data: &[u8]) -> (r: Vec<u8>)
    ensures
        r@ == encode_spec(data@),
{
    let len = data.len();
    let mut out: Vec<u8> = Vec::new();
    let mut i: usize = 0;
    assert(data@.subrange(0, len as int) =~= data@);
    assert(out@ + encode_spec(data@) =~= encode_spec(data@));
    while i < len
        invariant
            len == data.len(),
            i <= len,
            out@ + encode_spec(data@.subrange(i as int, len as int)) == encode_spec(data@),
        decreases len - i,
    {
        let n: usize = if len - i < GROUP_DATA_LEN {
            len - i
        } else {
            GROUP_DATA_LEN
        };
        let ghost tail = data@.subrange(i as int, len as int);
        let ghost c = tail.subrange(0, n as int);
        let mut mask: u8 = 1;
        let mut body: Vec<u8> = Vec::new();
        let mut j: usize = 0;
        while j < n
            invariant
                n <= 7,
                i + n <= len,
                len == data.len(),
                tail == data@.subrange(i as int, len as int),
                c == tail.subrange(0, n as int),
                j <= n,
                mask == chunk_mask(c, j as nat),
                body@ == c.subrange(0, j as int).map_values(|b: u8| enc_byte(b)),
            decreases n - j,
        {
            let b = data[i + j];
            assert(b == c[j as int]);
            if b % 2 == 0 {
                body.push(b + 1);
            } else {
                body.push(b);
                mask = mask | (1u8 << ((j + 1) as u8));
            }
            assert(c.subrange(0, j + 1).map_values(|b: u8| enc_byte(b)) =~= c.subrange(
                0,
                j as int,
            ).map_values(|b: u8| enc_byte(b)).push(enc_byte(b)));
            j = j + 1;
        }
        assert(c.subrange(0, n as int) =~= c);
        let ghost before = out@;
        out.push(mask);
        let mut k: usize = 0;
        while k < n
            invariant
                k <= n,
                n == body.len(),
                out@ == before + seq![mask] + body@.subrange(0, k as int),
            decreases n - k,
        {
            out.push(body[k]);
            assert(body@.subrange(0, k + 1) =~= body@.subrange(0, k as int).push(body@[k as int]));
            k = k + 1;
        }
        assert(body@.subrange(0, n as int) =~= body@);
        assert(n == min_nat(7, tail.len()));
        assert(tail.subrange(n as int, tail.len() as int) =~= data@.subrange(
            (i + n) as int,
            len as int,
        ));
        assert(out@ + encode_spec(data@.subrange((i + n) as int, len as int)) =~= before
            + encode_spec(tail));
        i = i + n;
    }
    assert(data@.subrange(len as int, len as int) =~= seq![]);
    assert(out@ =~= out@ + encode_spec(seq![]));
    out
}

/// Reads back a stat-string: in each group of eight bytes the first is the mask, and a data
/// byte whose mask bit is clear is lowered by one.
pub fn decode(enc: &[u8]) -> (r: Vec<u8>)
    ensures
        r@ == decode_spec(enc@),
{
    let len = enc.len();
    let mut out: Vec<u8> = Vec::new();
    let mut i: usize = 0;
    assert(enc@.subrange(0, len as int) =~= enc@);
    assert(out@ + decode_spec(enc@) =~= decode_spec(enc@));
    while i < len
        invariant
            len == enc.len(),
            i <= len,
            out@ + decode_spec(enc@.subrange(i as int, len as int)) == decode_spec(enc@),
        decreases len - i,
    {
        let n: usize = if len - i < 8 {
            len - i
        } else {
            8
        };
        let ghost tail = enc@.subrange(i as int, len as int);
        let ghost g = tail.subrange(0, n as int);
        let mask = enc[i];
        let ghost before = out@;
        let mut j: usize = 0;
        while j + 1 < n
            invariant
                1 <= n <= 8,
                i + n <= len,
                len == enc.len(),
                tail == enc@.subrange(i as int, len as int),
                g == tail.subrange(0, n as int),
                mask == g[0],
                j + 1 <= n,
                out@ == before + decode_group(g).subrange(0, j as int),
            decreases n - j,
        {
            let b = enc[i + j + 1];
            assert(b == g[j + 1]);
            let v: u8 = if mask & (1u8 << ((j + 1) as u8)) == 0 {
                if b == 0 {
                    255
                } else {
                    b - 1
                }
            } else {
                b
            };
            out.push(v);
            assert(decode_group(g).subrange(0, j + 1) =~= decode_group(g).subrange(
                0,
                j as int,
            ).push(dec_byte(mask, j as int, b)));
            j = j + 1;
        }
        assert(decode_group(g).subrange(0, j as int) =~= decode_group(g));
        assert(n == min_nat(8, tail.len()));
        assert(tail.subrange(n as int, tail.len() as int) =~= enc@.subrange(
            (i + n) as int,
            len as int,
        ));
        assert(out@ + decode_spec(enc@.subrange((i + n) as int, len as int)) =~= before
            + decode_spec(tail));
        i = i + n;
    }
    assert(enc@.subrange(len as int, len as int) =~= seq![]);
    assert(out@ =~= out@ + decode_spec(seq![]));
    out
}

} // verus!
