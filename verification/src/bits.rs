//! The mathematical model of the bit protocol: how payload bytes map onto
//! channel LSBs, and how the 4-byte big-endian length header is encoded.
//!
//! A byte stream is laid out over consecutive bit positions LSB-first within
//! each byte: bit `j` of byte `i` occupies position `8*i + j`.

use vstd::prelude::*;

verus! {

/// Bit `j` of byte `b`, counting from the least significant bit.
pub open spec fn byte_bit(b: u8, j: int) -> u8
    recommends
        0 <= j < 8,
{
    (b >> (j as u8)) & 1
}

/// Bit `i` of a byte stream, LSB-first within each byte.
pub open spec fn stream_bit(bytes: Seq<u8>, i: int) -> u8
    recommends
        0 <= i < 8 * bytes.len(),
{
    byte_bit(bytes[i / 8], i % 8)
}

/// `v` with its least significant bit replaced by `b`.
pub open spec fn set_lsb(v: u8, b: u8) -> u8
    recommends
        b <= 1,
{
    (v & 0xfe) | b
}

/// `data` after the first `n` bits of `bytes` have been written into the
/// LSBs of the `n` channel values starting at position `off`.
pub open spec fn embed_bits_upto(data: Seq<u8>, off: int, bytes: Seq<u8>, n: int) -> Seq<u8> {
    Seq::new(
        data.len(),
        |k: int|
            if off <= k < off + n {
                set_lsb(data[k], stream_bit(bytes, k - off))
            } else {
                data[k]
            },
    )
}

/// `data` after every bit of `bytes` has been written starting at `off`.
pub open spec fn embed_bits(data: Seq<u8>, off: int, bytes: Seq<u8>) -> Seq<u8> {
    embed_bits_upto(data, off, bytes, 8 * bytes.len() as int)
}

/// The byte reassembled LSB-first from the LSBs of the eight channel values
/// starting at position `off`.
pub open spec fn extract_byte(data: Seq<u8>, off: int) -> u8
    recommends
        0 <= off,
        off + 8 <= data.len(),
{
    (data[off] & 1) | ((data[off + 1] & 1) << 1) | ((data[off + 2] & 1) << 2) | ((data[off + 3]
        & 1) << 3) | ((data[off + 4] & 1) << 4) | ((data[off + 5] & 1) << 5) | ((data[off + 6]
        & 1) << 6) | ((data[off + 7] & 1) << 7)
}

/// The first `j` bits of the byte being reassembled at `off`: the running
/// value held while an extraction loop is part-way through a byte.
pub open spec fn assemble_upto(data: Seq<u8>, off: int, j: int) -> u8
    decreases j,
{
    if j <= 0 {
        0
    } else {
        assemble_upto(data, off, j - 1) | ((data[off + j - 1] & 1) << ((j - 1) as u8))
    }
}

/// `n` bytes read back from the LSBs starting at position `off`.
pub open spec fn extract_bytes(data: Seq<u8>, off: int, n: int) -> Seq<u8> {
    Seq::new(n as nat, |i: int| extract_byte(data, off + 8 * i))
}

/// The 4-byte big-endian encoding of `n`.
pub open spec fn be_bytes(n: u32) -> Seq<u8> {
    seq![(n >> 24) as u8, (n >> 16) as u8, (n >> 8) as u8, n as u8]
}

/// The unsigned 32-bit integer read big-endian from 4 bytes.
pub open spec fn be_decode(b: Seq<u8>) -> u32
    recommends
        b.len() == 4,
{
    ((b[0] as u32) << 24) | ((b[1] as u32) << 16) | ((b[2] as u32) << 8) | (b[3] as u32)
}

/// Writing a bit touches only the LSB: the written channel keeps its upper
/// seven bits, and reads back exactly the bit written.
pub proof fn lemma_set_lsb(v: u8, b: u8)
    requires
        b <= 1,
    ensures
        set_lsb(v, b) & 1 == b,
        set_lsb(v, b) >> 1 == v >> 1,
{
    assert(((v & 0xfe) | b) & 1 == b && ((v & 0xfe) | b) >> 1 == v >> 1) by (bit_vector)
        requires
            b <= 1,
    ;
}

pub proof fn lemma_byte_bit_bound(b: u8, j: int)
    ensures
        byte_bit(b, j) <= 1,
{
    let ju = j as u8;
    assert((b >> ju) & 1 <= 1) by (bit_vector);
}

/// A byte equals the LSB-first reassembly of its own eight bits.
pub proof fn lemma_byte_reassemble(b: u8)
    ensures
        byte_bit(b, 0) | (byte_bit(b, 1) << 1) | (byte_bit(b, 2) << 2) | (byte_bit(b, 3) << 3) | (
        byte_bit(b, 4) << 4) | (byte_bit(b, 5) << 5) | (byte_bit(b, 6) << 6) | (byte_bit(b, 7)
            << 7) == b,
{
    assert(((b >> 0) & 1) | (((b >> 1) & 1) << 1) | (((b >> 2) & 1) << 2) | (((b >> 3) & 1) << 3)
        | (((b >> 4) & 1) << 4) | (((b >> 5) & 1) << 5) | (((b >> 6) & 1) << 6) | (((b >> 7) & 1)
        << 7) == b) by (bit_vector);
}

/// The running reassembly, run over all eight positions, is exactly
/// `extract_byte`.
pub proof fn lemma_assemble_is_extract(data: Seq<u8>, off: int)
    ensures
        assemble_upto(data, off, 8) == extract_byte(data, off),
{
    reveal_with_fuel(assemble_upto, 9);
    let x = data[off] & 1;
    assert(0u8 | (x << 0u8) == x) by (bit_vector);
    assert(assemble_upto(data, off, 1) == data[off] & 1);
}

/// Bit `8*i + j` of a stream is bit `j` of byte `i`: the protocol is
/// LSB-first within each byte.
pub proof fn lemma_stream_bit_split(bytes: Seq<u8>, i: int, j: int)
    requires
        0 <= i,
        0 <= j < 8,
    ensures
        stream_bit(bytes, 8 * i + j) == byte_bit(bytes[i], j),
{
    vstd::arithmetic::div_mod::lemma_fundamental_div_mod_converse(8 * i + j, 8, i, j);
}

/// Reading back the `i`-th byte of an embedded stream yields that byte.
pub proof fn lemma_extract_embedded_byte(data: Seq<u8>, off: int, bytes: Seq<u8>, i: int)
    requires
        0 <= off,
        0 <= i < bytes.len(),
        off + 8 * bytes.len() <= data.len(),
    ensures
        extract_byte(embed_bits(data, off, bytes), off + 8 * i) == bytes[i],
{
    let e = embed_bits(data, off, bytes);
    let base = off + 8 * i;
    assert forall|j: int| 0 <= j < 8 implies e[base + j] & 1 == byte_bit(bytes[i], j) by {
        lemma_stream_bit_split(bytes, i, j);
        lemma_byte_bit_bound(bytes[i], j);
        lemma_set_lsb(data[base + j], byte_bit(bytes[i], j));
    }
    lemma_byte_reassemble(bytes[i]);
    assert(e[base] & 1 == byte_bit(bytes[i], 0));
    assert(e[base + 1] & 1 == byte_bit(bytes[i], 1));
    assert(e[base + 2] & 1 == byte_bit(bytes[i], 2));
    assert(e[base + 3] & 1 == byte_bit(bytes[i], 3));
    assert(e[base + 4] & 1 == byte_bit(bytes[i], 4));
    assert(e[base + 5] & 1 == byte_bit(bytes[i], 5));
    assert(e[base + 6] & 1 == byte_bit(bytes[i], 6));
    assert(e[base + 7] & 1 == byte_bit(bytes[i], 7));
}

/// Reading back a whole embedded stream yields the stream: the round trip
/// of the raw bit protocol.
pub proof fn lemma_extract_embedded_bytes(data: Seq<u8>, off: int, bytes: Seq<u8>)
    requires
        0 <= off,
        off + 8 * bytes.len() <= data.len(),
    ensures
        extract_bytes(embed_bits(data, off, bytes), off, bytes.len() as int) == bytes,
{
    let e = embed_bits(data, off, bytes);
    let r = extract_bytes(e, off, bytes.len() as int);
    assert forall|i: int| 0 <= i < bytes.len() implies r[i] == bytes[i] by {
        lemma_extract_embedded_byte(data, off, bytes, i);
    }
    assert(r =~= bytes);
}

/// A window of an extraction is the extraction of the window: bytes `a` to
/// `b` of `n` extracted bytes are the `b - a` bytes extracted `8*a` bits
/// further in.
pub proof fn lemma_extract_bytes_window(data: Seq<u8>, off: int, n: int, a: int, b: int)
    requires
        0 <= a <= b <= n,
    ensures
        extract_bytes(data, off, n).subrange(a, b) == extract_bytes(data, off + 8 * a, b - a),
{
    let s1 = extract_bytes(data, off, n).subrange(a, b);
    let s2 = extract_bytes(data, off + 8 * a, b - a);
    assert forall|i: int| 0 <= i < b - a implies s1[i] == s2[i] by {
        assert(extract_bytes(data, off, n)[a + i] == extract_byte(data, off + 8 * (a + i)));
        assert(off + 8 * (a + i) == off + 8 * a + 8 * i);
    }
    assert(s1 =~= s2);
}

/// Extraction reads only the positions it covers: two buffers that agree on
/// the read window extract the same bytes.
pub proof fn lemma_extract_agree(d1: Seq<u8>, d2: Seq<u8>, off: int, n: int)
    requires
        0 <= off,
        0 <= n,
        off + 8 * n <= d1.len(),
        d1.len() == d2.len(),
        forall|k: int| off <= k < off + 8 * n ==> d1[k] == d2[k],
    ensures
        extract_bytes(d1, off, n) == extract_bytes(d2, off, n),
{
    assert forall|i: int| 0 <= i < n implies extract_bytes(d1, off, n)[i] == extract_bytes(
        d2,
        off,
        n,
    )[i] by {
        let base = off + 8 * i;
        assert(d1[base] == d2[base]);
        assert(d1[base + 1] == d2[base + 1]);
        assert(d1[base + 2] == d2[base + 2]);
        assert(d1[base + 3] == d2[base + 3]);
        assert(d1[base + 4] == d2[base + 4]);
        assert(d1[base + 5] == d2[base + 5]);
        assert(d1[base + 6] == d2[base + 6]);
        assert(d1[base + 7] == d2[base + 7]);
    }
    assert(extract_bytes(d1, off, n) =~= extract_bytes(d2, off, n));
}

/// Writing one stream and then another, starting where the first ended, is
/// the same as writing their concatenation in one go.
pub proof fn lemma_embed_concat(data: Seq<u8>, off: int, a: Seq<u8>, b: Seq<u8>)
    requires
        0 <= off,
    ensures
        embed_bits(embed_bits(data, off, a), off + 8 * a.len(), b) == embed_bits(
            data,
            off,
            a + b,
        ),
{
    let la = a.len() as int;
    let lb = b.len() as int;
    let e1 = embed_bits(data, off, a);
    let e2 = embed_bits(e1, off + 8 * la, b);
    let t = embed_bits(data, off, a + b);
    assert(e2.len() == t.len());
    assert forall|k: int| 0 <= k < data.len() implies e2[k] == t[k] by {
        if off <= k < off + 8 * la {
            let m = k - off;
            vstd::arithmetic::div_mod::lemma_fundamental_div_mod(m, 8);
            assert(0 <= m % 8 < 8);
            assert(m / 8 < la);
            assert((a + b)[m / 8] == a[m / 8]);
        } else if off + 8 * la <= k < off + 8 * (la + lb) {
            let m = k - off;
            let m2 = m - 8 * la;
            vstd::arithmetic::div_mod::lemma_fundamental_div_mod(m2, 8);
            vstd::arithmetic::div_mod::lemma_fundamental_div_mod_converse(
                m,
                8,
                la + m2 / 8,
                m2 % 8,
            );
            assert((a + b)[m / 8] == b[m2 / 8]);
            assert(stream_bit(a + b, m) == stream_bit(b, m2));
        }
    }
    assert(e2 =~= t);
}

/// Big-endian round trip: decoding the encoding of `n` gives back `n`.
pub proof fn lemma_be_round_trip(n: u32)
    ensures
        be_decode(be_bytes(n)) == n,
{
    assert(((((n >> 24) as u8) as u32) << 24) | ((((n >> 16) as u8) as u32) << 16) | ((((n
        >> 8) as u8) as u32) << 8) | (((n as u8) as u32)) == n) by (bit_vector);
}

} // verus!
