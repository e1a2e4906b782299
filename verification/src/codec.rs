//! The bit codec and the length-prefixed frame protocol.
//!
//! A frame is a 4-byte big-endian length header followed by that many
//! payload bytes, embedded one bit per channel LSB along the traversal.
//! Several frames may be written back to back over one continuing
//! sequencer; extraction reads them back in the same order.

use vstd::prelude::*;

use crate::bits::assemble_upto;
use crate::bits::be_bytes;
use crate::bits::be_decode;
use crate::bits::byte_bit;
use crate::bits::embed_bits;
use crate::bits::embed_bits_upto;
use crate::bits::extract_byte;
use crate::bits::extract_bytes;
use crate::bits::lemma_assemble_is_extract;
use crate::bits::lemma_be_round_trip;
use crate::bits::lemma_embed_concat;
use crate::bits::lemma_extract_agree;
use crate::bits::lemma_stream_bit_split;
use crate::bits::set_lsb;
use crate::bits::stream_bit;
use crate::error::Error;
use crate::sequencer::lemma_offset_bounds;
use crate::sequencer::ImageIterator;
use crate::surface::Surface;

verus! {

/// The bytes of a frame: the big-endian length header followed by the
/// payload itself.
pub open spec fn frame_bytes(payload: Seq<u8>) -> Seq<u8>
    recommends
        payload.len() <= u32::MAX,
{
    be_bytes(payload.len() as u32) + payload
}

/// `data` after a frame carrying `payload` has been written starting at bit
/// position `off`.
pub open spec fn embed_frame(data: Seq<u8>, off: int, payload: Seq<u8>) -> Seq<u8> {
    embed_bits(data, off, frame_bytes(payload))
}

/// The length header read back from the frame starting at `off`.
pub open spec fn frame_len_at(data: Seq<u8>, off: int) -> u32 {
    be_decode(extract_bytes(data, off, 4))
}

/// One past the last bit position of the frame starting at `off`.
pub open spec fn frame_end(data: Seq<u8>, off: int) -> int {
    off + 32 + 8 * (frame_len_at(data, off) as int)
}

/// The frame starting at `off` lies wholly on the surface: its header fits
/// and the length the header announces fits too.
pub open spec fn frame_readable(data: Seq<u8>, off: int) -> bool {
    &&& 0 <= off
    &&& off + 32 <= data.len()
    &&& frame_end(data, off) <= data.len()
}

/// The payload carried by the frame starting at `off`.
pub open spec fn frame_payload_at(data: Seq<u8>, off: int) -> Seq<u8> {
    extract_bytes(data, off + 32, frame_len_at(data, off) as int)
}

/// Encodes `n` as 4 bytes, big-endian.
fn be_u32_encode(n: u32) -> (r: Vec<u8>)
    ensures
        r@ == be_bytes(n),
{
    proof {
        assert((n >> 24) < 256 && ((n >> 16) & 0xff) < 256 && ((n >> 8) & 0xff) < 256 && (n
            & 0xff) < 256) by (bit_vector);
        assert(((n >> 16) & 0xff) as u8 == (n >> 16) as u8 && ((n >> 8) & 0xff) as u8 == (n
            >> 8) as u8 && (n & 0xff) as u8 == n as u8) by (bit_vector);
    }
    let mut r: Vec<u8> = Vec::new();
    r.push((n >> 24) as u8);
    r.push(((n >> 16) & 0xff) as u8);
    r.push(((n >> 8) & 0xff) as u8);
    r.push((n & 0xff) as u8);
    proof {
        assert(r@ =~= be_bytes(n));
    }
    r
}

/// Decodes 4 bytes as a big-endian unsigned 32-bit integer.
fn be_u32_decode(bytes: &Vec<u8>) -> (r: u32)
    requires
        bytes@.len() == 4,
    ensures
        r == be_decode(bytes@),
{
    ((bytes[0] as u32) << 24) | ((bytes[1] as u32) << 16) | ((bytes[2] as u32) << 8) | (
    bytes[3] as u32)
}

/// Relies on rand::rng and rand::Rng::fill_bytes: fills the buffer with
/// random bytes and leaves its length unchanged. Nothing is assumed of the
/// bytes themselves.
#[verifier::external_body]
fn random_block() -> (r: Vec<u8>)
    ensures
        r@.len() == 128,
{
    let mut buf = vec![0u8; 128];
    let mut rng = rand::rng();
    rand::Rng::fill_bytes(&mut rng, &mut buf);
    buf
}

/// Writes every bit of `bytes_to_hide`, LSB-first within each byte, into
/// the channel LSBs along the traversal, one position per bit.
pub fn write_bytes(img_buf: &mut Surface, it: &mut ImageIterator, bytes_to_hide: &Vec<u8>)
    requires
        old(img_buf).wf(),
        old(it).wf(),
        old(it).max_x == old(img_buf).width,
        old(it).max_y == old(img_buf).height,
        old(it).offset() + 8 * bytes_to_hide@.len() <= old(it).total(),
    ensures
        final(img_buf).wf(),
        final(img_buf).width == old(img_buf).width,
        final(img_buf).height == old(img_buf).height,
        final(img_buf).data@ == embed_bits(
            old(img_buf).data@,
            old(it).offset(),
            bytes_to_hide@,
        ),
        final(it).wf(),
        final(it).max_x == old(it).max_x,
        final(it).max_y == old(it).max_y,
        final(it).offset() == old(it).offset() + 8 * bytes_to_hide@.len(),
{
    let ghost data0 = img_buf.data@;
    let ghost off0 = it.offset();
    proof {
        lemma_offset_bounds(*it);
        assert(img_buf.data@ =~= embed_bits_upto(data0, off0, bytes_to_hide@, 0));
    }
    let n = bytes_to_hide.len();
    let mut i: usize = 0;
    while i < n
        invariant
            img_buf.wf(),
            it.wf(),
            it.max_x == img_buf.width,
            it.max_y == img_buf.height,
            img_buf.width == old(img_buf).width,
            img_buf.height == old(img_buf).height,
            n == bytes_to_hide@.len(),
            i <= n,
            0 <= off0,
            data0.len() == img_buf.data@.len(),
            off0 + 8 * n <= it.total(),
            it.offset() == off0 + 8 * i,
            img_buf.data@ == embed_bits_upto(data0, off0, bytes_to_hide@, 8 * i),
        decreases n - i,
    {
        let byte = bytes_to_hide[i];
        let mut j: u8 = 0;
        while j < 8
            invariant
                img_buf.wf(),
                it.wf(),
                it.max_x == img_buf.width,
                it.max_y == img_buf.height,
                img_buf.width == old(img_buf).width,
                img_buf.height == old(img_buf).height,
                n == bytes_to_hide@.len(),
                i < n,
                j <= 8,
                byte == bytes_to_hide@[i as int],
                0 <= off0,
                data0.len() == img_buf.data@.len(),
                off0 + 8 * n <= it.total(),
                it.offset() == off0 + 8 * i + j,
                img_buf.data@ == embed_bits_upto(data0, off0, bytes_to_hide@, 8 * i + j),
            decreases 8 - j,
        {
            let bit = (byte >> j) & 1;
            proof {
                assert((byte >> j) & 1 <= 1) by (bit_vector);
            }
            let c = match it.next() {
                Ok(c) => c,
                Err(_) => vstd::pervasive::unreached(),
            };
            img_buf.write_bit(c.x, c.y, c.channel, bit);
            proof {
                let m = 8 * (i as int) + (j as int);
                let prev = embed_bits_upto(data0, off0, bytes_to_hide@, m);
                let idx = off0 + m;
                assert(prev[idx] == data0[idx]);
                lemma_stream_bit_split(bytes_to_hide@, i as int, j as int);
                assert(bit == byte_bit(bytes_to_hide@[i as int], j as int));
                assert(prev.update(idx, set_lsb(data0[idx], stream_bit(bytes_to_hide@, m)))
                    =~= embed_bits_upto(data0, off0, bytes_to_hide@, m + 1));
            }
            j = j + 1;
        }
        i = i + 1;
    }
    proof {
        assert(img_buf.data@ == embed_bits(data0, off0, bytes_to_hide@));
    }
}

/// Reads back one bit per traversal position and reassembles them
/// LSB-first into the bytes of `bytes`, overwriting its contents.
pub fn read_bytes(img_buf: &Surface, it: &mut ImageIterator, bytes: &mut Vec<u8>)
    requires
        img_buf.wf(),
        old(it).wf(),
        old(it).max_x == img_buf.width,
        old(it).max_y == img_buf.height,
        old(it).offset() + 8 * old(bytes)@.len() <= old(it).total(),
    ensures
        final(it).wf(),
        final(it).max_x == old(it).max_x,
        final(it).max_y == old(it).max_y,
        final(it).offset() == old(it).offset() + 8 * old(bytes)@.len(),
        final(bytes)@ == extract_bytes(
            img_buf.data@,
            old(it).offset(),
            old(bytes)@.len() as int,
        ),
{
    let ghost off0 = it.offset();
    proof {
        lemma_offset_bounds(*it);
    }
    let n = bytes.len();
    let mut i: usize = 0;
    while i < n
        invariant
            img_buf.wf(),
            it.wf(),
            it.max_x == img_buf.width,
            it.max_y == img_buf.height,
            bytes@.len() == n,
            i <= n,
            0 <= off0,
            off0 + 8 * n <= it.total(),
            it.offset() == off0 + 8 * i,
            forall|t: int| 0 <= t < i ==> bytes@[t] == extract_byte(img_buf.data@, off0 + 8 * t),
        decreases n - i,
    {
        let ghost base = off0 + 8 * (i as int);
        let mut b: u8 = 0;
        let mut j: u8 = 0;
        while j < 8
            invariant
                img_buf.wf(),
                it.wf(),
                it.max_x == img_buf.width,
                it.max_y == img_buf.height,
                i < n,
                j <= 8,
                0 <= off0,
                off0 + 8 * n <= it.total(),
                base == off0 + 8 * i,
                it.offset() == base + j,
                b == assemble_upto(img_buf.data@, base, j as int),
            decreases 8 - j,
        {
            let c = match it.next() {
                Ok(c) => c,
                Err(_) => vstd::pervasive::unreached(),
            };
            let bit = img_buf.read_bit(c.x, c.y, c.channel);
            let ghost b_before = b;
            if bit == 1 {
                b = b | (1u8 << j);
            }
            proof {
                if bit != 1 {
                    assert(b_before | (0u8 << j) == b_before) by (bit_vector);
                }
                assert(b == assemble_upto(img_buf.data@, base, j as int + 1));
            }
            j = j + 1;
        }
        proof {
            lemma_assemble_is_extract(img_buf.data@, base);
        }
        bytes[i] = b;
        i = i + 1;
    }
    proof {
        assert(bytes@ =~= extract_bytes(img_buf.data@, off0, n as int));
    }
}

/// Writes one frame: the 4-byte big-endian length of `payload`, then
/// `payload` itself, consuming `(4 + payload.len()) * 8` traversal
/// positions.
pub fn write_payload_with_header(payload: &Vec<u8>, img_buf: &mut Surface, it: &mut ImageIterator)
    requires
        old(img_buf).wf(),
        old(it).wf(),
        old(it).max_x == old(img_buf).width,
        old(it).max_y == old(img_buf).height,
        payload@.len() <= u32::MAX,
        old(it).offset() + 8 * (4 + payload@.len()) <= old(it).total(),
    ensures
        final(img_buf).wf(),
        final(img_buf).width == old(img_buf).width,
        final(img_buf).height == old(img_buf).height,
        final(img_buf).data@ == embed_frame(old(img_buf).data@, old(it).offset(), payload@),
        final(it).wf(),
        final(it).max_x == old(it).max_x,
        final(it).max_y == old(it).max_y,
        final(it).offset() == old(it).offset() + 8 * (4 + payload@.len()),
{
    let ghost data0 = img_buf.data@;
    let ghost off0 = it.offset();
    proof {
        lemma_offset_bounds(*it);
    }
    let len_u32 = payload.len() as u32;
    let size_bytes = be_u32_encode(len_u32);
    write_bytes(img_buf, it, &size_bytes);
    write_bytes(img_buf, it, payload);
    proof {
        lemma_embed_concat(data0, off0, be_bytes(len_u32), payload@);
        assert(be_bytes(len_u32) + payload@ == frame_bytes(payload@));
    }
}

/// Reads one frame: the 4-byte big-endian length header, a plausibility
/// check of that length against the remaining capacity, then the payload.
/// Fails with `ExhaustedSequence` when not even the header fits, and with
/// `HeaderDecodeImplausible` when the announced length runs past the end of
/// the surface.
pub fn get_next_payload(img_buf: &Surface, it: &mut ImageIterator) -> (r: Result<Vec<u8>, Error>)
    requires
        img_buf.wf(),
        old(it).wf(),
        old(it).max_x == img_buf.width,
        old(it).max_y == img_buf.height,
    ensures
        final(it).wf(),
        final(it).max_x == old(it).max_x,
        final(it).max_y == old(it).max_y,
        old(it).offset() + 32 > img_buf.data@.len() ==> (r matches Err(e) && e
            == Error::ExhaustedSequence && *final(it) == *old(it)),
        old(it).offset() + 32 <= img_buf.data@.len() && frame_end(img_buf.data@, old(it).offset())
            > img_buf.data@.len() ==> (r matches Err(e) && e == Error::HeaderDecodeImplausible
            && final(it).offset() == old(it).offset() + 32),
        old(it).offset() + 32 <= img_buf.data@.len() && frame_end(img_buf.data@, old(it).offset())
            <= img_buf.data@.len() ==> (r matches Ok(v) && v@ == frame_payload_at(
            img_buf.data@,
            old(it).offset(),
        ) && final(it).offset() == frame_end(img_buf.data@, old(it).offset())),
{
    let ghost off0 = it.offset();
    proof {
        lemma_offset_bounds(*it);
    }
    let total = img_buf.capacity_bits();
    let pos = it.position();
    if total - pos < 32 {
        return Err(Error::ExhaustedSequence);
    }
    let mut size_bytes: Vec<u8> = Vec::new();
    size_bytes.push(0);
    size_bytes.push(0);
    size_bytes.push(0);
    size_bytes.push(0);
    read_bytes(img_buf, it, &mut size_bytes);
    let size = be_u32_decode(&size_bytes);
    proof {
        assert(size == frame_len_at(img_buf.data@, off0));
    }
    let remaining = total - it.position();
    let size_us = size as usize;
    if size_us > remaining / 8 {
        proof {
            vstd::arithmetic::div_mod::lemma_fundamental_div_mod(remaining as int, 8);
            assert(8 * (size as int) > remaining as int);
        }
        return Err(Error::HeaderDecodeImplausible);
    }
    proof {
        vstd::arithmetic::div_mod::lemma_fundamental_div_mod(remaining as int, 8);
        assert(8 * (size as int) <= remaining as int);
    }
    let mut payload: Vec<u8> = Vec::new();
    while payload.len() < size_us
        invariant
            payload@.len() <= size_us,
        decreases size_us - payload@.len(),
    {
        payload.push(0);
    }
    read_bytes(img_buf, it, &mut payload);
    Ok(payload)
}

/// The surface carries a decoy frame at the start of the traversal and a
/// frame with `payload` right after it, over what `data0` held before.
pub open spec fn stegged(data0: Seq<u8>, data1: Seq<u8>, payload: Seq<u8>) -> bool {
    exists|decoy: Seq<u8>|
        decoy.len() == 128 && data1 == embed_frame(
            #[trigger] embed_frame(data0, 0, decoy),
            8int * (4 + 128),
            payload,
        )
}

/// Embeds a single frame carrying `payload` at the start of the traversal.
/// Succeeds exactly when the surface holds strictly more bits than the
/// frame needs; otherwise the surface is left untouched.
pub fn embed(payload: &Vec<u8>, img_buf: &mut Surface) -> (r: Result<(), Error>)
    requires
        old(img_buf).wf(),
        payload@.len() <= u32::MAX,
    ensures
        final(img_buf).wf(),
        final(img_buf).width == old(img_buf).width,
        final(img_buf).height == old(img_buf).height,
        8 * (4 + payload@.len()) < old(img_buf).data@.len() ==> (r is Ok
            && final(img_buf).data@ == embed_frame(old(img_buf).data@, 0, payload@)),
        8 * (4 + payload@.len()) >= old(img_buf).data@.len() ==> (r matches Err(e) && e
            == Error::InsufficientCapacity && *final(img_buf) == *old(img_buf)),
{
    let cap = img_buf.capacity_bits();
    let n = payload.len();
    let need: u64 = 8 * (4 + (n as u64));
    if need >= (cap as u64) {
        return Err(Error::InsufficientCapacity);
    }
    let mut it = ImageIterator::new(img_buf);
    write_payload_with_header(payload, img_buf, &mut it);
    Ok(())
}

/// Extracts the payload of the single frame at the start of the traversal.
pub fn extract(img_buf: &Surface) -> (r: Result<Vec<u8>, Error>)
    requires
        img_buf.wf(),
    ensures
        32 > img_buf.data@.len() ==> (r matches Err(e) && e == Error::ExhaustedSequence),
        32 <= img_buf.data@.len() && frame_end(img_buf.data@, 0) > img_buf.data@.len() ==> (
        r matches Err(e) && e == Error::HeaderDecodeImplausible),
        32 <= img_buf.data@.len() && frame_end(img_buf.data@, 0) <= img_buf.data@.len() ==> (
        r matches Ok(v) && v@ == frame_payload_at(img_buf.data@, 0)),
{
    let mut it = ImageIterator::new(img_buf);
    get_next_payload(img_buf, &mut it)
}

/// Embeds two frames over a fresh traversal: a decoy frame of 128 random
/// bytes, then the frame carrying `bytes_to_hide`. Succeeds exactly when
/// the surface holds strictly more bits than both frames need together;
/// otherwise the surface is left untouched.
pub fn steg(bytes_to_hide: &Vec<u8>, img_buf: &mut Surface) -> (r: Result<(), Error>)
    requires
        old(img_buf).wf(),
        bytes_to_hide@.len() <= u32::MAX,
    ensures
        final(img_buf).wf(),
        final(img_buf).width == old(img_buf).width,
        final(img_buf).height == old(img_buf).height,
        8 * (4 + 128) + 8 * (4 + bytes_to_hide@.len()) < old(img_buf).data@.len() ==> (r is Ok
            && stegged(old(img_buf).data@, final(img_buf).data@, bytes_to_hide@)),
        8 * (4 + 128) + 8 * (4 + bytes_to_hide@.len()) >= old(img_buf).data@.len() ==> (
        r matches Err(e) && e == Error::InsufficientCapacity
            && *final(img_buf) == *old(img_buf)),
{
    let cap = img_buf.capacity_bits();
    let n = bytes_to_hide.len();
    let need: u64 = 8 * (4 + 128) + 8 * (4 + (n as u64));
    if need >= (cap as u64) {
        return Err(Error::InsufficientCapacity);
    }
    let mut it = ImageIterator::new(img_buf);
    let random_bytes = random_block();
    write_payload_with_header(&random_bytes, img_buf, &mut it);
    write_payload_with_header(bytes_to_hide, img_buf, &mut it);
    proof {
        assert(img_buf.data@ == embed_frame(
            embed_frame(old(img_buf).data@, 0, random_bytes@),
            8int * (4 + 128),
            bytes_to_hide@,
        ));
    }
    Ok(())
}

/// Reads the decoy frame to skip it, then reads and returns the payload of
/// the frame after it: the extraction that mirrors `steg`.
pub fn unsteg_bytes(img_buf: &Surface) -> (r: Result<Vec<u8>, Error>)
    requires
        img_buf.wf(),
    ensures
        ({
            let d = img_buf.data@;
            &&& (32 > d.len() ==> (r matches Err(e) && e == Error::ExhaustedSequence))
            &&& (32 <= d.len() && frame_end(d, 0) > d.len() ==> (r matches Err(e) && e
                == Error::HeaderDecodeImplausible))
            &&& (32 <= d.len() && frame_end(d, 0) <= d.len() ==> {
                let off2 = frame_end(d, 0);
                &&& (off2 + 32 > d.len() ==> (r matches Err(e) && e == Error::ExhaustedSequence))
                &&& (off2 + 32 <= d.len() && frame_end(d, off2) > d.len() ==> (r matches Err(e)
                    && e == Error::HeaderDecodeImplausible))
                &&& (off2 + 32 <= d.len() && frame_end(d, off2) <= d.len() ==> (r matches Ok(v)
                    && v@ == frame_payload_at(d, off2)))
            })
        }),
{
    let mut it = ImageIterator::new(img_buf);
    match get_next_payload(img_buf, &mut it) {
        Err(e) => Err(e),
        Ok(_) => get_next_payload(img_buf, &mut it),
    }
}

/// Frame round trip: reading the frame written at `off` yields back exactly
/// the payload that was written, and ends exactly where the writer ended.
#[verifier::rlimit(60)]
pub proof fn lemma_frame_round_trip(data: Seq<u8>, off: int, payload: Seq<u8>)
    requires
        0 <= off,
        payload.len() <= u32::MAX,
        off + 8 * (4 + payload.len()) <= data.len(),
    ensures
        frame_len_at(embed_frame(data, off, payload), off) == payload.len(),
        frame_end(embed_frame(data, off, payload), off) == off + 8 * (4 + payload.len()),
        frame_readable(embed_frame(data, off, payload), off),
        frame_payload_at(embed_frame(data, off, payload), off) == payload,
{
    let fb = frame_bytes(payload);
    let d2 = embed_frame(data, off, payload);
    let n = payload.len() as u32;
    let l = fb.len() as int;
    assert(d2.len() == data.len());
    crate::bits::lemma_extract_embedded_bytes(data, off, fb);
    crate::bits::lemma_extract_bytes_window(d2, off, l, 0, 4);
    assert(fb.subrange(0, 4) =~= be_bytes(n));
    assert(extract_bytes(d2, off, 4) == be_bytes(n));
    lemma_be_round_trip(n);
    crate::bits::lemma_extract_bytes_window(d2, off, l, 4, l);
    assert(fb.subrange(4, l) =~= payload);
    assert(extract_bytes(d2, off + 32, payload.len() as int) == payload);
}

/// Round trip: on any surface with strictly more capacity than a frame
/// carrying `payload` needs, extracting after embedding yields `payload`
/// again.
pub proof fn lemma_embed_extract_round_trip(data: Seq<u8>, payload: Seq<u8>)
    requires
        payload.len() <= u32::MAX,
        8 * (4 + payload.len()) < data.len(),
    ensures
        frame_readable(embed_frame(data, 0, payload), 0),
        frame_payload_at(embed_frame(data, 0, payload), 0) == payload,
{
    lemma_frame_round_trip(data, 0, payload);
}

/// Round trip of the decoy layout: after `steg`'s two frames, the first
/// frame ends exactly where the payload frame begins, and reading the
/// second frame yields the hidden payload again.
pub proof fn lemma_steg_round_trip(data: Seq<u8>, decoy: Seq<u8>, payload: Seq<u8>)
    requires
        decoy.len() == 128,
        payload.len() <= u32::MAX,
        8 * (4 + 128) + 8 * (4 + payload.len()) <= data.len(),
    ensures
        ({
            let d2 = embed_frame(embed_frame(data, 0, decoy), 8int * (4 + 128), payload);
            &&& frame_readable(d2, 0)
            &&& frame_end(d2, 0) == 8 * (4 + 128)
            &&& frame_readable(d2, frame_end(d2, 0))
            &&& frame_payload_at(d2, frame_end(d2, 0)) == payload
        }),
{
    let d1 = embed_frame(data, 0, decoy);
    let off2: int = 8int * (4 + 128);
    let d2 = embed_frame(d1, off2, payload);
    lemma_frame_round_trip(data, 0, decoy);
    lemma_frame_round_trip(d1, off2, payload);
    assert(d2.len() == d1.len());
    assert(forall|k: int| 0 <= k < off2 ==> d2[k] == d1[k]);
    lemma_extract_agree(d2, d1, 0, 4);
    assert(frame_len_at(d2, 0) == 128);
    assert(frame_end(d2, 0) == off2);
}

} // verus!
