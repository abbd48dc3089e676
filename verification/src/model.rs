//! SHA-1 as mathematics: the message schedule, the 80-round block
//! compression, the padding rule, and the digest of a whole message.
//!
//! Everything here is specification; the executable engine in `engine`
//! is proved to compute `digest_of` exactly.

use vstd::prelude::*;

verus! {

/// Largest message length, in bytes, that the engine accepts: the total
/// bit count of the padded message must fit the 64-bit length field that
/// the padding rule appends.
pub const MAX_MESSAGE_BYTES: u64 = 0x1FFF_FFFF_FFFF_FF80;

/// Left rotation of a 32-bit word by `n` places.
pub open spec fn rotl(x: u32, n: u32) -> u32
    recommends
        0 < n < 32,
{
    (x << n) | (x >> ((32 - n) as u32))
}

/// Addition of two 32-bit words modulo 2^32.
pub open spec fn sum32(x: u32, y: u32) -> u32 {
    ((x + y) % 0x1_0000_0000) as u32
}

/// The 32-bit word read big-endian from bytes `4*i .. 4*i + 4` of a block.
pub open spec fn block_word(block: Seq<u8>, i: int) -> u32
    recommends
        0 <= i,
        4 * i + 4 <= block.len(),
{
    ((block[4 * i] as u32) << 24) | ((block[4 * i + 1] as u32) << 16) | ((block[4 * i + 2]
        as u32) << 8) | (block[4 * i + 3] as u32)
}

/// Word `i` of the 80-word schedule expanded from a 64-byte block: the
/// first 16 words are the block itself, and every later word is the
/// one-place left rotation of the exclusive or of four earlier words.
pub open spec fn schedule_word(block: Seq<u8>, i: int) -> u32
    recommends
        block.len() == 64,
        0 <= i < 80,
    decreases i,
{
    if i < 16 {
        block_word(block, i)
    } else {
        rotl(
            schedule_word(block, i - 3) ^ schedule_word(block, i - 8) ^ schedule_word(
                block,
                i - 14,
            ) ^ schedule_word(block, i - 16),
            1,
        )
    }
}

/// The non-linear mixing function of round `i`, applied to the middle
/// three working words.
pub open spec fn round_mix(i: int, b: u32, c: u32, d: u32) -> u32
    recommends
        0 <= i < 80,
{
    if i < 20 {
        (b & c) | (!b & d)
    } else if i < 40 {
        b ^ c ^ d
    } else if i < 60 {
        (b & c) | (b & d) | (c & d)
    } else {
        b ^ c ^ d
    }
}

/// The round constant of round `i`, one per 20-round phase.
pub open spec fn round_constant(i: int) -> u32
    recommends
        0 <= i < 80,
{
    if i < 20 {
        0x5A827999
    } else if i < 40 {
        0x6ED9EBA1
    } else if i < 60 {
        0x8F1BBCDC
    } else {
        0xCA62C1D6
    }
}

/// One compression round: mixes schedule word `i` into the five working
/// words and shifts them along.
pub open spec fn round_step(block: Seq<u8>, st: (u32, u32, u32, u32, u32), i: int) -> (
    u32,
    u32,
    u32,
    u32,
    u32,
)
    recommends
        block.len() == 64,
        0 <= i < 80,
{
    let (a, b, c, d, e) = st;
    let t = sum32(
        sum32(sum32(sum32(rotl(a, 5), round_mix(i, b, c, d)), e), round_constant(i)),
        schedule_word(block, i),
    );
    (t, a, rotl(b, 30), c, d)
}

/// The five working words after the first `n` rounds over one block.
pub open spec fn round_state(block: Seq<u8>, st: (u32, u32, u32, u32, u32), n: int) -> (
    u32,
    u32,
    u32,
    u32,
    u32,
)
    recommends
        block.len() == 64,
        0 <= n <= 80,
    decreases n,
{
    if n <= 0 {
        st
    } else {
        round_step(block, round_state(block, st, n - 1), n - 1)
    }
}

/// The block transform: runs the 80 rounds over a working copy of the
/// accumulator and adds the result back into it, word by word modulo 2^32.
pub open spec fn compress(h: Seq<u32>, block: Seq<u8>) -> Seq<u32>
    recommends
        h.len() == 5,
        block.len() == 64,
{
    let st = round_state(block, (h[0], h[1], h[2], h[3], h[4]), 80);
    seq![
        sum32(h[0], st.0),
        sum32(h[1], st.1),
        sum32(h[2], st.2),
        sum32(h[3], st.3),
        sum32(h[4], st.4),
    ]
}

/// The fixed initial value of the five-word accumulator.
pub open spec fn initial_state() -> Seq<u32> {
    seq![0x67452301u32, 0xEFCDAB89u32, 0x98BADCFEu32, 0x10325476u32, 0xC3D2E1F0u32]
}

/// The accumulator after compressing every 64-byte block of `blocks`,
/// starting from the initial value. `blocks` is a whole number of blocks.
pub open spec fn state_after(blocks: Seq<u8>) -> Seq<u32>
    recommends
        blocks.len() % 64 == 0,
    decreases blocks.len(),
{
    if blocks.len() < 64 {
        initial_state()
    } else {
        compress(
            state_after(blocks.take(blocks.len() - 64)),
            blocks.skip(blocks.len() - 64),
        )
    }
}

/// How many zero bytes the padding inserts between the 0x80 marker and
/// the length field, so that the padded message is a whole number of
/// blocks.
pub open spec fn pad_zero_count(len: nat) -> nat {
    ((119 - (len % 64)) % 64) as nat
}

/// The eight bytes of a 64-bit value, most significant first.
pub open spec fn length_bytes(bits: u64) -> Seq<u8> {
    seq![
        ((bits >> 56) & 0xFF) as u8,
        ((bits >> 48) & 0xFF) as u8,
        ((bits >> 40) & 0xFF) as u8,
        ((bits >> 32) & 0xFF) as u8,
        ((bits >> 24) & 0xFF) as u8,
        ((bits >> 16) & 0xFF) as u8,
        ((bits >> 8) & 0xFF) as u8,
        (bits & 0xFF) as u8,
    ]
}

/// The padding appended to a message of `len` bytes: a single 0x80 byte,
/// zero bytes up to 56 modulo 64, then the message's bit count big-endian.
pub open spec fn padding(len: nat) -> Seq<u8>
    recommends
        len <= MAX_MESSAGE_BYTES,
{
    seq![0x80u8] + Seq::new(pad_zero_count(len), |i: int| 0u8) + length_bytes((8 * len) as u64)
}

/// A message followed by its padding: a whole number of 64-byte blocks.
pub open spec fn padded(msg: Seq<u8>) -> Seq<u8>
    recommends
        msg.len() <= MAX_MESSAGE_BYTES,
{
    msg + padding(msg.len())
}

/// Byte `j` of a 32-bit word, most significant first.
pub open spec fn byte_of_word(w: u32, j: int) -> u8
    recommends
        0 <= j < 4,
{
    if j == 0 {
        ((w >> 24) & 0xFF) as u8
    } else if j == 1 {
        ((w >> 16) & 0xFF) as u8
    } else if j == 2 {
        ((w >> 8) & 0xFF) as u8
    } else {
        (w & 0xFF) as u8
    }
}

/// The SHA-1 digest of a message: the accumulator after compressing the
/// padded message, serialized as 20 big-endian bytes.
pub open spec fn digest_of(msg: Seq<u8>) -> Seq<u8>
    recommends
        msg.len() <= MAX_MESSAGE_BYTES,
{
    let h = state_after(padded(msg));
    Seq::new(20, |i: int| byte_of_word(h[i / 4], i % 4))
}

} // verus!
