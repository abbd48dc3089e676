//! The incremental digest engine: a 64-byte block buffer, a block
//! counter, and the five-word accumulator, driven one byte at a time.

use vstd::arithmetic::div_mod::{
    lemma_fundamental_div_mod, lemma_mod_multiples_vanish, lemma_small_mod,
};
use vstd::prelude::*;

use crate::model::{
    block_word, compress, digest_of, initial_state, pad_zero_count, padded, padding, rotl,
    round_constant, round_mix, round_state, round_step, schedule_word, state_after, sum32,
    MAX_MESSAGE_BYTES,
};

verus! {

/// A SHA-1 computation in progress. The abstract value (the view) is the
/// sequence of all bytes absorbed so far; `finalize` returns the digest
/// of that sequence.
pub struct Sha1 {
    state: [u32; 5],
    buffer: [u8; 64],
    buffer_len: usize,
    block_count: u64,
    message: Ghost<Seq<u8>>,
}

impl View for Sha1 {
    type V = Seq<u8>;

    closed spec fn view(&self) -> Seq<u8> {
        self.message@
    }
}

impl Sha1 {
    /// Structural invariant: the cursor stays inside the block, the
    /// buffer holds exactly the bytes past the last whole block, and the
    /// accumulator is the compression of all whole blocks absorbed.
    spec fn inv(&self) -> bool {
        &&& self.buffer_len < 64
        &&& self.message@.len() == 64 * self.block_count + self.buffer_len
        &&& self.buffer@.subrange(0, self.buffer_len as int) == self.message@.skip(
            64 * self.block_count as int,
        )
        &&& self.state@ == state_after(self.message@.take(64 * self.block_count as int))
        &&& self.message@.len() <= 0x2000_0000_0000_0000
    }

    /// A well-formed engine: the invariant holds and the message still
    /// leaves room for the padding's 64-bit length field.
    pub closed spec fn wf(&self) -> bool {
        &&& self.inv()
        &&& self.message@.len() <= MAX_MESSAGE_BYTES
    }

    /// A fresh engine: nothing absorbed, accumulator at the fixed
    /// initial value.
    pub fn new() -> (s: Sha1)
        ensures
            s.wf(),
            s@ == Seq::<u8>::empty(),
    {
        let s = Sha1 {
            state: [0x67452301, 0xEFCDAB89, 0x98BADCFE, 0x10325476, 0xC3D2E1F0],
            buffer: [0; 64],
            buffer_len: 0,
            block_count: 0,
            message: Ghost(Seq::empty()),
        };
        proof {
            assert(s.message@.take(0) =~= Seq::<u8>::empty());
            assert(s.buffer@.subrange(0, 0) =~= s.message@.skip(0));
            assert(s.state@ =~= initial_state());
        }
        s
    }

    /// Feeds one byte into the block buffer; a full buffer is compressed
    /// into the accumulator and emptied.
    fn process_byte(&mut self, byte: u8)
        requires
            old(self).inv(),
            old(self)@.len() < 0x2000_0000_0000_0000,
        ensures
            final(self).inv(),
            final(self)@ == old(self)@.push(byte),
    {
        let ghost bc = self.block_count as int;
        self.buffer[self.buffer_len] = byte;
        self.buffer_len = self.buffer_len + 1;
        proof {
            self.message@ = self.message@.push(byte);
            let prior = old(self).buffer@;
            let cur = old(self).buffer_len as int;
            assert forall|t: int| 0 <= t < cur implies prior[t] == old(self).message@[64 * bc
                + t] by {
                assert(prior.subrange(0, cur)[t] == prior[t]);
                assert(old(self).message@.skip(64 * bc)[t] == old(self).message@[64 * bc + t]);
            }
            assert(self.buffer@.subrange(0, self.buffer_len as int) =~= self.message@.skip(
                64 * bc,
            ));
            assert(self.message@.take(64 * bc) =~= old(self).message@.take(64 * bc));
        }
        if self.buffer_len == 64 {
            let ghost whole = self.message@.take(64 * bc);
            let ghost block = self.buffer@;
            self.process_block();
            self.block_count = self.block_count + 1;
            let mut j: usize = 0;
            while j < 64
                invariant
                    self.buffer@.len() == 64,
                    self.state@ == compress(state_after(whole), block),
                    self.buffer_len == 64,
                    self.block_count == old(self).block_count + 1,
                    self.message@ == old(self).message@.push(byte),
                decreases 64 - j,
            {
                self.buffer[j] = 0;
                j = j + 1;
            }
            self.buffer_len = 0;
            proof {
                assert(block =~= self.message@.skip(64 * bc));
                assert(self.message@.take(64 * (bc + 1)) =~= whole + block);
                lemma_state_after_step(whole, block);
                assert(self.buffer@.subrange(0, 0) =~= self.message@.skip(64 * (bc + 1)));
            }
        }
    }

    /// Compresses the 64 bytes of the buffer into the accumulator; no
    /// other field changes.
    fn process_block(&mut self)
        ensures
            final(self).state@ == compress(old(self).state@, old(self).buffer@),
            final(self).buffer == old(self).buffer,
            final(self).buffer_len == old(self).buffer_len,
            final(self).block_count == old(self).block_count,
            final(self).message == old(self).message,
    {
        let ghost block = self.buffer@;
        let mut w: Vec<u32> = Vec::new();
        let mut i: usize = 0;
        while i < 16
            invariant
                i <= 16,
                w@.len() == i,
                block == self.buffer@,
                self.buffer@.len() == 64,
                forall|j: int| 0 <= j < i ==> w@[j] == schedule_word(block, j),
            decreases 16 - i,
        {
            let word = ((self.buffer[4 * i] as u32) << 24) | ((self.buffer[4 * i + 1]
                as u32) << 16) | ((self.buffer[4 * i + 2] as u32) << 8) | (self.buffer[4 * i + 3]
                as u32);
            assert(word == block_word(block, i as int));
            w.push(word);
            i = i + 1;
        }
        while i < 80
            invariant
                16 <= i <= 80,
                w@.len() == i,
                block == self.buffer@,
                forall|j: int| 0 <= j < i ==> w@[j] == schedule_word(block, j),
            decreases 80 - i,
        {
            let x = w[i - 3] ^ w[i - 8] ^ w[i - 14] ^ w[i - 16];
            proof {
                assert(schedule_word(block, i as int) == rotl(
                    schedule_word(block, i - 3) ^ schedule_word(block, i - 8) ^ schedule_word(
                        block,
                        i - 14,
                    ) ^ schedule_word(block, i - 16),
                    1,
                ));
            }
            w.push(rotl1(x));
            i = i + 1;
        }
        let ghost start = (self.state@[0], self.state@[1], self.state@[2], self.state@[3],
            self.state@[4]);
        let mut a = self.state[0];
        let mut b = self.state[1];
        let mut c = self.state[2];
        let mut d = self.state[3];
        let mut e = self.state[4];
        let mut i: usize = 0;
        while i < 80
            invariant
                i <= 80,
                w@.len() == 80,
                forall|j: int| 0 <= j < 80 ==> w@[j] == schedule_word(block, j),
                (a, b, c, d, e) == round_state(block, start, i as int),
            decreases 80 - i,
        {
            let f: u32 = if i < 20 {
                (b & c) | (!b & d)
            } else if i < 40 {
                b ^ c ^ d
            } else if i < 60 {
                (b & c) | (b & d) | (c & d)
            } else {
                b ^ c ^ d
            };
            let k: u32 = if i < 20 {
                0x5A827999
            } else if i < 40 {
                0x6ED9EBA1
            } else if i < 60 {
                0x8F1BBCDC
            } else {
                0xCA62C1D6
            };
            assert(f == round_mix(i as int, b, c, d));
            assert(k == round_constant(i as int));
            let t = add32(add32(add32(add32(rotl5(a), f), e), k), w[i]);
            proof {
                assert(round_state(block, start, i + 1) == round_step(
                    block,
                    round_state(block, start, i as int),
                    i as int,
                ));
            }
            e = d;
            d = c;
            c = rotl30(b);
            b = a;
            a = t;
            i = i + 1;
        }
        self.state[0] = add32(self.state[0], a);
        self.state[1] = add32(self.state[1], b);
        self.state[2] = add32(self.state[2], c);
        self.state[3] = add32(self.state[3], d);
        self.state[4] = add32(self.state[4], e);
        assert(self.state@ =~= compress(old(self).state@, block));
    }

    /// Absorbs a chunk of bytes; calling this once per chunk of a split
    /// message leaves the engine exactly as one call on the whole
    /// message would.
    pub fn absorb(&mut self, data: &[u8])
        requires
            old(self).wf(),
            old(self)@.len() + data@.len() <= MAX_MESSAGE_BYTES,
        ensures
            final(self).wf(),
            final(self)@ == old(self)@ + data@,
    {
        let mut i: usize = 0;
        while i < data.len()
            invariant
                i <= data@.len(),
                old(self)@.len() + data@.len() <= MAX_MESSAGE_BYTES,
                self.inv(),
                self.message@ == old(self).message@ + data@.take(i as int),
            decreases data@.len() - i,
        {
            self.process_byte(data[i]);
            proof {
                assert((old(self).message@ + data@.take(i as int)).push(data@[i as int]) =~= old(
                    self,
                ).message@ + data@.take(i + 1));
            }
            i = i + 1;
        }
        proof {
            assert(data@.take(data@.len() as int) =~= data@);
        }
    }

    /// Consumes the engine and returns the 20-byte digest of everything
    /// absorbed: the padding is fed through the same block path, then
    /// the accumulator is serialized big-endian.
    pub fn finalize(self) -> (digest: [u8; 20])
        requires
            self.wf(),
        ensures
            digest@ == digest_of(self@),
            digest@.len() == 20,
    {
        let mut eng = self;
        let ghost msg = eng.message@;
        proof {
            lemma_mod_multiples_vanish(eng.block_count as int, eng.buffer_len as int, 64);
            lemma_small_mod(eng.buffer_len as nat, 64);
            assert(msg.len() % 64 == eng.buffer_len as int);
        }
        let total_bits: u64 = eng.block_count * 512 + (eng.buffer_len as u64) * 8;
        assert(total_bits == 8 * msg.len());
        let zeros: usize = (119 - eng.buffer_len) % 64;
        assert(zeros == pad_zero_count(msg.len() as nat));
        let mut pad: Vec<u8> = Vec::new();
        pad.push(0x80);
        let mut j: usize = 0;
        while j < zeros
            invariant
                j <= zeros,
                pad@.len() == 1 + j,
                pad@[0] == 0x80u8,
                forall|t: int| 1 <= t < pad@.len() ==> pad@[t] == 0u8,
            decreases zeros - j,
        {
            pad.push(0);
            j = j + 1;
        }
        pad.push(((total_bits >> 56) & 0xFF) as u8);
        pad.push(((total_bits >> 48) & 0xFF) as u8);
        pad.push(((total_bits >> 40) & 0xFF) as u8);
        pad.push(((total_bits >> 32) & 0xFF) as u8);
        pad.push(((total_bits >> 24) & 0xFF) as u8);
        pad.push(((total_bits >> 16) & 0xFF) as u8);
        pad.push(((total_bits >> 8) & 0xFF) as u8);
        pad.push((total_bits & 0xFF) as u8);
        proof {
            assert(pad@ =~= padding(msg.len()));
        }
        let mut j: usize = 0;
        while j < pad.len()
            invariant
                j <= pad@.len(),
                pad@ == padding(msg.len()),
                pad@.len() <= 72,
                msg.len() <= MAX_MESSAGE_BYTES,
                eng.inv(),
                eng.message@ == msg + pad@.take(j as int),
            decreases pad@.len() - j,
        {
            eng.process_byte(pad[j]);
            proof {
                assert((msg + pad@.take(j as int)).push(pad@[j as int]) =~= msg + pad@.take(
                    j + 1,
                ));
            }
            j = j + 1;
        }
        proof {
            assert(pad@.take(pad@.len() as int) =~= pad@);
            assert(eng.message@ == padded(msg));
            lemma_padded_block_aligned(msg.len());
            lemma_fundamental_div_mod(eng.message@.len() as int, 64);
            assert(eng.buffer_len == 0);
            assert(eng.message@.take(64 * eng.block_count as int) =~= eng.message@);
            assert(eng.state@ == state_after(padded(msg)));
        }
        let mut digest = [0u8; 20];
        let w0 = eng.state[0];
        let w1 = eng.state[1];
        let w2 = eng.state[2];
        let w3 = eng.state[3];
        let w4 = eng.state[4];
        digest[0] = ((w0 >> 24) & 0xFF) as u8;
        digest[1] = ((w0 >> 16) & 0xFF) as u8;
        digest[2] = ((w0 >> 8) & 0xFF) as u8;
        digest[3] = (w0 & 0xFF) as u8;
        digest[4] = ((w1 >> 24) & 0xFF) as u8;
        digest[5] = ((w1 >> 16) & 0xFF) as u8;
        digest[6] = ((w1 >> 8) & 0xFF) as u8;
        digest[7] = (w1 & 0xFF) as u8;
        digest[8] = ((w2 >> 24) & 0xFF) as u8;
        digest[9] = ((w2 >> 16) & 0xFF) as u8;
        digest[10] = ((w2 >> 8) & 0xFF) as u8;
        digest[11] = (w2 & 0xFF) as u8;
        digest[12] = ((w3 >> 24) & 0xFF) as u8;
        digest[13] = ((w3 >> 16) & 0xFF) as u8;
        digest[14] = ((w3 >> 8) & 0xFF) as u8;
        digest[15] = (w3 & 0xFF) as u8;
        digest[16] = ((w4 >> 24) & 0xFF) as u8;
        digest[17] = ((w4 >> 16) & 0xFF) as u8;
        digest[18] = ((w4 >> 8) & 0xFF) as u8;
        digest[19] = (w4 & 0xFF) as u8;
        assert(digest@ =~= digest_of(msg));
        digest
    }
}

/// One-place left rotation, matching `rotl(x, 1)`.
fn rotl1(x: u32) -> (r: u32)
    ensures
        r == rotl(x, 1),
{
    (x << 1u32) | (x >> 31u32)
}

/// Five-place left rotation, matching `rotl(x, 5)`.
fn rotl5(x: u32) -> (r: u32)
    ensures
        r == rotl(x, 5),
{
    (x << 5u32) | (x >> 27u32)
}

/// Thirty-place left rotation, matching `rotl(x, 30)`.
fn rotl30(x: u32) -> (r: u32)
    ensures
        r == rotl(x, 30),
{
    (x << 30u32) | (x >> 2u32)
}

/// Wraparound addition, matching `sum32`.
fn add32(x: u32, y: u32) -> (r: u32)
    ensures
        r == sum32(x, y),
{
    proof {
        if x + y <= u32::MAX {
            lemma_small_mod((x + y) as nat, 0x1_0000_0000);
        } else {
            lemma_mod_multiples_vanish(1, x + y - 0x1_0000_0000, 0x1_0000_0000);
            lemma_small_mod((x + y - 0x1_0000_0000) as nat, 0x1_0000_0000);
        }
    }
    x.wrapping_add(y)
}

/// Appending one whole block compresses it into the accumulator of all
/// earlier blocks.
proof fn lemma_state_after_step(blocks: Seq<u8>, block: Seq<u8>)
    requires
        block.len() == 64,
    ensures
        state_after(blocks + block) == compress(state_after(blocks), block),
{
    let all = blocks + block;
    assert(all.take(all.len() - 64) =~= blocks);
    assert(all.skip(all.len() - 64) =~= block);
}

/// A padded message is a whole number of 64-byte blocks.
proof fn lemma_padded_block_aligned(len: nat)
    ensures
        (len + 1 + pad_zero_count(len) + 8) % 64 == 0,
{
    let r = len % 64;
    lemma_fundamental_div_mod(len as int, 64);
    assert(0 <= r < 64);
    if r <= 55 {
        lemma_mod_multiples_vanish(1, 55 - r, 64);
        lemma_small_mod((55 - r) as nat, 64);
        assert(pad_zero_count(len) == 55 - r);
        lemma_mod_multiples_vanish((len as int) / 64 + 1, 0, 64);
    } else {
        lemma_small_mod((119 - r) as nat, 64);
        assert(pad_zero_count(len) == 119 - r);
        lemma_mod_multiples_vanish((len as int) / 64 + 2, 0, 64);
    }
}

} // verus!
