//! XTEA widened to a 256-bit key: eight key words and 64 rounds on each
//! 64-bit half of a block.

use super::xtea::{
    block_of, decrypt_spec, encrypt_spec, halves_of, join_words, key_words, lemma_decrypt_encrypt,
    lemma_masks, lemma_round_sum, lemma_words_split, round_sum, rounds_backward, rounds_forward,
    split_words, wadd, wsub, words_of, DELTA,
};
use super::CipherInterface;
use vstd::prelude::*;

verus! {

/// XTEA256 with a 256-bit key and 64 rounds.
pub struct XTEA256 {
    pub key: [u32; 8],
}

impl XTEA256 {
    /// Sends one 64-bit half, given as two words, through the 64 rounds.
    pub fn encrypt_block_two_parts(&self, v0: u32, v1: u32) -> (out: (u32, u32))
        ensures
            out == rounds_forward(self.key@, 7, (v0, v1), 64),
    {
        let mut a = v0;
        let mut b = v1;
        let mut sum: u32 = 0;
        let mut i: u32 = 0;
        while i < 64
            invariant
                i <= 64,
                sum == round_sum(i as nat),
                (a, b) == rounds_forward(self.key@, 7, (v0, v1), i as nat),
            decreases 64 - i,
        {
            proof {
                lemma_masks(sum, 0);
                lemma_masks(wadd(sum, DELTA) >> 11u32, 0);
            }
            let temp = ((b << 4u32) ^ (b >> 5u32)).wrapping_add(b).wrapping_add(sum).wrapping_add(
                self.key[(sum & 7) as usize],
            );
            a = a.wrapping_add(temp);
            sum = sum.wrapping_add(DELTA);
            let temp = ((a << 4u32) ^ (a >> 5u32)).wrapping_add(a).wrapping_add(sum).wrapping_add(
                self.key[((sum >> 11u32) & 7) as usize],
            );
            b = b.wrapping_add(temp);
            i = i + 1;
        }
        (a, b)
    }

    /// Sends one 64-bit half, given as two words, through the 64 rounds backwards.
    pub fn decrypt_block_two_parts(&self, v0: u32, v1: u32) -> (out: (u32, u32))
        ensures
            out == rounds_backward(self.key@, 7, (v0, v1), 64, 64),
    {
        let mut a = v0;
        let mut b = v1;
        let mut sum: u32 = DELTA << 6u32;
        let mut i: u32 = 0;
        proof {
            lemma_masks(0, 0);
            lemma_round_sum(64);
        }
        while i < 64
            invariant
                i <= 64,
                sum == round_sum((64 - i) as nat),
                (a, b) == rounds_backward(self.key@, 7, (v0, v1), 64, i as nat),
            decreases 64 - i,
        {
            proof {
                lemma_masks(sum >> 11u32, 0);
                lemma_masks(wsub(sum, DELTA), 0);
                assert(round_sum((64 - i) as nat) == wadd(round_sum((64 - i - 1) as nat), DELTA));
            }
            let temp = ((a << 4u32) ^ (a >> 5u32)).wrapping_add(a).wrapping_add(sum).wrapping_add(
                self.key[((sum >> 11u32) & 7) as usize],
            );
            b = b.wrapping_sub(temp);
            sum = sum.wrapping_sub(DELTA);
            let temp = ((b << 4u32) ^ (b >> 5u32)).wrapping_add(b).wrapping_add(sum).wrapping_add(
                self.key[(sum & 7) as usize],
            );
            a = a.wrapping_sub(temp);
            i = i + 1;
        }
        (a, b)
    }

    /// The high and low words of a 64-bit value.
    pub fn u64_to_blocks(value: u64) -> (out: (u32, u32))
        ensures
            out == split_words(value),
    {
        proof {
            lemma_words_split(value);
        }
        ((value >> 32u32) as u32, (value & 0xFFFF_FFFF) as u32)
    }

    /// The 64-bit value with the given high and low words.
    pub fn blocks_to_u64(high: u32, low: u32) -> (out: u64)
        ensures
            out == join_words(high, low),
    {
        ((high as u64) << 32u32) | (low as u64)
    }
}

impl CipherInterface for XTEA256 {
    type Cipher = XTEA256;

    open spec fn spec_encrypt(&self, input: u128) -> u128 {
        encrypt_spec(self.key@, 7, 64, input)
    }

    open spec fn spec_decrypt(&self, input: u128) -> u128 {
        decrypt_spec(self.key@, 7, 64, input)
    }

    open spec fn key_length() -> nat {
        2
    }

    /// The cipher keyed with the words of `key[0]` followed by those of `key[1]`.
    fn new(key: &[u128]) -> (cipher: XTEA256)
        ensures
            cipher.key@ == key_words(key@[0]) + key_words(key@[1]),
    {
        let a = words_of(key[0]);
        let b = words_of(key[1]);
        let words = [a[0], a[1], a[2], a[3], b[0], b[1], b[2], b[3]];
        assert(words@ =~= key_words(key@[0]) + key_words(key@[1]));
        XTEA256 { key: words }
    }

    fn encrypt_block(&self, input: u128) -> (output: u128) {
        let (left, right) = halves_of(input);
        let (l_high, l_low) = Self::u64_to_blocks(left);
        let (r_high, r_low) = Self::u64_to_blocks(right);
        let (l0, l1) = self.encrypt_block_two_parts(l_high, l_low);
        let (r0, r1) = self.encrypt_block_two_parts(r_high, r_low);
        let left_enc = Self::blocks_to_u64(l0, l1);
        let right_enc = Self::blocks_to_u64(r0, r1);
        proof {
            lemma_decrypt_encrypt(self.key@, 7, 64, input);
        }
        block_of(left_enc, right_enc)
    }

    fn decrypt_block(&self, input: u128) -> (output: u128) {
        let (left, right) = halves_of(input);
        let (l_high, l_low) = Self::u64_to_blocks(left);
        let (r_high, r_low) = Self::u64_to_blocks(right);
        let (l0, l1) = self.decrypt_block_two_parts(l_high, l_low);
        let (r0, r1) = self.decrypt_block_two_parts(r_high, r_low);
        let left_dec = Self::blocks_to_u64(l0, l1);
        let right_dec = Self::blocks_to_u64(r0, r1);
        block_of(left_dec, right_dec)
    }

    open spec fn spec_name() -> Seq<char> {
        "XTEA-256"@
    }

    fn name(&self) -> (name: &'static str) {
        "XTEA-256"
    }

    fn level(&self) -> (bits: u16) {
        256
    }
}

} // verus!
