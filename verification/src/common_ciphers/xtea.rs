//! The XTEA variant used as a 128-bit permutation: each 64-bit half of a block
//! goes through the same 32 keyed rounds.

use super::CipherInterface;
use vstd::prelude::*;

verus! {

/// The round constant.
pub const DELTA: u32 = 0x9E3779B9;

/// Addition modulo 2^32.
pub open spec fn wadd(x: u32, y: u32) -> u32 {
    vstd::wrapping::u32_specs::wrapping_add(x, y)
}

/// Subtraction modulo 2^32.
pub open spec fn wsub(x: u32, y: u32) -> u32 {
    vstd::wrapping::u32_specs::wrapping_sub(x, y)
}

/// The running sum after `n` half-round pairs: `n * DELTA` modulo 2^32.
pub open spec fn round_sum(n: nat) -> u32
    decreases n,
{
    if n == 0 {
        0
    } else {
        wadd(round_sum((n - 1) as nat), DELTA)
    }
}

/// What one half-round adds to the other word.
pub open spec fn mix(v: u32, sum: u32, k: u32) -> u32 {
    wadd(wadd(wadd((v << 4u32) ^ (v >> 5u32), v), sum), k)
}

/// The key word that `selector` picks under `mask`.
pub open spec fn pick(key: Seq<u32>, selector: u32, mask: u32) -> u32 {
    key[(selector & mask) as int]
}

/// One full round forwards, where `sum` is the running sum before it.
pub open spec fn round_forward(key: Seq<u32>, mask: u32, sum: u32, v: (u32, u32)) -> (u32, u32) {
    let v0 = wadd(v.0, mix(v.1, sum, pick(key, sum, mask)));
    let next = wadd(sum, DELTA);
    let v1 = wadd(v.1, mix(v0, next, pick(key, next >> 11u32, mask)));
    (v0, v1)
}

/// One full round backwards, where `sum` is the running sum after the round it undoes.
pub open spec fn round_backward(key: Seq<u32>, mask: u32, sum: u32, v: (u32, u32)) -> (u32, u32) {
    let v1 = wsub(v.1, mix(v.0, sum, pick(key, sum >> 11u32, mask)));
    let before = wsub(sum, DELTA);
    let v0 = wsub(v.0, mix(v1, before, pick(key, before, mask)));
    (v0, v1)
}

/// The first `n` rounds of encryption applied to `v`.
pub open spec fn rounds_forward(key: Seq<u32>, mask: u32, v: (u32, u32), n: nat) -> (u32, u32)
    decreases n,
{
    if n == 0 {
        v
    } else {
        round_forward(
            key,
            mask,
            round_sum((n - 1) as nat),
            rounds_forward(key, mask, v, (n - 1) as nat),
        )
    }
}

/// The last `n` of `total` rounds undone on `v`, latest round first.
pub open spec fn rounds_backward(
    key: Seq<u32>,
    mask: u32,
    v: (u32, u32),
    total: nat,
    n: nat,
) -> (u32, u32)
    decreases n,
{
    if n == 0 {
        v
    } else {
        round_backward(
            key,
            mask,
            round_sum((total - (n - 1)) as nat),
            rounds_backward(key, mask, v, total, (n - 1) as nat),
        )
    }
}

/// The high and low 32-bit words of a 64-bit value.
pub open spec fn split_words(value: u64) -> (u32, u32) {
    ((value >> 32u32) as u32, (value & 0xFFFF_FFFF) as u32)
}

/// The 64-bit value with the given high and low words.
pub open spec fn join_words(high: u32, low: u32) -> u64 {
    ((high as u64) << 32u32) | (low as u64)
}

/// The upper and lower 64-bit halves of a block.
pub open spec fn split_block(block: u128) -> (u64, u64) {
    ((block >> 64u32) as u64, (block & 0xFFFF_FFFF_FFFF_FFFF) as u64)
}

/// The block with the given upper and lower halves.
pub open spec fn join_block(left: u64, right: u64) -> u128 {
    ((left as u128) << 64u32) | (right as u128)
}

/// A block with both halves sent through `total` rounds forwards.
pub open spec fn encrypt_spec(key: Seq<u32>, mask: u32, total: nat, block: u128) -> u128 {
    let halves = split_block(block);
    let l = rounds_forward(key, mask, split_words(halves.0), total);
    let r = rounds_forward(key, mask, split_words(halves.1), total);
    join_block(join_words(l.0, l.1), join_words(r.0, r.1))
}

/// A block with both halves sent through `total` rounds backwards.
pub open spec fn decrypt_spec(key: Seq<u32>, mask: u32, total: nat, block: u128) -> u128 {
    let halves = split_block(block);
    let l = rounds_backward(key, mask, split_words(halves.0), total, total);
    let r = rounds_backward(key, mask, split_words(halves.1), total, total);
    join_block(join_words(l.0, l.1), join_words(r.0, r.1))
}

/// The four 32-bit words of a 128-bit key word, highest first.
pub open spec fn key_words(k: u128) -> Seq<u32> {
    seq![
        (k >> 96u32) as u32,
        ((k >> 64u32) & 0xFFFF_FFFF) as u32,
        ((k >> 32u32) & 0xFFFF_FFFF) as u32,
        (k & 0xFFFF_FFFF) as u32,
    ]
}

pub proof fn lemma_round_undone(key: Seq<u32>, mask: u32, sum: u32, v: (u32, u32))
    ensures
        round_backward(key, mask, wadd(sum, DELTA), round_forward(key, mask, sum, v)) == v,
{
}

/// Undoing the last `n` of `total` rounds leaves the first `total - n`.
pub proof fn lemma_rounds_undone(key: Seq<u32>, mask: u32, v: (u32, u32), total: nat, n: nat)
    requires
        n <= total,
    ensures
        rounds_backward(key, mask, rounds_forward(key, mask, v, total), total, n)
            == rounds_forward(key, mask, v, (total - n) as nat),
    decreases n,
{
    if n > 0 {
        lemma_rounds_undone(key, mask, v, total, (n - 1) as nat);
        let m = (total - n) as nat;
        lemma_round_undone(key, mask, round_sum(m), rounds_forward(key, mask, v, m));
        assert(round_sum(m + 1) == wadd(round_sum(m), DELTA));
        assert(rounds_forward(key, mask, v, m + 1) == round_forward(
            key,
            mask,
            round_sum(m),
            rounds_forward(key, mask, v, m),
        ));
    }
}

pub proof fn lemma_words_rejoin(high: u32, low: u32)
    by (bit_vector)
    ensures
        (join_words(high, low) >> 32u32) as u32 == high,
        (join_words(high, low) & 0xFFFF_FFFF) as u32 == low,
{
}

pub proof fn lemma_block_rejoin(left: u64, right: u64)
    by (bit_vector)
    ensures
        (join_block(left, right) >> 64u32) as u64 == left,
        (join_block(left, right) & 0xFFFF_FFFF_FFFF_FFFF) as u64 == right,
{
}

pub proof fn lemma_block_split(block: u128)
    by (bit_vector)
    ensures
        join_block((block >> 64u32) as u64, (block & 0xFFFF_FFFF_FFFF_FFFF) as u64) == block,
        (block >> 64u32) <= 0xFFFF_FFFF_FFFF_FFFF,
        (block & 0xFFFF_FFFF_FFFF_FFFF) <= 0xFFFF_FFFF_FFFF_FFFF,
{
}

pub proof fn lemma_words_split(value: u64)
    by (bit_vector)
    ensures
        join_words((value >> 32u32) as u32, (value & 0xFFFF_FFFF) as u32) == value,
        (value >> 32u32) <= 0xFFFF_FFFF,
        (value & 0xFFFF_FFFF) <= 0xFFFF_FFFF,
{
}

/// Decryption undoes encryption, whatever the key table and the round count.
pub proof fn lemma_decrypt_encrypt(key: Seq<u32>, mask: u32, total: nat, block: u128)
    ensures
        decrypt_spec(key, mask, total, encrypt_spec(key, mask, total, block)) == block,
{
    let halves = split_block(block);
    let lw = split_words(halves.0);
    let rw = split_words(halves.1);
    let l = rounds_forward(key, mask, lw, total);
    let r = rounds_forward(key, mask, rw, total);
    lemma_block_rejoin(join_words(l.0, l.1), join_words(r.0, r.1));
    lemma_words_rejoin(l.0, l.1);
    lemma_words_rejoin(r.0, r.1);
    lemma_rounds_undone(key, mask, lw, total, total);
    lemma_rounds_undone(key, mask, rw, total, total);
    lemma_words_split(halves.0);
    lemma_words_split(halves.1);
    lemma_block_split(block);
}

pub proof fn lemma_masks(selector: u32, value: u128)
    by (bit_vector)
    ensures
        selector & 3 < 4,
        selector & 7 < 8,
        (value >> 96u32) <= 0xFFFF_FFFF,
        (value >> 64u32) & 0xFFFF_FFFF <= 0xFFFF_FFFF,
        (value >> 32u32) & 0xFFFF_FFFF <= 0xFFFF_FFFF,
        value & 0xFFFF_FFFF <= 0xFFFF_FFFF,
        DELTA << 5u32 == 0xC6EF_3720u32,
        DELTA << 6u32 == 0x8DDE_6E40u32,
{
}

/// The running sum in closed form.
pub proof fn lemma_round_sum(n: nat)
    ensures
        round_sum(n) == (n * DELTA) % 0x1_0000_0000,
    decreases n,
{
    if n > 0 {
        lemma_round_sum((n - 1) as nat);
        let x: int = (n - 1) * DELTA;
        let y: int = n * DELTA;
        assert(y == x + 0x9E3779B9) by (nonlinear_arith)
            requires
                x == (n - 1) * 0x9E3779B9,
                y == n * 0x9E3779B9,
        ;
        vstd::arithmetic::div_mod::lemma_add_mod_noop(x, 0x9E3779B9, 0x1_0000_0000);
    }
}

/// The four 32-bit words of a 128-bit key word, highest first, as an array.
pub fn words_of(k: u128) -> (words: [u32; 4])
    ensures
        words@ == key_words(k),
{
    proof {
        lemma_masks(0, k);
    }
    let words = [
        (k >> 96u32) as u32,
        ((k >> 64u32) & 0xFFFF_FFFF) as u32,
        ((k >> 32u32) & 0xFFFF_FFFF) as u32,
        (k & 0xFFFF_FFFF) as u32,
    ];
    assert(words@ =~= key_words(k));
    words
}

/// XTEA with a 128-bit key and 32 rounds.
pub struct XTEA {
    pub key: [u32; 4],
}

impl XTEA {
    /// Sends one 64-bit half, given as two words, through the 32 rounds.
    pub fn encrypt_block_tow_parts(&self, v0: u32, v1: u32) -> (out: (u32, u32))
        ensures
            out == rounds_forward(self.key@, 3, (v0, v1), 32),
    {
        let mut a = v0;
        let mut b = v1;
        let mut sum: u32 = 0;
        let mut i: u32 = 0;
        while i < 32
            invariant
                i <= 32,
                sum == round_sum(i as nat),
                (a, b) == rounds_forward(self.key@, 3, (v0, v1), i as nat),
            decreases 32 - i,
        {
            proof {
                lemma_masks(sum, 0);
                lemma_masks(wadd(sum, DELTA) >> 11u32, 0);
            }
            let temp = ((b << 4u32) ^ (b >> 5u32)).wrapping_add(b).wrapping_add(sum).wrapping_add(
                self.key[(sum & 3) as usize],
            );
            a = a.wrapping_add(temp);
            sum = sum.wrapping_add(DELTA);
            let temp = ((a << 4u32) ^ (a >> 5u32)).wrapping_add(a).wrapping_add(sum).wrapping_add(
                self.key[((sum >> 11u32) & 3) as usize],
            );
            b = b.wrapping_add(temp);
            i = i + 1;
        }
        (a, b)
    }

    /// Sends one 64-bit half, given as two words, through the 32 rounds backwards.
    pub fn decrypt_block_tow_parts(&self, v0: u32, v1: u32) -> (out: (u32, u32))
        ensures
            out == rounds_backward(self.key@, 3, (v0, v1), 32, 32),
    {
        let mut a = v0;
        let mut b = v1;
        let mut sum: u32 = DELTA << 5u32;
        let mut i: u32 = 0;
        proof {
            lemma_masks(0, 0);
            lemma_round_sum(32);
        }
        while i < 32
            invariant
                i <= 32,
                sum == round_sum((32 - i) as nat),
                (a, b) == rounds_backward(self.key@, 3, (v0, v1), 32, i as nat),
            decreases 32 - i,
        {
            proof {
                lemma_masks(sum >> 11u32, 0);
                lemma_masks(wsub(sum, DELTA), 0);
                assert(round_sum((32 - i) as nat) == wadd(round_sum((32 - i - 1) as nat), DELTA));
            }
            let temp = ((a << 4u32) ^ (a >> 5u32)).wrapping_add(a).wrapping_add(sum).wrapping_add(
                self.key[((sum >> 11u32) & 3) as usize],
            );
            b = b.wrapping_sub(temp);
            sum = sum.wrapping_sub(DELTA);
            let temp = ((b << 4u32) ^ (b >> 5u32)).wrapping_add(b).wrapping_add(sum).wrapping_add(
                self.key[(sum & 3) as usize],
            );
            a = a.wrapping_sub(temp);
            i = i + 1;
        }
        (a, b)
    }

    /// The high and low words of a 64-bit value.
    pub fn u64_to_blocks(value: u64) -> (out: (u32, u32))
        ensures
            out == split_words(value),
    {
        proof {
            lemma_words_split(value);
        }
        ((value >> 32u32) as u32, (value & 0xFFFF_FFFF) as u32)
    }

    /// The 64-bit value with the given high and low words.
    pub fn blocks_to_u64(high: u32, low: u32) -> (out: u64)
        ensures
            out == join_words(high, low),
    {
        ((high as u64) << 32u32) | (low as u64)
    }
}

/// The upper and lower halves of a block.
pub fn halves_of(block: u128) -> (out: (u64, u64))
    ensures
        out == split_block(block),
{
    proof {
        lemma_block_split(block);
    }
    ((block >> 64u32) as u64, (block & 0xFFFF_FFFF_FFFF_FFFF) as u64)
}

/// The block with the given upper and lower halves.
pub fn block_of(left: u64, right: u64) -> (out: u128)
    ensures
        out == join_block(left, right),
{
    ((left as u128) << 64u32) | (right as u128)
}

impl CipherInterface for XTEA {
    type Cipher = XTEA;

    open spec fn spec_encrypt(&self, input: u128) -> u128 {
        encrypt_spec(self.key@, 3, 32, input)
    }

    open spec fn spec_decrypt(&self, input: u128) -> u128 {
        decrypt_spec(self.key@, 3, 32, input)
    }

    open spec fn key_length() -> nat {
        1
    }

    /// The cipher keyed with the four words of `key[0]`.
    fn new(key: &[u128]) -> (cipher: XTEA)
        ensures
            cipher.key@ == key_words(key@[0]),
    {
        XTEA { key: words_of(key[0]) }
    }

    fn encrypt_block(&self, input: u128) -> (output: u128) {
        let (left, right) = halves_of(input);
        let (l_high, l_low) = Self::u64_to_blocks(left);
        let (r_high, r_low) = Self::u64_to_blocks(right);
        let (l0, l1) = self.encrypt_block_tow_parts(l_high, l_low);
        let (r0, r1) = self.encrypt_block_tow_parts(r_high, r_low);
        let left_enc = Self::blocks_to_u64(l0, l1);
        let right_enc = Self::blocks_to_u64(r0, r1);
        proof {
            lemma_decrypt_encrypt(self.key@, 3, 32, input);
        }
        block_of(left_enc, right_enc)
    }

    fn decrypt_block(&self, input: u128) -> (output: u128) {
        let (left, right) = halves_of(input);
        let (l_high, l_low) = Self::u64_to_blocks(left);
        let (r_high, r_low) = Self::u64_to_blocks(right);
        let (l0, l1) = self.decrypt_block_tow_parts(l_high, l_low);
        let (r0, r1) = self.decrypt_block_tow_parts(r_high, r_low);
        let left_dec = Self::blocks_to_u64(l0, l1);
        let right_dec = Self::blocks_to_u64(r0, r1);
        block_of(left_dec, right_dec)
    }

    open spec fn spec_name() -> Seq<char> {
        "XTEA"@
    }

    fn name(&self) -> (name: &'static str) {
        "XTEA"
    }

    fn level(&self) -> (bits: u16) {
        128
    }
}

} // verus!
