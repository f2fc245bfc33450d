//! Speck with 128-bit blocks and a 128-bit key: 32 rounds of rotate, add and
//! exclusive or on the two halves of a block, with round keys that the same
//! round function draws from the key.

use super::xtea::{
    block_of, halves_of, join_block, lemma_block_rejoin, lemma_block_split, split_block,
};
use super::CipherInterface;
use vstd::prelude::*;

verus! {

/// The number of rounds.
pub const ROUNDS: usize = 32;

/// `x` rotated right by `n` bits, for `n` between 1 and 63.
pub open spec fn ror64(x: u64, n: u32) -> u64 {
    (x >> n) | (x << ((64 - n) as u32))
}

/// `x` rotated left by `n` bits, for `n` between 1 and 63.
pub open spec fn rol64(x: u64, n: u32) -> u64 {
    (x << n) | (x >> ((64 - n) as u32))
}

/// Addition modulo 2^64.
pub open spec fn wadd64(x: u64, y: u64) -> u64 {
    vstd::wrapping::u64_specs::wrapping_add(x, y)
}

/// Subtraction modulo 2^64.
pub open spec fn wsub64(x: u64, y: u64) -> u64 {
    vstd::wrapping::u64_specs::wrapping_sub(x, y)
}

/// One round under the round key `k`.
pub open spec fn round(v: (u64, u64), k: u64) -> (u64, u64) {
    let x = wadd64(ror64(v.0, 8), v.1) ^ k;
    (x, rol64(v.1, 3) ^ x)
}

/// One round undone under the round key `k`.
pub open spec fn round_back(v: (u64, u64), k: u64) -> (u64, u64) {
    let y = ror64(v.1 ^ v.0, 3);
    (rol64(wsub64(v.0 ^ k, y), 8), y)
}

/// The two key words after `i` steps of the key schedule.
pub open spec fn key_state(key: u128, i: nat) -> (u64, u64)
    decreases i,
{
    if i == 0 {
        split_block(key)
    } else {
        round(key_state(key, (i - 1) as nat), (i - 1) as u64)
    }
}

/// The 32 round keys of `key`.
pub open spec fn schedule_of(key: u128) -> Seq<u64> {
    Seq::new(ROUNDS as nat, |i: int| key_state(key, i as nat).1)
}

/// The first `n` rounds applied to `v`.
pub open spec fn rounds(schedule: Seq<u64>, v: (u64, u64), n: nat) -> (u64, u64)
    decreases n,
{
    if n == 0 {
        v
    } else {
        round(rounds(schedule, v, (n - 1) as nat), schedule[n - 1])
    }
}

/// The last `n` of the 32 rounds undone on `v`, latest round first.
pub open spec fn rounds_back(schedule: Seq<u64>, v: (u64, u64), n: nat) -> (u64, u64)
    decreases n,
{
    if n == 0 {
        v
    } else {
        round_back(rounds_back(schedule, v, (n - 1) as nat), schedule[ROUNDS - n])
    }
}

/// The block after all rounds.
pub open spec fn speck_encrypted(schedule: Seq<u64>, block: u128) -> u128 {
    let v = rounds(schedule, split_block(block), ROUNDS as nat);
    join_block(v.0, v.1)
}

/// The block after all rounds undone.
pub open spec fn speck_decrypted(schedule: Seq<u64>, block: u128) -> u128 {
    let v = rounds_back(schedule, split_block(block), ROUNDS as nat);
    join_block(v.0, v.1)
}

proof fn lemma_rotations(x: u64, y: u64, a: u64, k: u64)
    by (bit_vector)
    ensures
        rol64(ror64(x, 8), 8) == x,
        ror64((rol64(y, 3) ^ a) ^ a, 3) == y,
        (a ^ k) ^ k == a,
{
}

/// A round undone gives back what went into it.
pub proof fn lemma_round_undone(v: (u64, u64), k: u64)
    ensures
        round_back(round(v, k), k) == v,
{
    let sum = wadd64(ror64(v.0, 8), v.1);
    lemma_rotations(v.0, v.1, sum ^ k, k);
    lemma_rotations(v.0, v.1, sum, k);
}

/// Undoing the last `n` rounds leaves the first `32 - n`.
pub proof fn lemma_rounds_undone(schedule: Seq<u64>, v: (u64, u64), n: nat)
    requires
        n <= ROUNDS,
    ensures
        rounds_back(schedule, rounds(schedule, v, ROUNDS as nat), n) == rounds(
            schedule,
            v,
            (ROUNDS - n) as nat,
        ),
    decreases n,
{
    if n > 0 {
        lemma_rounds_undone(schedule, v, (n - 1) as nat);
        let m = (ROUNDS - n) as nat;
        lemma_round_undone(rounds(schedule, v, m), schedule[m as int]);
        assert(rounds(schedule, v, m + 1) == round(rounds(schedule, v, m), schedule[m as int]));
    }
}

/// Decryption undoes encryption under every schedule.
pub proof fn lemma_decrypt_encrypt(schedule: Seq<u64>, block: u128)
    ensures
        speck_decrypted(schedule, speck_encrypted(schedule, block)) == block,
{
    let v = rounds(schedule, split_block(block), ROUNDS as nat);
    lemma_block_rejoin(v.0, v.1);
    lemma_rounds_undone(schedule, split_block(block), ROUNDS as nat);
    lemma_block_split(block);
}

/// One round under the round key `k`.
fn round_exec(x: u64, y: u64, k: u64) -> (out: (u64, u64))
    ensures
        out == round((x, y), k),
{
    let x1 = ((x >> 8u32) | (x << 56u32)).wrapping_add(y) ^ k;
    let y1 = ((y << 3u32) | (y >> 61u32)) ^ x1;
    (x1, y1)
}

/// One round undone under the round key `k`.
fn round_back_exec(x: u64, y: u64, k: u64) -> (out: (u64, u64))
    ensures
        out == round_back((x, y), k),
{
    let mixed = y ^ x;
    let y0 = (mixed >> 3u32) | (mixed << 61u32);
    let diff = (x ^ k).wrapping_sub(y0);
    ((diff << 8u32) | (diff >> 56u32), y0)
}

/// Speck keyed with one 128-bit word, held as its round keys.
pub struct Speck {
    pub schedule: [u64; 32],
}

impl CipherInterface for Speck {
    type Cipher = Speck;

    open spec fn spec_encrypt(&self, input: u128) -> u128 {
        speck_encrypted(self.schedule@, input)
    }

    open spec fn spec_decrypt(&self, input: u128) -> u128 {
        speck_decrypted(self.schedule@, input)
    }

    open spec fn key_length() -> nat {
        1
    }

    /// The cipher with the round keys of `key[0]`.
    fn new(key: &[u128]) -> (cipher: Speck)
        ensures
            cipher.schedule@ == schedule_of(key@[0]),
    {
        let (mut k1, mut k2) = halves_of(key[0]);
        let mut schedule = [0u64; 32];
        let mut i: usize = 0;
        while i < ROUNDS
            invariant
                i <= ROUNDS,
                (k1, k2) == key_state(key@[0], i as nat),
                forall|r: int| 0 <= r < i ==> schedule@[r] == key_state(key@[0], r as nat).1,
            decreases ROUNDS - i,
        {
            schedule[i] = k2;
            let next = round_exec(k1, k2, i as u64);
            k1 = next.0;
            k2 = next.1;
            i = i + 1;
        }
        assert(schedule@ =~= schedule_of(key@[0]));
        Speck { schedule }
    }

    fn encrypt_block(&self, input: u128) -> (output: u128) {
        let (mut m1, mut m2) = halves_of(input);
        let mut i: usize = 0;
        while i < ROUNDS
            invariant
                i <= ROUNDS,
                (m1, m2) == rounds(self.schedule@, split_block(input), i as nat),
            decreases ROUNDS - i,
        {
            let next = round_exec(m1, m2, self.schedule[i]);
            m1 = next.0;
            m2 = next.1;
            i = i + 1;
        }
        proof {
            lemma_decrypt_encrypt(self.schedule@, input);
        }
        block_of(m1, m2)
    }

    fn decrypt_block(&self, input: u128) -> (output: u128) {
        let (mut c1, mut c2) = halves_of(input);
        let mut i: usize = 0;
        while i < ROUNDS
            invariant
                i <= ROUNDS,
                (c1, c2) == rounds_back(self.schedule@, split_block(input), i as nat),
            decreases ROUNDS - i,
        {
            let next = round_back_exec(c1, c2, self.schedule[ROUNDS - 1 - i]);
            c1 = next.0;
            c2 = next.1;
            i = i + 1;
        }
        block_of(c1, c2)
    }

    open spec fn spec_name() -> Seq<char> {
        "SPECK"@
    }

    fn name(&self) -> (name: &'static str) {
        "SPECK"
    }

    fn level(&self) -> (bits: u16) {
        128
    }
}

} // verus!
