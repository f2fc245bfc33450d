//! What the measurements compute: bit distances between ciphertexts, the
//! keys of a sensitivity run, and the work of one chunk of a throughput run.

use crate::cipher::blocks::{block_from_bytes, le_byte, le_value};
use crate::field::GF128;
use vstd::prelude::*;

verus! {

/// What a sensitivity run varies.
#[derive(Clone, Copy, Debug)]
pub enum TestParam {
    KEY,
    IV,
}

/// The multiplier of the chunk work.
pub const WORK_FACTOR: u128 = 0x9E37_79B9_7F4A_7C15_9E37_79B9_7F4A_7C15;

/// The increment of the chunk work.
pub const WORK_INCREMENT: u128 = 0x1234_5678_9ABC_DEF0_1234_5678_9ABC_DEF0;

/// What the chunk work adds to each byte behind the last whole block.
pub const TAIL_INCREMENT: u8 = 0xA5;

/// The number of bits set in a byte.
pub open spec fn ones(b: u8) -> nat {
    (((b >> 0u32) & 1) + ((b >> 1u32) & 1) + ((b >> 2u32) & 1) + ((b >> 3u32) & 1) + ((b >> 4u32)
        & 1) + ((b >> 5u32) & 1) + ((b >> 6u32) & 1) + ((b >> 7u32) & 1)) as nat
}

/// The number of bits in which the first `n` bytes of `a` and `b` differ.
pub open spec fn differing_bits(a: Seq<u8>, b: Seq<u8>, n: nat) -> nat
    decreases n,
{
    if n == 0 {
        0
    } else {
        differing_bits(a, b, (n - 1) as nat) + ones(a[n - 1] ^ b[n - 1])
    }
}

proof fn lemma_bit_bounds(b: u8)
    by (bit_vector)
    ensures
        (b >> 0u32) & 1 <= 1,
        (b >> 1u32) & 1 <= 1,
        (b >> 2u32) & 1 <= 1,
        (b >> 3u32) & 1 <= 1,
        (b >> 4u32) & 1 <= 1,
        (b >> 5u32) & 1 <= 1,
        (b >> 6u32) & 1 <= 1,
        (b >> 7u32) & 1 <= 1,
{
}

/// The number of bits set in a byte.
pub fn count_ones(b: u8) -> (count: u8)
    ensures
        count == ones(b),
        count <= 8,
{
    proof {
        lemma_bit_bounds(b);
    }
    ((b >> 0u32) & 1) + ((b >> 1u32) & 1) + ((b >> 2u32) & 1) + ((b >> 3u32) & 1) + ((b >> 4u32)
        & 1) + ((b >> 5u32) & 1) + ((b >> 6u32) & 1) + ((b >> 7u32) & 1)
}

/// The number of bits in which the first `t_size` bytes of the two slices differ.
pub fn bit_difference(t_size: usize, source: &[u8], dest: &[u8]) -> (count: u128)
    requires
        t_size <= source@.len(),
        t_size <= dest@.len(),
    ensures
        count == differing_bits(source@, dest@, t_size as nat),
{
    let mut count: u128 = 0;
    let mut i: usize = 0;
    while i < t_size
        invariant
            i <= t_size,
            t_size <= source@.len(),
            t_size <= dest@.len(),
            count == differing_bits(source@, dest@, i as nat),
            count <= 8 * i,
        decreases t_size - i,
    {
        count = count + count_ones(source[i] ^ dest[i]) as u128;
        i = i + 1;
    }
    count
}

/// Whether the two slices agree in their first `n` bytes.
pub fn prefix_equal(out: &[u8], data: &[u8], n: usize) -> (same: bool)
    requires
        n <= out@.len(),
        n <= data@.len(),
    ensures
        same == (out@.take(n as int) == data@.take(n as int)),
{
    let mut i: usize = 0;
    while i < n
        invariant
            i <= n,
            n <= out@.len(),
            n <= data@.len(),
            forall|k: int| 0 <= k < i ==> out@[k] == data@[k],
        decreases n - i,
    {
        if out[i] != data[i] {
            assert(out@.take(n as int)[i as int] != data@.take(n as int)[i as int]);
            return false;
        }
        i = i + 1;
    }
    assert(out@.take(n as int) =~= data@.take(n as int));
    true
}

/// The key and the IV of the second engine of a sensitivity run: what the
/// run varies has coefficient `bit` flipped, the other is as it was.
pub fn varied(param: &TestParam, key: &GF128, iv: &GF128, bit: u32) -> (out: (GF128, GF128))
    requires
        bit < 128,
    ensures
        out.0@ == match param {
            TestParam::KEY => key@ ^ (1u128 << bit),
            TestParam::IV => key@,
        },
        out.1@ == match param {
            TestParam::KEY => iv@,
            TestParam::IV => iv@ ^ (1u128 << bit),
        },
{
    let flip = GF128 { value: 1u128 << bit };
    match param {
        TestParam::KEY => (key.addto(&flip), *iv),
        TestParam::IV => (*key, iv.addto(&flip)),
    }
}

/// `x` rotated left by thirteen bits.
pub open spec fn rotate13(x: u128) -> u128 {
    (x << 13u32) | (x >> 115u32)
}

/// One step of the chunk work on a block.
pub open spec fn work_step(v: u128) -> u128 {
    let m = vstd::wrapping::u128_specs::wrapping_mul(v, WORK_FACTOR);
    vstd::wrapping::u128_specs::wrapping_add(m ^ rotate13(m), WORK_INCREMENT)
}

/// `n` steps of the chunk work on a block.
pub open spec fn work(v: u128, n: nat) -> u128
    decreases n,
{
    if n == 0 {
        v
    } else {
        work_step(work(v, (n - 1) as nat))
    }
}

/// The chunk after its work: every whole block of sixteen bytes, read in
/// little-endian order, goes through `intensity` steps, and every byte
/// behind the last whole block gains the tail increment modulo 256.
pub open spec fn processed(chunk: Seq<u8>, intensity: nat) -> Seq<u8> {
    Seq::new(
        chunk.len(),
        |x: int|
            if x < (chunk.len() / 16) * 16 {
                le_byte(
                    work(le_value(chunk.subrange(16 * (x / 16), 16 * (x / 16) + 16), 16), intensity),
                    x % 16,
                )
            } else {
                vstd::wrapping::u8_specs::wrapping_add(chunk[x], TAIL_INCREMENT)
            },
    )
}

proof fn lemma_work_byte_fits(v: u128, shift: u32)
    by (bit_vector)
    ensures
        (v >> shift) & 0xff <= 0xff,
{
}

/// Does the work of one chunk in place.
pub fn process_chunk(chunk: &mut Vec<u8>, compute_intensity: usize)
    ensures
        final(chunk)@ == processed(old(chunk)@, compute_intensity as nat),
{
    let ghost before = chunk@;
    let len = chunk.len();
    let mut i: usize = 0;
    while len - i >= 16
        invariant
            i <= len,
            i % 16 == 0,
            len == before.len(),
            chunk@.len() == len,
            forall|x: int|
                0 <= x < len ==> #[trigger] chunk@[x] == if x < i {
                    processed(before, compute_intensity as nat)[x]
                } else {
                    before[x]
                },
        decreases len - i,
    {
        let mut val = block_from_bytes(chunk.as_slice(), i).to_u128();
        assert(chunk@.subrange(i as int, i + 16) =~= before.subrange(i as int, i + 16));
        let mut step: usize = 0;
        while step < compute_intensity
            invariant
                step <= compute_intensity,
                i + 16 <= before.len(),
                val == work(le_value(before.subrange(i as int, i + 16), 16), step as nat),
            decreases compute_intensity - step,
        {
            val = val.wrapping_mul(WORK_FACTOR);
            val = val ^ ((val << 13u32) | (val >> 115u32));
            val = val.wrapping_add(WORK_INCREMENT);
            step = step + 1;
        }
        let mut j: usize = 0;
        while j < 16
            invariant
                j <= 16,
                i + 16 <= len,
                i % 16 == 0,
                len == before.len(),
                chunk@.len() == len,
                val == work(le_value(before.subrange(i as int, i + 16), 16), compute_intensity as nat),
                forall|x: int|
                    0 <= x < len ==> #[trigger] chunk@[x] == if x < i + j {
                        processed(before, compute_intensity as nat)[x]
                    } else {
                        before[x]
                    },
            decreases 16 - j,
        {
            let shift: u32 = (8 * j) as u32;
            proof {
                lemma_work_byte_fits(val, shift);
                assert((i + j) / 16 == i / 16 && (i + j) % 16 == j && 16 * (i / 16) == i);
                assert(i + j < (len / 16) * 16);
            }
            chunk.set(i + j, ((val >> shift) & 0xff) as u8);
            j = j + 1;
        }
        i = i + 16;
    }
    assert(i == (len / 16) * 16);
    let whole = i;
    while i < len
        invariant
            whole <= i <= len,
            whole == (len / 16) * 16,
            len == before.len(),
            chunk@.len() == len,
            forall|x: int|
                0 <= x < len ==> #[trigger] chunk@[x] == if x < i {
                    processed(before, compute_intensity as nat)[x]
                } else {
                    before[x]
                },
        decreases len - i,
    {
        let byte = chunk[i].wrapping_add(TAIL_INCREMENT);
        chunk.set(i, byte);
        i = i + 1;
    }
    assert(chunk@ =~= processed(before, compute_intensity as nat));
}

} // verus!
