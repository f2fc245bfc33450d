//! Packing bytes into 128-bit blocks and back, with padding.
//!
//! A block holds its sixteen bytes in little-endian order: byte `j` of the
//! block is bits `8 * j` to `8 * j + 7` of its value.

use crate::field::GF128;
use vstd::prelude::*;

verus! {

/// The number of bytes in a block.
pub const BLOCK_BYTES: usize = 16;

/// The value of the first `n` bytes of `bytes` in little-endian order.
pub open spec fn le_value(bytes: Seq<u8>, n: nat) -> u128
    decreases n,
{
    if n == 0 {
        0
    } else {
        le_value(bytes, (n - 1) as nat) | ((bytes[n - 1] as u128) << ((8 * (n - 1)) as u32))
    }
}

/// Byte `j` of `v` in little-endian order.
pub open spec fn le_byte(v: u128, j: int) -> u8 {
    ((v >> ((8 * j) as u32)) & 0xff) as u8
}

/// The number of input bytes that count: all of them where `in_length` is zero.
pub open spec fn effective_length(bytes: Seq<u8>, in_length: nat) -> nat {
    if in_length == 0 {
        bytes.len()
    } else {
        in_length
    }
}

/// The number of blocks that `length` bytes fill, with or without padding.
pub open spec fn block_count(length: nat, add_padd: bool) -> nat {
    length / 16 + if add_padd {
        1nat
    } else {
        0nat
    }
}

/// The bytes of the padded last block: what is left of the input, then the
/// number of padding bytes in each of them; a whole block of sixteens where
/// nothing is left.
pub open spec fn last_block_bytes(bytes: Seq<u8>, length: nat) -> Seq<u8> {
    let rest = length % 16;
    Seq::new(
        16,
        |k: int|
            if k < rest {
                bytes[(length / 16) * 16 + k]
            } else {
                (16 - rest) as u8
            },
    )
}

/// Block `i` of the packed input.
pub open spec fn packed_block(bytes: Seq<u8>, length: nat, i: int) -> u128 {
    if i < length / 16 {
        le_value(bytes.subrange(16 * i, 16 * i + 16), 16)
    } else {
        le_value(last_block_bytes(bytes, length), 16)
    }
}

/// The blocks that the first `length` bytes of `bytes` fill: the whole
/// blocks in order, then the padded last block where padding is asked for.
pub open spec fn packed_blocks(bytes: Seq<u8>, length: nat, add_padd: bool) -> Seq<u128> {
    Seq::new(block_count(length, add_padd), |i: int| packed_block(bytes, length, i))
}

/// The bytes of a sequence of blocks, sixteen for each in little-endian order.
pub open spec fn unpacked_bytes(blocks: Seq<u128>) -> Seq<u8> {
    Seq::new(16 * blocks.len(), |x: int| le_byte(blocks[x / 16], x % 16))
}

proof fn lemma_byte_fits(v: u128, shift: u32)
    by (bit_vector)
    ensures
        (v >> shift) & 0xff <= 0xff,
{
}

/// The block whose sixteen little-endian bytes are `bytes[start..start + 16]`.
pub fn block_from_bytes(bytes: &[u8], start: usize) -> (block: GF128)
    requires
        start + 16 <= bytes@.len(),
    ensures
        block@ == le_value(bytes@.subrange(start as int, start + 16), 16),
{
    let ghost part = bytes@.subrange(start as int, start + 16);
    let total = bytes.len();
    let mut value: u128 = 0;
    let mut k: usize = 0;
    while k < 16
        invariant
            k <= 16,
            start + 16 <= total,
            total == bytes@.len(),
            part == bytes@.subrange(start as int, start + 16),
            value == le_value(part, k as nat),
        decreases 16 - k,
    {
        let shift: u32 = (8 * k) as u32;
        value = value | ((bytes[start + k] as u128) << shift);
        k = k + 1;
    }
    GF128 { value }
}

/// The padded last block of the first `length` bytes of `bytes`.
pub fn last_block(bytes: &[u8], length: usize) -> (block: GF128)
    requires
        length <= bytes@.len(),
    ensures
        block@ == le_value(last_block_bytes(bytes@, length as nat), 16),
{
    let total = bytes.len();
    let rest = length % 16;
    let base = length - rest;
    let pad: u8 = (16 - rest) as u8;
    let ghost padded = last_block_bytes(bytes@, length as nat);
    let mut value: u128 = 0;
    let mut k: usize = 0;
    while k < 16
        invariant
            k <= 16,
            length <= total,
            total == bytes@.len(),
            rest == length % 16,
            base == (length / 16) * 16,
            base + rest == length,
            pad == 16 - rest,
            padded == last_block_bytes(bytes@, length as nat),
            value == le_value(padded, k as nat),
        decreases 16 - k,
    {
        let byte = if k < rest {
            bytes[base + k]
        } else {
            pad
        };
        let shift: u32 = (8 * k) as u32;
        value = value | ((byte as u128) << shift);
        k = k + 1;
    }
    GF128 { value }
}

/// Packs the first `length` bytes of `bytes` into `out`, replacing what it held.
pub fn pack_blocks(bytes: &[u8], length: usize, add_padd: bool, out: &mut Vec<GF128>)
    requires
        length <= bytes@.len(),
    ensures
        final(out)@.len() == block_count(length as nat, add_padd),
        forall|i: int|
            0 <= i < final(out)@.len() ==> (#[trigger] final(out)@[i])@ == packed_block(
                bytes@,
                length as nat,
                i,
            ),
{
    out.clear();
    let whole = length / 16;
    let mut i: usize = 0;
    while i < whole
        invariant
            i <= whole,
            whole == length / 16,
            length <= bytes@.len(),
            out@.len() == i,
            forall|r: int|
                0 <= r < i ==> (#[trigger] out@[r])@ == packed_block(bytes@, length as nat, r),
        decreases whole - i,
    {
        let block = block_from_bytes(bytes, 16 * i);
        out.push(block);
        i = i + 1;
    }
    if add_padd {
        out.push(last_block(bytes, length));
    }
}

/// The bytes of the blocks, sixteen for each in little-endian order.
pub fn unpack_blocks(blocks: &Vec<GF128>) -> (bytes: Vec<u8>)
    requires
        16 * blocks@.len() <= usize::MAX,
    ensures
        bytes@.len() == 16 * blocks@.len(),
        forall|x: int|
            0 <= x < bytes@.len() ==> #[trigger] bytes@[x] == le_byte(blocks@[x / 16]@, x % 16),
{
    let mut bytes: Vec<u8> = Vec::new();
    let mut i: usize = 0;
    while i < blocks.len()
        invariant
            i <= blocks@.len(),
            16 * blocks@.len() <= usize::MAX,
            bytes@.len() == 16 * i,
            forall|x: int|
                0 <= x < bytes@.len() ==> #[trigger] bytes@[x] == le_byte(
                    blocks@[x / 16]@,
                    x % 16,
                ),
        decreases blocks@.len() - i,
    {
        let v = blocks[i].to_u128();
        let mut j: usize = 0;
        while j < 16
            invariant
                j <= 16,
                i < blocks@.len(),
                16 * blocks@.len() <= usize::MAX,
                v == blocks@[i as int]@,
                bytes@.len() == 16 * i + j,
                forall|x: int|
                    0 <= x < bytes@.len() ==> #[trigger] bytes@[x] == le_byte(
                        blocks@[x / 16]@,
                        x % 16,
                    ),
            decreases 16 - j,
        {
            let shift: u32 = (8 * j) as u32;
            proof {
                lemma_byte_fits(v, shift);
            }
            bytes.push(((v >> shift) & 0xff) as u8);
            j = j + 1;
        }
        i = i + 1;
    }
    bytes
}

proof fn lemma_byte_placed(v: u128, b: u8, m: u32, j: u32)
    by (bit_vector)
    requires
        m < 16,
        j < m,
        v >> ((8 * m) as u32) == 0,
    ensures
        (((v | ((b as u128) << ((8 * m) as u32))) >> ((8 * m) as u32)) & 0xff) as u8 == b,
        ((v | ((b as u128) << ((8 * m) as u32))) >> ((8 * j) as u32)) & 0xff == (v >> ((8 * j) as u32))
            & 0xff,
        m < 15 ==> (v | ((b as u128) << ((8 * m) as u32))) >> ((8 * (m + 1)) as u32) == 0,
{
}

proof fn lemma_first_byte_placed(v: u128, b: u8)
    by (bit_vector)
    requires
        v == 0,
    ensures
        (((v | ((b as u128) << 0u32)) >> 0u32) & 0xff) as u8 == b,
        (v | ((b as u128) << 0u32)) >> 8u32 == 0,
{
}

proof fn lemma_le_value_bytes(s: Seq<u8>, n: nat)
    requires
        n <= 16,
    ensures
        forall|j: int| 0 <= j < n ==> le_byte(le_value(s, n), j) == s[j],
        0 < n < 16 ==> le_value(s, n) >> ((8 * n) as u32) == 0,
        n == 0 ==> le_value(s, n) == 0,
    decreases n,
{
    if n == 1 {
        assert(le_value(s, 0) == 0);
        lemma_first_byte_placed(0, s[0]);
    } else if n > 1 {
        let m = (n - 1) as nat;
        lemma_le_value_bytes(s, m);
        let v = le_value(s, m);
        assert forall|j: int| 0 <= j < n implies le_byte(le_value(s, n), j) == s[j] by {
            if j < m {
                lemma_byte_placed(v, s[m as int], m as u32, j as u32);
            } else {
                lemma_byte_placed(v, s[m as int], m as u32, 0);
            }
        }
        lemma_byte_placed(v, s[m as int], m as u32, 0);
    }
}

/// The bytes of a block are the sixteen bytes that it was made of.
pub proof fn lemma_bytes_of_value(s: Seq<u8>, j: int)
    requires
        0 <= j < 16,
    ensures
        le_byte(le_value(s, 16), j) == s[j],
{
    lemma_le_value_bytes(s, 16);
}

/// Unpacking what was packed gives the input back: the counted bytes first,
/// then, where padding was asked for, the padding bytes, each of them their
/// number; a rest that was not padded is dropped.
pub proof fn lemma_unpack_packed(bytes: Seq<u8>, length: nat, add_padd: bool, x: int)
    requires
        length <= bytes.len(),
        0 <= x < 16 * block_count(length, add_padd),
    ensures
        unpacked_bytes(packed_blocks(bytes, length, add_padd))[x] == if x < length {
            bytes[x]
        } else {
            (16 - length % 16) as u8
        },
{
    let i = x / 16;
    let j = x % 16;
    let blocks = packed_blocks(bytes, length, add_padd);
    assert(blocks[i] == packed_block(bytes, length, i));
    if i < length / 16 {
        lemma_bytes_of_value(bytes.subrange(16 * i, 16 * i + 16), j);
    } else {
        lemma_bytes_of_value(last_block_bytes(bytes, length), j);
    }
}

} // verus!
