//! Counter mode over the same ciphers: the baseline that the threshold
//! cipher is measured against.

use super::blocks::{block_count, effective_length, pack_blocks, packed_blocks};
use crate::common_ciphers::{CipherName, CommonCipher};
use crate::field::GF128;
use vstd::prelude::*;

verus! {

/// The counter of block `i`: the IV plus `i` modulo 2^128.
pub open spec fn counter(iv: u128, i: int) -> u128 {
    vstd::wrapping::u128_specs::wrapping_add(iv, i as u128)
}

/// The buffer with the first `count` blocks combined with the key stream:
/// block `i` with the encryption of counter `i`.
pub open spec fn ctr_spec(buf: Seq<u128>, prp: &CommonCipher, iv: u128, count: nat) -> Seq<u128> {
    Seq::new(
        buf.len(),
        |i: int|
            if i < count {
                prp.spec_encrypt(counter(iv, i)) ^ buf[i]
            } else {
                buf[i]
            },
    )
}

proof fn lemma_xor_twice(k: u128, x: u128)
    by (bit_vector)
    ensures
        k ^ (k ^ x) == x,
{
}

/// Applying the key stream twice gives the buffer back.
pub proof fn lemma_ctr_twice(buf: Seq<u128>, prp: &CommonCipher, iv: u128, count: nat)
    ensures
        ctr_spec(ctr_spec(buf, prp, iv, count), prp, iv, count) == buf,
{
    assert forall|i: int| 0 <= i < buf.len() implies ctr_spec(
        ctr_spec(buf, prp, iv, count),
        prp,
        iv,
        count,
    )[i] == buf[i] by {
        lemma_xor_twice(prp.spec_encrypt(counter(iv, i)), buf[i]);
    }
    assert(ctr_spec(ctr_spec(buf, prp, iv, count), prp, iv, count) =~= buf);
}

/// A buffer of blocks with the cipher, the key and the IV of a counter mode.
pub struct CTRCipherCore {
    pub internal: Vec<u128>,
    pub blocks_count: usize,
    pub prp_name: CipherName,
    pub prp: CommonCipher,
    pub iv: u128,
    pub key: [u128; 2],
}

impl CTRCipherCore {
    /// The number of blocks lies within the buffer.
    pub open spec fn wf(&self) -> bool {
        self.blocks_count <= self.internal@.len()
    }

    /// A counter mode over the packed input with the given key and IV.
    /// What `out_bytes` held is dropped: it only lends its storage.
    pub fn with_key(
        bytes: &[u8],
        in_length: usize,
        add_padd: bool,
        out_bytes: Vec<u128>,
        prp_name: CipherName,
        key1: u128,
        key2: u128,
        iv: u128,
    ) -> (core: CTRCipherCore)
        requires
            effective_length(bytes@, in_length as nat) <= bytes@.len(),
        ensures
            core.wf(),
            core.internal@ == packed_blocks(
                bytes@,
                effective_length(bytes@, in_length as nat),
                add_padd,
            ),
            core.blocks_count == core.internal@.len(),
            core.iv == iv,
            core.key@ == seq![key1, key2],
            core.prp.keyed_as(prp_name, seq![key1, key2]),
    {
        let length = if in_length == 0 {
            bytes.len()
        } else {
            in_length
        };
        let mut packed: Vec<GF128> = Vec::new();
        pack_blocks(bytes, length, add_padd, &mut packed);
        let mut internal = out_bytes;
        internal.clear();
        let mut i: usize = 0;
        while i < packed.len()
            invariant
                i <= packed@.len(),
                internal@.len() == i,
                packed@.len() == block_count(length as nat, add_padd),
                forall|r: int|
                    0 <= r < packed@.len() ==> (#[trigger] packed@[r])@ == super::blocks::packed_block(
                        bytes@,
                        length as nat,
                        r,
                    ),
                forall|r: int|
                    0 <= r < i ==> #[trigger] internal@[r] == super::blocks::packed_block(
                        bytes@,
                        length as nat,
                        r,
                    ),
            decreases packed@.len() - i,
        {
            internal.push(packed[i].to_u128());
            i = i + 1;
        }
        assert(internal@ =~= packed_blocks(bytes@, length as nat, add_padd));
        let key = [key1, key2];
        let prp = CommonCipher::newcipher(&prp_name, key.as_slice());
        assert(key@ =~= seq![key1, key2]);
        let blocks_count = internal.len();
        CTRCipherCore { internal, blocks_count, prp, prp_name, iv, key }
    }

    /// A counter mode over the packed input with a random key and IV.
    pub fn new(
        bytes: &[u8],
        in_length: usize,
        add_padd: bool,
        out_bytes: Vec<u128>,
        prp_name: CipherName,
    ) -> (core: CTRCipherCore)
        requires
            effective_length(bytes@, in_length as nat) <= bytes@.len(),
        ensures
            core.wf(),
            core.internal@ == packed_blocks(
                bytes@,
                effective_length(bytes@, in_length as nat),
                add_padd,
            ),
            core.blocks_count == core.internal@.len(),
    {
        let key1 = GF128::random().to_u128();
        let key2 = GF128::random().to_u128();
        let iv = GF128::random().to_u128();
        Self::with_key(bytes, in_length, add_padd, out_bytes, prp_name, key1, key2, iv)
    }

    /// The bytes of the buffer, sixteen for each block in little-endian order.
    pub fn get_bytes_out(&self) -> (bytes: Vec<u8>)
        requires
            16 * self.internal@.len() <= usize::MAX,
        ensures
            bytes@ == super::blocks::unpacked_bytes(self.internal@),
    {
        let mut blocks: Vec<GF128> = Vec::new();
        let mut i: usize = 0;
        while i < self.internal.len()
            invariant
                i <= self.internal@.len(),
                blocks@.len() == i,
                forall|r: int| 0 <= r < i ==> (#[trigger] blocks@[r])@ == self.internal@[r],
            decreases self.internal@.len() - i,
        {
            blocks.push(GF128 { value: self.internal[i] });
            i = i + 1;
        }
        let bytes = super::blocks::unpack_blocks(&blocks);
        assert(bytes@ =~= super::blocks::unpacked_bytes(self.internal@));
        bytes
    }

    /// Replaces the cipher, the key and the IV.
    pub fn set_key_materials(&mut self, key: &[u128], iv: u128, prp_name: CipherName)
        requires
            key@.len() >= 2,
        ensures
            final(self).internal == old(self).internal,
            final(self).blocks_count == old(self).blocks_count,
            final(self).iv == iv,
            final(self).key@ == seq![key@[0], key@[1]],
            final(self).prp.keyed_as(prp_name, key@),
    {
        self.prp = CommonCipher::newcipher(&prp_name, key);
        self.key = [key[0], key[1]];
        self.iv = iv;
        self.prp_name = prp_name;
        assert(self.key@ =~= seq![key@[0], key@[1]]);
    }

    /// The block at `index`.
    pub fn get_block(&self, index: usize) -> (block: u128)
        requires
            index < self.internal@.len(),
        ensures
            block == self.internal@[index as int],
    {
        self.internal[index]
    }

    /// Replaces the block at `index`.
    pub fn set_block(&mut self, index: usize, value: u128)
        requires
            index < old(self).internal@.len(),
        ensures
            final(self).internal@ == old(self).internal@.update(index as int, value),
            final(self).blocks_count == old(self).blocks_count,
            final(self).prp == old(self).prp,
            final(self).iv == old(self).iv,
            final(self).key == old(self).key,
    {
        self.internal.set(index, value);
    }

    /// The blocks in order.
    pub fn blocks(&self) -> (out: Vec<u128>)
        requires
            self.wf(),
        ensures
            out@ == self.internal@.take(self.blocks_count as int),
    {
        let mut out: Vec<u128> = Vec::new();
        let mut i: usize = 0;
        while i < self.blocks_count
            invariant
                i <= self.blocks_count <= self.internal@.len(),
                out@ == self.internal@.take(i as int),
            decreases self.blocks_count - i,
        {
            out.push(self.get_block(i));
            assert(self.internal@.take(i + 1) =~= self.internal@.take(i as int).push(
                self.internal@[i as int],
            ));
            i = i + 1;
        }
        out
    }

    /// Combines every block with the key stream of its counter; the counter
    /// wraps around at 2^128.
    pub fn encrypt(&mut self)
        requires
            old(self).wf(),
        ensures
            final(self).wf(),
            final(self).internal@ == ctr_spec(
                old(self).internal@,
                &old(self).prp,
                old(self).iv,
                old(self).blocks_count as nat,
            ),
            final(self).blocks_count == old(self).blocks_count,
            final(self).prp == old(self).prp,
            final(self).iv == old(self).iv,
            final(self).key == old(self).key,
    {
        let ghost before = self.internal@;
        let mut i: usize = 0;
        while i < self.blocks_count
            invariant
                i <= self.blocks_count <= self.internal@.len(),
                self.internal@.len() == before.len(),
                self.blocks_count == old(self).blocks_count,
                self.prp == old(self).prp,
                self.iv == old(self).iv,
                self.key == old(self).key,
                self.internal@ =~= ctr_spec(before, &self.prp, self.iv, i as nat),
            decreases self.blocks_count - i,
        {
            let encrypted_block = self.prp.encrypt_block(self.iv.wrapping_add(i as u128))
                ^ self.get_block(i);
            self.internal.set(i, encrypted_block);
            i = i + 1;
        }
    }

    /// Takes the key stream off again, which is the same as putting it on.
    pub fn decrypt(&mut self)
        requires
            old(self).wf(),
        ensures
            final(self).wf(),
            final(self).internal@ == ctr_spec(
                old(self).internal@,
                &old(self).prp,
                old(self).iv,
                old(self).blocks_count as nat,
            ),
            final(self).blocks_count == old(self).blocks_count,
            final(self).prp == old(self).prp,
            final(self).iv == old(self).iv,
            final(self).key == old(self).key,
    {
        self.encrypt();
    }
}

} // verus!
