//! The cipher engine: a block buffer, its key material, and the recursive
//! level transform in both directions.

use super::blocks::{
    block_count, effective_length, pack_blocks, packed_blocks, unpack_blocks, unpacked_bytes,
};
use super::key_scheme::{generate_key_scheme, scheme_exists, words, KeyScheme, MAX_THRESHOLD};
use super::levels::{fit_thresholds, LevelParams};
use super::transform::{
    column_rows, decode_cell, decode_column, decode_columns, decode_levels, descends,
    encode_cell, encode_column, encode_columns, encode_levels, in_column, lemma_next_level,
    lemma_top_level, level_at, level_fits, levels_invertible, masked_column, next_level,
    principal_of, secondary_of, squared_items, top_level, unmasked_column,
};
use crate::algebra::lemma_dot_agree;
use crate::common_ciphers::{CipherName, CommonCipher};
use crate::field::{gf_add, squared, GF128, MAX_VECTOR_ELEMENTS};
use crate::matrix::{covers, extensible, row_by_items, GF128Matrix};
use crate::vector::GF128Vector;
use vstd::prelude::*;

verus! {

/// Row `i` of column `index` is a block of the level, and the only place
/// that its position stands for.
pub proof fn lemma_cell_position(level: LevelParams, len: nat, index: int, i: int)
    requires
        level_fits(level, len),
        0 <= index < level.max_part_size,
        0 <= i < column_rows(level, index),
    ensures
        0 <= i * level.max_part_size + index < level.blocks_count,
        (i * level.max_part_size + index) % (level.max_part_size as int) == index,
        (i * level.max_part_size + index) / (level.max_part_size as int) == i,
{
    let p = level.max_part_size as int;
    let t = level.threshold as int;
    let n = level.blocks_count as int;
    let x = i * p + index;
    vstd::arithmetic::div_mod::lemma_fundamental_div_mod_converse(x, p, i, index);
    assert(0 <= i * p) by (nonlinear_arith)
        requires
            0 <= i,
            0 <= p,
    ;
    if index < level.last_part_size {
        assert(i * p <= (t - 1) * p) by (nonlinear_arith)
            requires
                i <= t - 1,
                p >= 0,
        ;
    } else {
        assert(i * p + p <= (t - 1) * p) by (nonlinear_arith)
            requires
                i <= t - 2,
                p >= 0,
        ;
    }
}

/// Encodes column `index` of the level in `buf`, with `tmp` as scratch space.
pub fn encode_into(
    buf: &mut Vec<GF128>,
    level: &LevelParams,
    index: usize,
    alpha: &GF128,
    beta_vector: &GF128Vector,
    vm: &GF128Matrix,
    tmp: &mut GF128Vector,
)
    requires
        level_fits(*level, old(buf)@.len()),
        index < level.max_part_size,
        level.threshold <= MAX_VECTOR_ELEMENTS,
        level.threshold <= beta_vector.storage().len(),
        covers(vm.entries(), level.threshold as nat),
        old(tmp).storage().len() == MAX_VECTOR_ELEMENTS,
    ensures
        words(final(buf)@) == encode_column(
            words(old(buf)@),
            *level,
            index as int,
            alpha@,
            beta_vector.storage(),
            vm.entries(),
        ),
        final(buf)@.len() == old(buf)@.len(),
        final(tmp).storage().len() == MAX_VECTOR_ELEMENTS,
        final(tmp).true_size == old(tmp).true_size,
{
    let rows = if index < level.last_part_size {
        level.threshold
    } else {
        level.threshold - 1
    };
    let p = level.max_part_size;
    let ghost before = words(buf@);
    let ghost masked = masked_column(before, *level, index as int, alpha@, beta_vector.storage());
    let mut i: usize = 0;
    while i < rows
        invariant
            i <= rows,
            rows == column_rows(*level, index as int),
            rows <= level.threshold <= MAX_VECTOR_ELEMENTS,
            p == level.max_part_size,
            index < p,
            level_fits(*level, buf@.len()),
            level.threshold <= beta_vector.storage().len(),
            words(buf@) == before,
            masked == masked_column(before, *level, index as int, alpha@, beta_vector.storage()),
            tmp.storage().len() == MAX_VECTOR_ELEMENTS,
            tmp.true_size == old(tmp).true_size,
            forall|k: int| 0 <= k < i ==> tmp.storage()[k] == masked[k],
        decreases rows - i,
    {
        proof {
            lemma_cell_position(*level, buf@.len(), index as int, i as int);
        }
        let position = i * p + index;
        let item = buf[position].addto(alpha).multiply(&beta_vector.get(i));
        assert(before[position as int] == buf@[position as int]@);
        tmp.set(i, item);
        i = i + 1;
    }
    let mut i: usize = 0;
    while i < rows
        invariant
            i <= rows,
            rows == column_rows(*level, index as int),
            rows <= level.threshold <= MAX_VECTOR_ELEMENTS,
            p == level.max_part_size,
            index < p,
            level_fits(*level, buf@.len()),
            buf@.len() == before.len(),
            covers(vm.entries(), level.threshold as nat),
            masked == masked_column(before, *level, index as int, alpha@, beta_vector.storage()),
            tmp.storage().len() == MAX_VECTOR_ELEMENTS,
            tmp.true_size == old(tmp).true_size,
            forall|k: int| 0 <= k < rows ==> tmp.storage()[k] == masked[k],
            forall|x: int|
                0 <= x < before.len() ==> #[trigger] words(buf@)[x] == if in_column(
                    *level,
                    index as int,
                    x,
                ) && x / (p as int) < i {
                    encode_cell(
                        before,
                        *level,
                        index as int,
                        alpha@,
                        beta_vector.storage(),
                        vm.entries(),
                        x / (p as int),
                    )
                } else {
                    before[x]
                },
        decreases rows - i,
    {
        proof {
            lemma_cell_position(*level, buf@.len(), index as int, i as int);
            lemma_dot_agree(vm.entries()[i as int], tmp.storage(), vm.entries()[i as int], masked, rows as nat);
        }
        let position = i * p + index;
        let sum = row_by_items(&vm.data, i, &tmp.elements, rows);
        let ghost previous = words(buf@);
        buf.set(position, sum.addto(alpha));
        proof {
            assert forall|x: int| 0 <= x < before.len() implies #[trigger] words(buf@)[x]
                == if in_column(*level, index as int, x) && x / (p as int) < i + 1 {
                encode_cell(
                    before,
                    *level,
                    index as int,
                    alpha@,
                    beta_vector.storage(),
                    vm.entries(),
                    x / (p as int),
                )
            } else {
                before[x]
            } by {
                if x != position {
                    assert(words(buf@)[x] == previous[x]);
                    if in_column(*level, index as int, x) && x / (p as int) == i {
                        vstd::arithmetic::div_mod::lemma_fundamental_div_mod(x, p as int);
                        assert(x == (p as int) * (i as int) + (index as int));
                        assert((p as int) * (i as int) == (i as int) * (p as int)) by (nonlinear_arith);
                    }
                }
            }
        }
        i = i + 1;
    }
    assert(words(buf@) =~= encode_column(
        before,
        *level,
        index as int,
        alpha@,
        beta_vector.storage(),
        vm.entries(),
    ));
}

/// Decodes column `index` of the level in `buf` with the matrix `m`, with
/// `tmp` as scratch space.
pub fn decode_into(
    buf: &mut Vec<GF128>,
    level: &LevelParams,
    index: usize,
    alpha: &GF128,
    inv_beta_vector: &GF128Vector,
    m: &GF128Matrix,
    tmp: &mut GF128Vector,
)
    requires
        level_fits(*level, old(buf)@.len()),
        index < level.max_part_size,
        level.threshold <= MAX_VECTOR_ELEMENTS,
        level.threshold <= inv_beta_vector.storage().len(),
        covers(m.entries(), column_rows(*level, index as int)),
        old(tmp).storage().len() == MAX_VECTOR_ELEMENTS,
    ensures
        words(final(buf)@) == decode_column(
            words(old(buf)@),
            *level,
            index as int,
            alpha@,
            inv_beta_vector.storage(),
            m.entries(),
        ),
        final(buf)@.len() == old(buf)@.len(),
        final(tmp).storage().len() == MAX_VECTOR_ELEMENTS,
        final(tmp).true_size == old(tmp).true_size,
{
    let rows = if index < level.last_part_size {
        level.threshold
    } else {
        level.threshold - 1
    };
    let p = level.max_part_size;
    let ghost before = words(buf@);
    let ghost plain = unmasked_column(before, *level, index as int, alpha@);
    let mut i: usize = 0;
    while i < rows
        invariant
            i <= rows,
            rows == column_rows(*level, index as int),
            rows <= level.threshold <= MAX_VECTOR_ELEMENTS,
            p == level.max_part_size,
            index < p,
            level_fits(*level, buf@.len()),
            words(buf@) == before,
            plain == unmasked_column(before, *level, index as int, alpha@),
            tmp.storage().len() == MAX_VECTOR_ELEMENTS,
            tmp.true_size == old(tmp).true_size,
            forall|k: int| 0 <= k < i ==> tmp.storage()[k] == plain[k],
        decreases rows - i,
    {
        proof {
            lemma_cell_position(*level, buf@.len(), index as int, i as int);
        }
        let position = i * p + index;
        let item = buf[position].addto(alpha);
        assert(before[position as int] == buf@[position as int]@);
        tmp.set(i, item);
        i = i + 1;
    }
    let mut i: usize = 0;
    while i < rows
        invariant
            i <= rows,
            rows == column_rows(*level, index as int),
            rows <= level.threshold <= MAX_VECTOR_ELEMENTS,
            p == level.max_part_size,
            index < p,
            level_fits(*level, buf@.len()),
            buf@.len() == before.len(),
            level.threshold <= inv_beta_vector.storage().len(),
            covers(m.entries(), rows as nat),
            plain == unmasked_column(before, *level, index as int, alpha@),
            tmp.storage().len() == MAX_VECTOR_ELEMENTS,
            tmp.true_size == old(tmp).true_size,
            forall|k: int| 0 <= k < rows ==> tmp.storage()[k] == plain[k],
            forall|x: int|
                0 <= x < before.len() ==> #[trigger] words(buf@)[x] == if in_column(
                    *level,
                    index as int,
                    x,
                ) && x / (p as int) < i {
                    decode_cell(
                        before,
                        *level,
                        index as int,
                        alpha@,
                        inv_beta_vector.storage(),
                        m.entries(),
                        x / (p as int),
                    )
                } else {
                    before[x]
                },
        decreases rows - i,
    {
        proof {
            lemma_cell_position(*level, buf@.len(), index as int, i as int);
            lemma_dot_agree(m.entries()[i as int], tmp.storage(), m.entries()[i as int], plain, rows as nat);
        }
        let position = i * p + index;
        let sum = row_by_items(&m.data, i, &tmp.elements, rows);
        let scaled = sum.multiply(&inv_beta_vector.get(i));
        let ghost previous = words(buf@);
        buf.set(position, scaled.addto(alpha));
        proof {
            assert forall|x: int| 0 <= x < before.len() implies #[trigger] words(buf@)[x]
                == if in_column(*level, index as int, x) && x / (p as int) < i + 1 {
                decode_cell(
                    before,
                    *level,
                    index as int,
                    alpha@,
                    inv_beta_vector.storage(),
                    m.entries(),
                    x / (p as int),
                )
            } else {
                before[x]
            } by {
                if x != position {
                    assert(words(buf@)[x] == previous[x]);
                    if in_column(*level, index as int, x) && x / (p as int) == i {
                        vstd::arithmetic::div_mod::lemma_fundamental_div_mod(x, p as int);
                        assert(x == (p as int) * (i as int) + (index as int));
                        assert((p as int) * (i as int) == (i as int) * (p as int)) by (nonlinear_arith);
                    }
                }
            }
        }
        i = i + 1;
    }
    assert(words(buf@) =~= decode_column(
        before,
        *level,
        index as int,
        alpha@,
        inv_beta_vector.storage(),
        m.entries(),
    ));
}

/// Squares the first `n` items of the vector.
pub fn square_items(v: &mut GF128Vector, n: usize)
    requires
        n <= old(v).storage().len(),
    ensures
        final(v).storage() == squared_items(old(v).storage(), n as nat, 1),
        final(v).true_size == old(v).true_size,
{
    let ghost before = v.storage();
    let mut k: usize = 0;
    while k < n
        invariant
            k <= n <= before.len(),
            v.true_size == old(v).true_size,
            v.storage().len() == before.len(),
            forall|x: int|
                0 <= x < before.len() ==> #[trigger] v.storage()[x] == if x < k {
                    squared(before[x], 1)
                } else {
                    before[x]
                },
        decreases n - k,
    {
        let item = v.get(k);
        assert(squared(before[k as int], 0) == before[k as int]);
        v.set(k, item.multiply(&item));
        k = k + 1;
    }
    assert(v.storage() =~= squared_items(before, n as nat, 1));
}

/// Squaring once more what was squared `c` times gives what is squared `c + 1` times.
pub proof fn lemma_squared_items_step(v: Seq<u128>, n: nat, c: nat)
    ensures
        squared_items(squared_items(v, n, c), n, 1) == squared_items(v, n, c + 1),
{
    assert forall|k: int| 0 <= k < v.len() implies squared_items(squared_items(v, n, c), n, 1)[k]
        == squared_items(v, n, c + 1)[k] by {
        if k < n {
            let s = squared(v[k], c);
            assert(squared(s, 0) == s);
            assert(squared(s, 1) == crate::field::gf_mul(s, s));
        }
    }
    assert(squared_items(squared_items(v, n, c), n, 1) =~= squared_items(v, n, c + 1));
}

/// Encodes every column of the level: column `c` with the masks squared `c` times over.
pub fn encode_level(
    buf: &mut Vec<GF128>,
    level: &LevelParams,
    alpha: &GF128,
    beta_vector: &GF128Vector,
    vm: &GF128Matrix,
    tmp: &mut GF128Vector,
)
    requires
        level_fits(*level, old(buf)@.len()),
        level.threshold <= MAX_VECTOR_ELEMENTS,
        level.threshold <= beta_vector.storage().len(),
        covers(vm.entries(), level.threshold as nat),
        old(tmp).storage().len() == MAX_VECTOR_ELEMENTS,
    ensures
        words(final(buf)@) == encode_columns(
            words(old(buf)@),
            *level,
            alpha@,
            beta_vector.storage(),
            vm.entries(),
            level.max_part_size as nat,
        ),
        final(buf)@.len() == old(buf)@.len(),
        final(tmp).storage().len() == MAX_VECTOR_ELEMENTS,
        final(tmp).true_size == old(tmp).true_size,
{
    let ghost before = words(buf@);
    let ghost bv0 = beta_vector.storage();
    let mut current = *alpha;
    let mut masks = beta_vector.clone();
    let count = level.max_part_size;
    let mut i: usize = 0;
    assert(masks.storage() =~= squared_items(bv0, level.threshold as nat, 0));
    while i < count
        invariant
            i <= count,
            count == level.max_part_size,
            level_fits(*level, buf@.len()),
            buf@.len() == before.len(),
            level.threshold <= MAX_VECTOR_ELEMENTS,
            level.threshold <= bv0.len(),
            covers(vm.entries(), level.threshold as nat),
            tmp.storage().len() == MAX_VECTOR_ELEMENTS,
            tmp.true_size == old(tmp).true_size,
            current@ == squared(alpha@, i as nat),
            masks.storage() == squared_items(bv0, level.threshold as nat, i as nat),
            words(buf@) == encode_columns(before, *level, alpha@, bv0, vm.entries(), i as nat),
        decreases count - i,
    {
        encode_into(buf, level, i, &current, &masks, vm, tmp);
        current = current.multiply(&current);
        square_items(&mut masks, level.threshold);
        proof {
            lemma_squared_items_step(bv0, level.threshold as nat, i as nat);
        }
        i = i + 1;
    }
}

/// Decodes every column of the level: full columns with `principal`, the
/// others with `secondary`, column `c` with the masks squared `c` times over.
pub fn decode_level(
    buf: &mut Vec<GF128>,
    level: &LevelParams,
    alpha: &GF128,
    inv_beta_vector: &GF128Vector,
    principal: &GF128Matrix,
    secondary: &GF128Matrix,
    tmp: &mut GF128Vector,
)
    requires
        level_fits(*level, old(buf)@.len()),
        level.threshold <= MAX_VECTOR_ELEMENTS,
        level.threshold <= inv_beta_vector.storage().len(),
        covers(principal.entries(), level.threshold as nat),
        covers(secondary.entries(), (level.threshold - 1) as nat),
        old(tmp).storage().len() == MAX_VECTOR_ELEMENTS,
    ensures
        words(final(buf)@) == decode_columns(
            words(old(buf)@),
            *level,
            alpha@,
            inv_beta_vector.storage(),
            principal.entries(),
            secondary.entries(),
            level.max_part_size as nat,
        ),
        final(buf)@.len() == old(buf)@.len(),
        final(tmp).storage().len() == MAX_VECTOR_ELEMENTS,
        final(tmp).true_size == old(tmp).true_size,
{
    let ghost before = words(buf@);
    let ghost ibv0 = inv_beta_vector.storage();
    let mut current = *alpha;
    let mut masks = inv_beta_vector.clone();
    let count = level.max_part_size;
    let mut i: usize = 0;
    assert(masks.storage() =~= squared_items(ibv0, level.threshold as nat, 0));
    while i < count
        invariant
            i <= count,
            count == level.max_part_size,
            level_fits(*level, buf@.len()),
            buf@.len() == before.len(),
            level.threshold <= MAX_VECTOR_ELEMENTS,
            level.threshold <= ibv0.len(),
            covers(principal.entries(), level.threshold as nat),
            covers(secondary.entries(), (level.threshold - 1) as nat),
            tmp.storage().len() == MAX_VECTOR_ELEMENTS,
            tmp.true_size == old(tmp).true_size,
            current@ == squared(alpha@, i as nat),
            masks.storage() == squared_items(ibv0, level.threshold as nat, i as nat),
            words(buf@) == decode_columns(
                before,
                *level,
                alpha@,
                ibv0,
                principal.entries(),
                secondary.entries(),
                i as nat,
            ),
        decreases count - i,
    {
        if i < level.last_part_size {
            decode_into(buf, level, i, &current, &masks, principal, tmp);
        } else {
            decode_into(buf, level, i, &current, &masks, secondary, tmp);
        }
        current = current.multiply(&current);
        square_items(&mut masks, level.threshold);
        proof {
            lemma_squared_items_step(ibv0, level.threshold as nat, i as nat);
        }
        i = i + 1;
    }
}

/// The buffer after encryption: every level encoded from the top down, then
/// the first block, with the IV added, sent through the cipher.
pub open spec fn encrypt_spec(
    buf: Seq<u128>,
    level: LevelParams,
    scheme: &KeyScheme,
    t_min: nat,
    prp: &CommonCipher,
) -> Seq<u128> {
    let encoded = encode_levels(
        buf,
        level,
        scheme.alpha@,
        scheme.beta_vector.storage(),
        scheme.vender_matrix.entries(),
        t_min,
    );
    encoded.update(0, prp.spec_encrypt(gf_add(encoded[0], scheme.iv@)))
}

/// Whether `prp` is the cipher of the named kind, keyed with the two words,
/// under which the two words and the IV have no key material.
pub open spec fn lacks_material(
    name: CipherName,
    threshold: nat,
    first: u128,
    second: u128,
    iv: u128,
    prp: CommonCipher,
) -> bool {
    &&& prp.keyed_as(name, seq![first, second])
    &&& !scheme_exists(seq![first, second], iv, threshold, &prp)
}

/// A buffer of blocks with the key material and the cipher that transform it.
pub struct SSCipherCore {
    pub targted_threshold: usize,
    pub internal: Vec<GF128>,
    pub tmp_vector: GF128Vector,
    pub decryption_parts_stack: Vec<LevelParams>,
    pub active_level: LevelParams,
    pub key_materials: KeyScheme,
    pub prp_cipher: CommonCipher,
}

impl SSCipherCore {
    /// The blocks of the buffer as words.
    pub open spec fn blocks_spec(&self) -> Seq<u128> {
        words(self.internal@)
    }

    /// The engine holds at least one block, its active level is the top
    /// level of its buffer, and its key material fits its threshold.
    pub open spec fn wf(&self) -> bool {
        &&& 2 <= self.targted_threshold <= MAX_THRESHOLD
        &&& 1 <= self.internal@.len()
        &&& 16 * self.internal@.len() <= usize::MAX
        &&& self.active_level == top_level(self.internal@.len(), self.targted_threshold as nat)
        &&& self.key_materials.wf(self.targted_threshold as nat)
        &&& self.tmp_vector.storage().len() == MAX_VECTOR_ELEMENTS
        &&& self.decryption_parts_stack@.len() == 0
    }

    /// The block at `index`.
    pub fn get_block(&self, index: usize) -> (block: GF128)
        requires
            index < self.internal@.len(),
        ensures
            block == self.internal@[index as int],
    {
        self.internal[index]
    }

    /// Replaces the block at `index`.
    pub fn set_block(&mut self, index: usize, value: &GF128)
        requires
            index < old(self).internal@.len(),
        ensures
            final(self).internal@ == old(self).internal@.update(index as int, *value),
            final(self).targted_threshold == old(self).targted_threshold,
            final(self).tmp_vector == old(self).tmp_vector,
            final(self).decryption_parts_stack == old(self).decryption_parts_stack,
            final(self).active_level == old(self).active_level,
            final(self).key_materials == old(self).key_materials,
            final(self).prp_cipher == old(self).prp_cipher,
    {
        self.internal.set(index, *value);
    }

    /// The blocks of the active level, in order.
    pub fn blocks(&self) -> (out: Vec<GF128>)
        requires
            self.active_level.blocks_count <= self.internal@.len(),
        ensures
            out@ == self.internal@.take(self.active_level.blocks_count as int),
    {
        let mut out: Vec<GF128> = Vec::new();
        let count = self.active_level.blocks_count;
        let mut i: usize = 0;
        while i < count
            invariant
                i <= count <= self.internal@.len(),
                out@ == self.internal@.take(i as int),
            decreases count - i,
        {
            out.push(self.get_block(i));
            assert(self.internal@.take(i + 1) =~= self.internal@.take(i as int).push(
                self.internal@[i as int],
            ));
            i = i + 1;
        }
        out
    }

    /// The buffer as bytes, sixteen for each block in little-endian order.
    pub fn get_bytes_out(&self) -> (bytes: Vec<u8>)
        requires
            16 * self.internal@.len() <= usize::MAX,
        ensures
            bytes@ == unpacked_bytes(self.blocks_spec()),
    {
        let bytes = unpack_blocks(&self.internal);
        assert(bytes@ =~= unpacked_bytes(self.blocks_spec()));
        bytes
    }

    /// The number of columns of the active level.
    pub fn vectors_count(&self) -> (count: usize)
        ensures
            count == self.active_level.max_part_size,
    {
        self.active_level.max_part_size
    }

    /// Encodes column `index` of the active level with the given masks.
    pub fn encode_vector(&mut self, index: usize, alpha: &GF128, beta_vector: &GF128Vector)
        requires
            level_fits(old(self).active_level, old(self).internal@.len()),
            index < old(self).active_level.max_part_size,
            old(self).active_level.threshold <= MAX_VECTOR_ELEMENTS,
            old(self).active_level.threshold <= beta_vector.storage().len(),
            covers(
                old(self).key_materials.vender_matrix.entries(),
                old(self).active_level.threshold as nat,
            ),
            old(self).tmp_vector.storage().len() == MAX_VECTOR_ELEMENTS,
        ensures
            final(self).blocks_spec() == encode_column(
                old(self).blocks_spec(),
                old(self).active_level,
                index as int,
                alpha@,
                beta_vector.storage(),
                old(self).key_materials.vender_matrix.entries(),
            ),
            final(self).internal@.len() == old(self).internal@.len(),
            final(self).tmp_vector.storage().len() == MAX_VECTOR_ELEMENTS,
            final(self).tmp_vector.true_size == old(self).tmp_vector.true_size,
            final(self).targted_threshold == old(self).targted_threshold,
            final(self).decryption_parts_stack == old(self).decryption_parts_stack,
            final(self).active_level == old(self).active_level,
            final(self).key_materials == old(self).key_materials,
            final(self).prp_cipher == old(self).prp_cipher,
    {
        encode_into(
            &mut self.internal,
            &self.active_level,
            index,
            alpha,
            beta_vector,
            &self.key_materials.vender_matrix,
            &mut self.tmp_vector,
        );
    }

    /// Decodes column `index` of the active level with the given masks: a
    /// full column with the principal decoding matrix, another with the
    /// secondary one.
    pub fn decode_vector(&mut self, index: usize, alpha: &GF128, inv_beta_vector: &GF128Vector)
        requires
            level_fits(old(self).active_level, old(self).internal@.len()),
            index < old(self).active_level.max_part_size,
            old(self).active_level.threshold <= MAX_VECTOR_ELEMENTS,
            old(self).active_level.threshold <= inv_beta_vector.storage().len(),
            covers(
                old(self).key_materials.principal_dec_matrice.entries(),
                old(self).active_level.threshold as nat,
            ),
            covers(
                old(self).key_materials.secondary_dec_matrice.entries(),
                (old(self).active_level.threshold - 1) as nat,
            ),
            old(self).tmp_vector.storage().len() == MAX_VECTOR_ELEMENTS,
        ensures
            final(self).blocks_spec() == decode_column(
                old(self).blocks_spec(),
                old(self).active_level,
                index as int,
                alpha@,
                inv_beta_vector.storage(),
                if index < old(self).active_level.last_part_size {
                    old(self).key_materials.principal_dec_matrice.entries()
                } else {
                    old(self).key_materials.secondary_dec_matrice.entries()
                },
            ),
            final(self).internal@.len() == old(self).internal@.len(),
            final(self).tmp_vector.storage().len() == MAX_VECTOR_ELEMENTS,
            final(self).tmp_vector.true_size == old(self).tmp_vector.true_size,
            final(self).targted_threshold == old(self).targted_threshold,
            final(self).decryption_parts_stack == old(self).decryption_parts_stack,
            final(self).active_level == old(self).active_level,
            final(self).key_materials == old(self).key_materials,
            final(self).prp_cipher == old(self).prp_cipher,
    {
        if index < self.active_level.last_part_size {
            decode_into(
                &mut self.internal,
                &self.active_level,
                index,
                alpha,
                inv_beta_vector,
                &self.key_materials.principal_dec_matrice,
                &mut self.tmp_vector,
            );
        } else {
            decode_into(
                &mut self.internal,
                &self.active_level,
                index,
                alpha,
                inv_beta_vector,
                &self.key_materials.secondary_dec_matrice,
                &mut self.tmp_vector,
            );
        }
    }

    /// Encrypts the buffer in place: every level is encoded from the top
    /// down, then the first block, with the IV added, goes through the cipher.
    pub fn encrypt(&mut self)
        requires
            old(self).wf(),
        ensures
            final(self).wf(),
            final(self).blocks_spec() == encrypt_spec(
                old(self).blocks_spec(),
                old(self).active_level,
                &old(self).key_materials,
                old(self).targted_threshold as nat,
                &old(self).prp_cipher,
            ),
            final(self).targted_threshold == old(self).targted_threshold,
            final(self).active_level == old(self).active_level,
            final(self).key_materials == old(self).key_materials,
            final(self).prp_cipher == old(self).prp_cipher,
    {
        let ghost before = self.blocks_spec();
        let ghost top = self.active_level;
        let ghost t_min = self.targted_threshold as nat;
        let ghost alpha = self.key_materials.alpha@;
        let ghost bv = self.key_materials.beta_vector.storage();
        let ghost vm = self.key_materials.vender_matrix.entries();
        let mut level = self.active_level;
        proof {
            lemma_top_level(self.internal@.len(), t_min);
        }
        while level.max_part_size > 1
            invariant
                self.wf(),
                self.targted_threshold == old(self).targted_threshold,
                self.active_level == old(self).active_level,
                self.key_materials == old(self).key_materials,
                self.prp_cipher == old(self).prp_cipher,
                self.internal@.len() == before.len(),
                t_min == self.targted_threshold,
                alpha == self.key_materials.alpha@,
                bv == self.key_materials.beta_vector.storage(),
                vm == self.key_materials.vender_matrix.entries(),
                level_fits(level, self.internal@.len()),
                level.max_part_size > 1 ==> level.threshold <= 2 * t_min - 2,
                encode_levels(self.blocks_spec(), level, alpha, bv, vm, t_min) == encode_levels(
                    before,
                    top,
                    alpha,
                    bv,
                    vm,
                    t_min,
                ),
            decreases level.max_part_size,
        {
            proof {
                lemma_next_level(level, t_min, self.internal@.len());
            }
            encode_level(
                &mut self.internal,
                &level,
                &self.key_materials.alpha,
                &self.key_materials.beta_vector,
                &self.key_materials.vender_matrix,
                &mut self.tmp_vector,
            );
            level.go_down(self.targted_threshold);
        }
        let last_level_block = self.get_block(0);
        let encrypted_last_block = last_level_block.addto(&self.key_materials.iv).prp_encrypt(
            &self.prp_cipher,
        );
        self.internal.set(0, encrypted_last_block);
        assert(self.blocks_spec() =~= encrypt_spec(
            before,
            top,
            &self.key_materials,
            t_min,
            &self.prp_cipher,
        ));
    }
}

/// Why a buffer could not be decrypted, or a key not be scheduled.
#[derive(Clone, Copy, Debug, PartialEq, Eq)]
pub enum CipherError {
    /// The Vandermonde matrix of the key has a singular leading block.
    SingularMatrix,
}

/// The buffer after decryption: the first block comes back through the
/// cipher and loses the IV, then every level is decoded from the bottom up.
pub open spec fn decrypt_spec(
    buf: Seq<u128>,
    level: LevelParams,
    scheme: &KeyScheme,
    t_min: nat,
    prp: &CommonCipher,
) -> Seq<u128> {
    decode_levels(
        buf.update(0, gf_add(prp.spec_decrypt(buf[0]), scheme.iv@)),
        level,
        scheme.alpha@,
        scheme.inv_beta_vector.storage(),
        scheme.vender_matrix.entries(),
        t_min,
    )
}

/// Whether the two key schedules differ in their decoding matrices at most.
pub open spec fn same_but_decoders(a: &KeyScheme, b: &KeyScheme) -> bool {
    &&& a.key == b.key
    &&& a.iv == b.iv
    &&& a.vender_matrix == b.vender_matrix
    &&& a.alpha == b.alpha
    &&& a.beta == b.beta
    &&& a.beta_vector == b.beta_vector
    &&& a.inv_beta_vector == b.inv_beta_vector
}

/// Whether the decoding matrices of the schedule are those of threshold `t`.
pub open spec fn decoders_of(scheme: &KeyScheme, t: nat) -> bool {
    &&& scheme.principal_dec_matrice.true_size == t
    &&& scheme.principal_dec_matrice.entries() == principal_of(scheme.vender_matrix.entries(), t)
    &&& scheme.secondary_dec_matrice.true_size == t - 1
    &&& scheme.secondary_dec_matrice.entries() == secondary_of(
        scheme.vender_matrix.entries(),
        t,
    )
}

/// A level that cannot be inverted makes every level above it fail as well.
pub proof fn lemma_not_invertible_above(
    vm: Seq<Seq<u128>>,
    top: LevelParams,
    t_min: nat,
    len: nat,
    depth: nat,
)
    requires
        forall|j: nat| j < depth ==> descends(#[trigger] level_at(top, t_min, j), t_min, len),
        !levels_invertible(vm, level_at(top, t_min, depth), t_min, len),
    ensures
        !levels_invertible(vm, top, t_min, len),
    decreases depth,
{
    if depth > 0 {
        let above = level_at(top, t_min, (depth - 1) as nat);
        assert(descends(above, t_min, len));
        assert(next_level(above, t_min) == level_at(top, t_min, depth));
        lemma_not_invertible_above(vm, top, t_min, len, (depth - 1) as nat);
    }
}

impl SSCipherCore {
    /// Decrypts the buffer in place: the first block comes back through the
    /// cipher and loses the IV, then every level is decoded from the bottom
    /// up with the inverses that fit its threshold. Where one of those
    /// inverses does not exist, nothing is changed and the error is returned.
    pub fn decrypt(&mut self) -> (r: Result<(), CipherError>)
        requires
            old(self).wf(),
        ensures
            final(self).wf(),
            r is Ok <==> levels_invertible(
                old(self).key_materials.vender_matrix.entries(),
                old(self).active_level,
                old(self).targted_threshold as nat,
                old(self).internal@.len(),
            ),
            r is Ok ==> final(self).blocks_spec() == decrypt_spec(
                old(self).blocks_spec(),
                old(self).active_level,
                &old(self).key_materials,
                old(self).targted_threshold as nat,
                &old(self).prp_cipher,
            ),
            r is Ok && old(self).active_level.max_part_size > 1 ==> decoders_of(
                &final(self).key_materials,
                old(self).active_level.threshold as nat,
            ),
            r is Ok && old(self).active_level.max_part_size <= 1 ==> final(self).key_materials
                == old(self).key_materials,
            r is Err ==> final(self).internal@ == old(self).internal@ && final(self).key_materials
                == old(self).key_materials,
            same_but_decoders(&final(self).key_materials, &old(self).key_materials),
            final(self).targted_threshold == old(self).targted_threshold,
            final(self).active_level == old(self).active_level,
            final(self).prp_cipher == old(self).prp_cipher,
    {
        let ghost before = self.blocks_spec();
        let ghost top = self.active_level;
        let ghost t_min = self.targted_threshold as nat;
        let ghost len = self.internal@.len();
        let ghost alpha = self.key_materials.alpha@;
        let ghost ibv = self.key_materials.inv_beta_vector.storage();
        let ghost vm = self.key_materials.vender_matrix.entries();
        let mut level = self.active_level;
        proof {
            lemma_top_level(len, t_min);
        }
        while level.max_part_size > 1
            invariant
                self.wf_but_stack(),
                self.internal@ == old(self).internal@,
                self.targted_threshold == old(self).targted_threshold,
                self.active_level == old(self).active_level,
                self.key_materials == old(self).key_materials,
                self.prp_cipher == old(self).prp_cipher,
                t_min == self.targted_threshold,
                len == self.internal@.len(),
                top == self.active_level,
                level == level_at(top, t_min, self.decryption_parts_stack@.len()),
                level_fits(level, len),
                forall|j: nat|
                    j < self.decryption_parts_stack@.len() ==> self.decryption_parts_stack@[j as int]
                        == #[trigger] level_at(top, t_min, j) && descends(
                        level_at(top, t_min, j),
                        t_min,
                        len,
                    ) && level_at(top, t_min, j).threshold <= 2 * t_min - 2,
                level.max_part_size > 1 ==> level.threshold <= 2 * t_min - 2,
            decreases level.max_part_size,
        {
            proof {
                lemma_next_level(level, t_min, len);
            }
            self.decryption_parts_stack.push(level);
            level.go_down(self.targted_threshold);
        }
        let depth = self.decryption_parts_stack.len();
        let mut j: usize = depth;
        while j > 0
            invariant
                j <= depth,
                depth == self.decryption_parts_stack@.len(),
                self.wf_but_stack(),
                self.internal@ == old(self).internal@,
                self.targted_threshold == old(self).targted_threshold,
                self.active_level == old(self).active_level,
                self.key_materials == old(self).key_materials,
                self.prp_cipher == old(self).prp_cipher,
                t_min == self.targted_threshold,
                len == self.internal@.len(),
                top == self.active_level,
                vm == self.key_materials.vender_matrix.entries(),
                forall|i: nat|
                    i < depth ==> self.decryption_parts_stack@[i as int] == #[trigger] level_at(
                        top,
                        t_min,
                        i,
                    ) && descends(level_at(top, t_min, i), t_min, len) && level_at(
                        top,
                        t_min,
                        i,
                    ).threshold <= 2 * t_min - 2,
                level_at(top, t_min, depth as nat).max_part_size <= 1,
                levels_invertible(vm, level_at(top, t_min, j as nat), t_min, len),
                forall|i: nat|
                    j <= i < depth ==> extensible(
                        vm,
                        vm.len(),
                        (#[trigger] level_at(top, t_min, i).threshold - 1) as nat,
                    ),
            decreases j,
        {
            j = j - 1;
            let checked = self.decryption_parts_stack[j];
            proof {
                assert(checked == level_at(top, t_min, j as nat));
                assert(next_level(checked, t_min) == level_at(top, t_min, (j + 1) as nat));
            }
            let inverse = self.key_materials.vender_matrix.invert_vandermonde(checked.threshold);
            if inverse.is_none() {
                proof {
                    lemma_not_invertible_above(vm, top, t_min, len, j as nat);
                }
                self.decryption_parts_stack.clear();
                return Err(CipherError::SingularMatrix);
            }
        }
        let first_level_block = self.get_block(0);
        let decrypted_first_block = first_level_block.prp_decrypt(&self.prp_cipher).addto(
            &self.key_materials.iv,
        );
        self.internal.set(0, decrypted_first_block);
        let ghost rooted = self.blocks_spec();
        assert(rooted =~= before.update(
            0,
            gf_add(self.prp_cipher.spec_decrypt(before[0]), self.key_materials.iv@),
        ));
        while self.decryption_parts_stack.len() > 0
            invariant
                self.decryption_parts_stack@.len() <= depth,
                self.wf_but_stack(),
                self.targted_threshold == old(self).targted_threshold,
                self.active_level == old(self).active_level,
                same_but_decoders(&self.key_materials, &old(self).key_materials),
                self.prp_cipher == old(self).prp_cipher,
                t_min == self.targted_threshold,
                len == self.internal@.len(),
                rooted.len() == len,
                top == self.active_level,
                alpha == self.key_materials.alpha@,
                ibv == self.key_materials.inv_beta_vector.storage(),
                vm == self.key_materials.vender_matrix.entries(),
                forall|i: nat|
                    i < self.decryption_parts_stack@.len() ==> self.decryption_parts_stack@[i as int]
                        == #[trigger] level_at(top, t_min, i),
                forall|i: nat|
                    i < depth ==> descends(#[trigger] level_at(top, t_min, i), t_min, len)
                        && level_at(top, t_min, i).threshold <= 2 * t_min - 2 && extensible(
                        vm,
                        vm.len(),
                        (level_at(top, t_min, i).threshold - 1) as nat,
                    ),
                level_at(top, t_min, depth as nat).max_part_size <= 1,
                self.blocks_spec() == decode_levels(
                    rooted,
                    level_at(top, t_min, self.decryption_parts_stack@.len()),
                    alpha,
                    ibv,
                    vm,
                    t_min,
                ),
                self.decryption_parts_stack@.len() == depth ==> self.key_materials == old(
                    self,
                ).key_materials,
                self.decryption_parts_stack@.len() < depth ==> decoders_of(
                    &self.key_materials,
                    level_at(
                        top,
                        t_min,
                        self.decryption_parts_stack@.len(),
                    ).threshold as nat,
                ),
            decreases self.decryption_parts_stack@.len(),
        {
            let popped = self.decryption_parts_stack.pop();
            let current = popped.unwrap();
            let ghost d = self.decryption_parts_stack@.len();
            proof {
                assert(current == level_at(top, t_min, d));
                assert(next_level(current, t_min) == level_at(top, t_min, d + 1));
                assert(descends(current, t_min, rooted.len()));
            }
            match self.key_materials.vender_matrix.invert_vandermonde_both(current.threshold) {
                None => {
                    assert(false);
                    return Err(CipherError::SingularMatrix);
                },
                Some((principal, secondary)) => {
                    self.key_materials.principal_dec_matrice = principal;
                    self.key_materials.secondary_dec_matrice = secondary;
                },
            }
            decode_level(
                &mut self.internal,
                &current,
                &self.key_materials.alpha,
                &self.key_materials.inv_beta_vector,
                &self.key_materials.principal_dec_matrice,
                &self.key_materials.secondary_dec_matrice,
                &mut self.tmp_vector,
            );
        }
        Ok(())
    }

    /// Whether the engine's cipher is of the named kind, keyed with the two
    /// words, and its key material is that of the two words and the IV.
    pub open spec fn keyed_with(&self, name: CipherName, first: u128, second: u128, iv: u128) -> bool {
        &&& self.prp_cipher.keyed_as(name, seq![first, second])
        &&& self.key_materials.derived_from(
            seq![first, second],
            iv,
            self.targted_threshold as nat,
            &self.prp_cipher,
        )
    }

    /// Everything that `wf` asks for but the empty stack of levels.
    pub open spec fn wf_but_stack(&self) -> bool {
        &&& 2 <= self.targted_threshold <= MAX_THRESHOLD
        &&& 1 <= self.internal@.len()
        &&& 16 * self.internal@.len() <= usize::MAX
        &&& self.active_level == top_level(self.internal@.len(), self.targted_threshold as nat)
        &&& self.key_materials.wf(self.targted_threshold as nat)
        &&& self.tmp_vector.storage().len() == MAX_VECTOR_ELEMENTS
    }
}

impl SSCipherCore {
    /// An engine over the packed input, with the given cipher and the key
    /// material of `key` and `iv`; `None` where that key has no key material.
    /// What `out_bytes` held is dropped: it only lends its storage.
    pub fn with_cipher(
        bytes: &[u8],
        in_length: usize,
        add_padd: bool,
        out_bytes: Vec<GF128>,
        targted_threshold: usize,
        prp_cipher: CommonCipher,
        key: &[GF128],
        iv: &GF128,
    ) -> (out: Option<SSCipherCore>)
        requires
            2 <= targted_threshold <= MAX_THRESHOLD,
            effective_length(bytes@, in_length as nat) <= bytes@.len(),
            effective_length(bytes@, in_length as nat) + 16 <= usize::MAX,
            block_count(effective_length(bytes@, in_length as nat), add_padd) >= 1,
            key@.len() >= 1,
        ensures
            out is Some <==> scheme_exists(words(key@), iv@, targted_threshold as nat, &prp_cipher),
            out matches Some(core) ==> {
                &&& core.wf()
                &&& core.targted_threshold == targted_threshold
                &&& core.prp_cipher == prp_cipher
                &&& core.blocks_spec() == packed_blocks(
                    bytes@,
                    effective_length(bytes@, in_length as nat),
                    add_padd,
                )
                &&& core.key_materials.derived_from(
                    words(key@),
                    iv@,
                    targted_threshold as nat,
                    &prp_cipher,
                )
            },
    {
        let length = if in_length == 0 {
            bytes.len()
        } else {
            in_length
        };
        let mut internal = out_bytes;
        pack_blocks(bytes, length, add_padd, &mut internal);
        let blocks_count = internal.len();
        assert(words(internal@) =~= packed_blocks(bytes@, length as nat, add_padd));
        let opt_params = fit_thresholds(blocks_count, targted_threshold);
        let active_level = LevelParams {
            start: 0,
            end: blocks_count - 1,
            blocks_count,
            threshold: opt_params.0,
            max_part_size: opt_params.1,
            last_part_size: blocks_count % opt_params.1,
        };
        let tmp_vector = GF128Vector::new(MAX_VECTOR_ELEMENTS);
        match generate_key_scheme(key, iv, targted_threshold, &prp_cipher) {
            None => None,
            Some(key_materials) => Some(
                SSCipherCore {
                    targted_threshold,
                    internal,
                    tmp_vector,
                    decryption_parts_stack: Vec::new(),
                    active_level,
                    key_materials,
                    prp_cipher,
                },
            ),
        }
    }

    /// An engine over the packed input with a cipher of the named kind,
    /// keyed with two random words, and the key material of those words and
    /// a random IV; `None` only where the words drawn have no key material
    /// under the IV drawn. A key and an IV of the caller's come in through
    /// `set_key_scheme`.
    pub fn new(
        bytes: &[u8],
        in_length: usize,
        add_padd: bool,
        out_bytes: Vec<GF128>,
        targted_threshold: usize,
        prp_name: CipherName,
    ) -> (out: Option<SSCipherCore>)
        requires
            2 <= targted_threshold <= MAX_THRESHOLD,
            effective_length(bytes@, in_length as nat) <= bytes@.len(),
            effective_length(bytes@, in_length as nat) + 16 <= usize::MAX,
            block_count(effective_length(bytes@, in_length as nat), add_padd) >= 1,
        ensures
            out matches Some(core) ==> {
                &&& core.wf()
                &&& core.targted_threshold == targted_threshold
                &&& core.blocks_spec() == packed_blocks(
                    bytes@,
                    effective_length(bytes@, in_length as nat),
                    add_padd,
                )
                &&& exists|first: u128, second: u128, iv: u128| #[trigger]
                    core.keyed_with(prp_name, first, second, iv)
            },
            out is None ==> exists|first: u128, second: u128, iv: u128, prp: CommonCipher| #[trigger]
                lacks_material(prp_name, targted_threshold as nat, first, second, iv, prp),
    {
        let key1 = GF128::random();
        let key2 = GF128::random();
        let iv = GF128::random();
        let cipher_key = [key1.to_u128(), key2.to_u128()];
        let prp_cipher = CommonCipher::newcipher(&prp_name, cipher_key.as_slice());
        let scheme_key = [key1, key2];
        proof {
            assert(cipher_key@ =~= seq![key1@, key2@]);
            assert(words(scheme_key@) =~= seq![key1@, key2@]);
            if scheme_exists(seq![key1@, key2@], iv@, targted_threshold as nat, &prp_cipher) {
            } else {
                assert(lacks_material(
                    prp_name,
                    targted_threshold as nat,
                    key1@,
                    key2@,
                    iv@,
                    prp_cipher,
                ));
            }
        }
        let out = Self::with_cipher(
            bytes,
            in_length,
            add_padd,
            out_bytes,
            targted_threshold,
            prp_cipher,
            scheme_key.as_slice(),
            &iv,
        );
        proof {
            if out is Some {
                assert(out->0.keyed_with(prp_name, key1@, key2@, iv@));
            }
        }
        out
    }

    /// Replaces the key material by that of `key` and `iv`, leaving the
    /// buffer as it is; where that key has no key material, nothing changes
    /// and the error is returned.
    pub fn set_key_scheme(&mut self, key: &[GF128], iv: &GF128) -> (r: Result<(), CipherError>)
        requires
            old(self).wf(),
            key@.len() >= 1,
        ensures
            final(self).wf(),
            r is Ok <==> scheme_exists(
                words(key@),
                iv@,
                old(self).targted_threshold as nat,
                &old(self).prp_cipher,
            ),
            r is Ok ==> final(self).key_materials.derived_from(
                words(key@),
                iv@,
                old(self).targted_threshold as nat,
                &old(self).prp_cipher,
            ),
            r is Err ==> final(self).key_materials == old(self).key_materials,
            final(self).internal@ == old(self).internal@,
            final(self).targted_threshold == old(self).targted_threshold,
            final(self).active_level == old(self).active_level,
            final(self).prp_cipher == old(self).prp_cipher,
    {
        match generate_key_scheme(key, iv, self.targted_threshold, &self.prp_cipher) {
            None => Err(CipherError::SingularMatrix),
            Some(scheme) => {
                self.key_materials = scheme;
                Ok(())
            },
        }
    }
}

} // verus!
