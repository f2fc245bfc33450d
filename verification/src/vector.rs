//! Vectors of field elements with a fixed inline capacity, and the vectors
//! and scalars that a key schedule derives from a key and an IV.

use crate::common_ciphers::CommonCipher;
use crate::field::{
    gf_inv, gf_mul, gf_pow, lemma_mul_commutative, lemma_mul_one, GF128, MAX_VECTOR_ELEMENTS,
};
use crate::storage::{row_clone, row_get, row_items, row_len, row_new, row_push, row_set, Row};
use vstd::prelude::*;

verus! {

/// The constant mixed into every derivation input.
pub const MIX_CONSTANT: u128 = 0x9E37_79B9_79B9_D373;

/// `x` rotated left by `n` bits, for `n` between 1 and 127.
pub open spec fn rotate_left(x: u128, n: u32) -> u128 {
    (x << n) | (x >> ((128 - n) as u32))
}

/// The block that derivation number `index` hands to the cipher.
pub open spec fn derive_input(key: u128, iv: u128, index: u64) -> u128 {
    rotate_left((rotate_left(key ^ iv, 11) ^ MIX_CONSTANT) ^ (index as u128), 5)
}

/// The element that derivation number `index` yields under `prp`.
pub open spec fn derive_spec(prp: &CommonCipher, key: u128, iv: u128, index: u64) -> u128 {
    prp.spec_encrypt(derive_input(key, iv, index))
}

/// The first `n` powers of `base`, starting with the zeroth.
pub open spec fn powers(base: u128, n: nat) -> Seq<u128> {
    Seq::new(n, |i: int| gf_pow(base, i as nat))
}

/// Storage that begins with the first `n` powers of `base`, at least two of
/// them, and is zero behind them.
pub open spec fn power_storage(base: u128, n: nat) -> Seq<u128> {
    Seq::new(
        MAX_VECTOR_ELEMENTS as nat,
        |i: int|
            if i < n || i < 2 {
                gf_pow(base, i as nat)
            } else {
                0
            },
    )
}

/// A sequence of field elements: `elements` holds the storage, of which the
/// first `true_size` items are the vector.
pub struct GF128Vector {
    pub elements: Row,
    pub true_size: usize,
}

impl View for GF128Vector {
    type V = Seq<u128>;

    /// The logical elements of the vector.
    open spec fn view(&self) -> Seq<u128> {
        self.storage().take(self.true_size as int)
    }
}

impl Clone for GF128Vector {
    fn clone(&self) -> (copy: GF128Vector)
        ensures
            copy.storage() == self.storage(),
            copy.true_size == self.true_size,
    {
        GF128Vector { elements: row_clone(&self.elements), true_size: self.true_size }
    }
}

impl GF128Vector {
    /// Everything the storage holds, the logical elements first.
    pub open spec fn storage(&self) -> Seq<u128> {
        row_items(self.elements)
    }

    /// The logical length does not exceed the storage, nor the storage its capacity.
    pub open spec fn wf(&self) -> bool {
        &&& self.true_size <= self.storage().len()
        &&& self.storage().len() <= MAX_VECTOR_ELEMENTS
    }

    /// A vector of `true_size` zeros, with full storage behind it.
    pub fn new(true_size: usize) -> (v: GF128Vector)
        requires
            true_size <= MAX_VECTOR_ELEMENTS,
        ensures
            v.wf(),
            v.true_size == true_size,
            v.storage() == Seq::new(MAX_VECTOR_ELEMENTS as nat, |i: int| 0u128),
    {
        let mut elements = row_new();
        let mut i: usize = 0;
        while i < MAX_VECTOR_ELEMENTS
            invariant
                i <= MAX_VECTOR_ELEMENTS,
                row_items(elements) == Seq::new(i as nat, |k: int| 0u128),
            decreases MAX_VECTOR_ELEMENTS - i,
        {
            row_push(&mut elements, 0);
            i = i + 1;
        }
        GF128Vector { elements, true_size }
    }

    /// A vector of `true_size` random elements, with random storage behind it.
    pub fn random(true_size: usize) -> (v: GF128Vector)
        requires
            true_size <= MAX_VECTOR_ELEMENTS,
        ensures
            v.wf(),
            v.true_size == true_size,
            v.storage().len() == MAX_VECTOR_ELEMENTS,
    {
        let mut elements = row_new();
        let mut i: usize = 0;
        while i < MAX_VECTOR_ELEMENTS
            invariant
                i <= MAX_VECTOR_ELEMENTS,
                row_items(elements).len() == i,
            decreases MAX_VECTOR_ELEMENTS - i,
        {
            let item = GF128::random();
            row_push(&mut elements, item.to_u128());
            i = i + 1;
        }
        GF128Vector { elements, true_size }
    }

    /// The number of items in the storage.
    pub fn capacity(&self) -> (n: usize)
        ensures
            n == self.storage().len(),
    {
        row_len(&self.elements)
    }

    /// The item at `index` of the storage.
    pub fn get(&self, index: usize) -> (item: GF128)
        requires
            index < self.storage().len(),
        ensures
            item@ == self.storage()[index as int],
    {
        GF128 { value: row_get(&self.elements, index) }
    }

    /// Replaces the item at `index` of the storage.
    pub fn set(&mut self, index: usize, item: GF128)
        requires
            index < old(self).storage().len(),
        ensures
            final(self).storage() == old(self).storage().update(index as int, item@),
            final(self).true_size == old(self).true_size,
    {
        row_set(&mut self.elements, index, item.to_u128());
    }

    /// Derivation number `index` from a key and an IV: both are mixed with the
    /// index and the result is encrypted.
    pub fn derive_iv(key: &GF128, iv: &GF128, index: u64, prp: &CommonCipher) -> (r: GF128)
        ensures
            r@ == derive_spec(prp, key@, iv@, index),
    {
        let mut mix: u128 = key.addto(iv).to_u128();
        mix = (mix << 11u32) | (mix >> 117u32);
        mix = mix ^ MIX_CONSTANT;
        mix = mix ^ (index as u128);
        mix = (mix << 5u32) | (mix >> 123u32);
        GF128 { value: mix }.prp_encrypt(prp)
    }

    /// The evaluation points of a key: derivations 0 to 2 * threshold - 2.
    pub fn vec_from_iv(key: &GF128, initial_iv: &GF128, threshold: usize, prp: &CommonCipher) -> (v:
        GF128Vector)
        requires
            1 <= threshold,
            2 * threshold - 1 <= MAX_VECTOR_ELEMENTS,
        ensures
            v.wf(),
            v.true_size == 2 * threshold - 1,
            v.storage() == Seq::new(
                (2 * threshold - 1) as nat,
                |j: int| derive_spec(prp, key@, initial_iv@, j as u64),
            ),
    {
        let count = 2 * threshold - 1;
        let mut elements = row_new();
        let mut j: usize = 0;
        while j < count
            invariant
                j <= count,
                count <= MAX_VECTOR_ELEMENTS,
                row_items(elements) == Seq::new(
                    j as nat,
                    |k: int| derive_spec(prp, key@, initial_iv@, k as u64),
                ),
            decreases count - j,
        {
            let item = Self::derive_iv(key, initial_iv, j as u64, prp);
            row_push(&mut elements, item.to_u128());
            j = j + 1;
        }
        GF128Vector { elements, true_size: count }
    }

    /// The additive mask of a key: derivation number 2 * threshold.
    pub fn alpha_from_iv(key: &GF128, initial_iv: &GF128, threshold: usize, prp: &CommonCipher) -> (r:
        GF128)
        requires
            2 * threshold + 1 <= usize::MAX,
        ensures
            r@ == derive_spec(prp, key@, initial_iv@, (2 * threshold) as u64),
    {
        Self::derive_iv(key, initial_iv, (2 * threshold) as u64, prp)
    }

    /// The multiplicative mask of a key: derivation number 2 * threshold + 1.
    pub fn beta_from_iv(key: &GF128, initial_iv: &GF128, threshold: usize, prp: &CommonCipher) -> (r:
        GF128)
        requires
            2 * threshold + 1 <= usize::MAX,
        ensures
            r@ == derive_spec(prp, key@, initial_iv@, (2 * threshold + 1) as u64),
    {
        Self::derive_iv(key, initial_iv, (2 * threshold + 1) as u64, prp)
    }

    /// The first `size` powers of `beta`, built by repeated multiplication.
    pub fn beta_vector(beta: &GF128, size: usize) -> (v: GF128Vector)
        requires
            size <= MAX_VECTOR_ELEMENTS,
        ensures
            v.wf(),
            v.true_size == size,
            v.storage() == power_storage(beta@, size as nat),
            v@ == powers(beta@, size as nat),
    {
        let mut result = GF128Vector::new(size);
        result.set(0, GF128 { value: 1 });
        result.set(1, *beta);
        proof {
            lemma_mul_one(beta@);
            assert(gf_pow(beta@, 1) == gf_mul(beta@, gf_pow(beta@, 0)));
        }
        let mut i: usize = 2;
        while i < size
            invariant
                2 <= i,
                i <= size || i == 2,
                size <= MAX_VECTOR_ELEMENTS,
                result.true_size == size,
                result.storage() =~= power_storage(beta@, i as nat),
            decreases size - i,
        {
            let next = result.get(i - 1).multiply(beta);
            proof {
                lemma_mul_commutative(gf_pow(beta@, (i - 1) as nat), beta@);
            }
            result.set(i, next);
            i = i + 1;
        }
        assert(result.storage() =~= power_storage(beta@, size as nat));
        assert(result@ =~= powers(beta@, size as nat));
        result
    }

    /// The first `size` powers of the inverse of `beta`.
    pub fn inv_beta_vector(beta: &GF128, size: usize) -> (v: GF128Vector)
        requires
            size <= MAX_VECTOR_ELEMENTS,
        ensures
            v.wf(),
            v.true_size == size,
            v.storage() == power_storage(gf_inv(beta@), size as nat),
            v@ == powers(gf_inv(beta@), size as nat),
    {
        let inverse = beta.invert();
        Self::beta_vector(&inverse, size)
    }
}

} // verus!
