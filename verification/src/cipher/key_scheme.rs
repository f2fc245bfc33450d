//! The key schedule: everything that an engine derives from a key and an IV.

use crate::common_ciphers::CommonCipher;
use crate::field::{gf_inv, GF128, MAX_VECTOR_ELEMENTS};
use crate::matrix::{
    extensible, inverse_after, is_square, leading_block, zero_table, GF128Matrix,
};
use crate::vandermonde::{distinct_upto, is_vandermonde, lemma_invertible_iff_distinct};
use crate::vector::{derive_spec, power_storage, powers, GF128Vector};
use vstd::prelude::*;

verus! {

/// The largest threshold whose key schedule fits the vectors' capacity.
pub const MAX_THRESHOLD: usize = 15;

/// The key material of one key, IV and threshold.
pub struct KeyScheme {
    pub key: [GF128; 2],
    pub iv: GF128,
    pub vender_matrix: GF128Matrix,
    pub principal_dec_matrice: GF128Matrix,
    pub secondary_dec_matrice: GF128Matrix,
    pub alpha: GF128,
    pub beta: GF128,
    pub beta_vector: GF128Vector,
    pub inv_beta_vector: GF128Vector,
}

/// The key that the derivations run on: a single key word as it is, the
/// first of several after decryption by the cipher.
pub open spec fn derivation_key(key: Seq<u128>, prp: &CommonCipher) -> u128 {
    if key.len() == 1 {
        key[0]
    } else {
        prp.spec_decrypt(key[0])
    }
}

/// The evaluation points of a key: derivations 0 to 2 * threshold - 2.
pub open spec fn evaluation_points(
    key: Seq<u128>,
    iv: u128,
    threshold: nat,
    prp: &CommonCipher,
) -> Seq<u128> {
    Seq::new(
        (2 * threshold - 1) as nat,
        |j: int| derive_spec(prp, derivation_key(key, prp), iv, j as u64),
    )
}

/// The Vandermonde matrix of the evaluation points.
pub open spec fn vandermonde_of(points: Seq<u128>) -> Seq<Seq<u128>> {
    Seq::new(points.len(), |i: int| powers(points[i], points.len()))
}

/// The Vandermonde matrix of some points is a Vandermonde matrix.
pub proof fn lemma_vandermonde_of(points: Seq<u128>)
    ensures
        is_vandermonde(vandermonde_of(points), points, points.len()),
{
}

/// The additive mask of a key.
pub open spec fn alpha_of(key: Seq<u128>, iv: u128, threshold: nat, prp: &CommonCipher) -> u128 {
    derive_spec(prp, derivation_key(key, prp), iv, (2 * threshold) as u64)
}

/// The multiplicative mask of a key.
pub open spec fn beta_of(key: Seq<u128>, iv: u128, threshold: nat, prp: &CommonCipher) -> u128 {
    derive_spec(prp, derivation_key(key, prp), iv, (2 * threshold + 1) as u64)
}

/// The storage with its first `n` items inverted.
pub open spec fn inverted_items(v: Seq<u128>, n: nat) -> Seq<u128> {
    Seq::new(
        v.len(),
        |i: int|
            if i < n {
                gf_inv(v[i])
            } else {
                v[i]
            },
    )
}

/// Whether the Vandermonde matrix of the key can be inverted up to the threshold.
pub open spec fn scheme_exists(key: Seq<u128>, iv: u128, threshold: nat, prp: &CommonCipher) -> bool {
    extensible(
        vandermonde_of(evaluation_points(key, iv, threshold, prp)),
        (2 * threshold - 1) as nat,
        (threshold - 1) as nat,
    )
}

impl KeyScheme {
    /// The matrices and vectors are well formed and large enough for every
    /// level that `threshold` as minimum can lead to.
    pub open spec fn wf(&self, threshold: nat) -> bool {
        &&& 1 <= threshold <= MAX_THRESHOLD
        &&& self.vender_matrix.wf()
        &&& self.vender_matrix.true_size == 2 * threshold - 1
        &&& is_square(self.vender_matrix.entries(), (2 * threshold - 1) as nat)
        &&& self.principal_dec_matrice.wf()
        &&& self.secondary_dec_matrice.wf()
        &&& self.beta_vector.wf()
        &&& self.beta_vector.true_size == 2 * threshold - 1
        &&& self.beta_vector.storage().len() == MAX_VECTOR_ELEMENTS
        &&& self.inv_beta_vector.wf()
        &&& self.inv_beta_vector.true_size == 2 * threshold - 1
        &&& self.inv_beta_vector.storage().len() == MAX_VECTOR_ELEMENTS
    }

    /// Whether this is the key material of `key`, `iv` and `threshold` under `prp`.
    pub open spec fn derived_from(
        &self,
        key: Seq<u128>,
        iv: u128,
        threshold: nat,
        prp: &CommonCipher,
    ) -> bool {
        let order = (2 * threshold - 1) as nat;
        let vm = vandermonde_of(evaluation_points(key, iv, threshold, prp));
        &&& self.key@[0]@ == key[0]
        &&& self.key@[1]@ == if key.len() == 1 {
            key[0]
        } else {
            key[1]
        }
        &&& self.iv@ == iv
        &&& self.vender_matrix.entries() == vm
        &&& self.alpha@ == alpha_of(key, iv, threshold, prp)
        &&& self.beta@ == beta_of(key, iv, threshold, prp)
        &&& self.beta_vector.storage() == power_storage(self.beta@, order)
        &&& self.inv_beta_vector.storage() == inverted_items(
            power_storage(self.beta@, order),
            order,
        )
        &&& self.principal_dec_matrice.true_size == threshold
        &&& self.principal_dec_matrice.entries() == inverse_after(
            vm,
            order,
            (threshold - 1) as nat,
        )
        &&& self.secondary_dec_matrice.true_size == threshold - 1
        &&& self.secondary_dec_matrice.entries() == if threshold == 1 {
            zero_table(order)
        } else {
            leading_block(
                inverse_after(vm, order, (threshold - 2) as nat),
                (threshold - 1) as nat,
            )
        }
    }
}

/// The words of a slice of field elements.
pub open spec fn words(key: Seq<GF128>) -> Seq<u128> {
    Seq::new(key.len(), |i: int| key[i]@)
}

/// Derives the key material of `key` and `iv` for the threshold; `None`
/// where the Vandermonde matrix of the evaluation points cannot be inverted
/// up to the threshold, which is where two of the first `threshold`
/// evaluation points are equal.
pub fn generate_key_scheme(key: &[GF128], iv: &GF128, threshold: usize, prp: &CommonCipher) -> (out:
    Option<KeyScheme>)
    requires
        key@.len() >= 1,
        1 <= threshold <= MAX_THRESHOLD,
    ensures
        out is Some <==> scheme_exists(words(key@), iv@, threshold as nat, prp),
        out is Some <==> distinct_upto(
            evaluation_points(words(key@), iv@, threshold as nat, prp),
            (threshold - 1) as nat,
        ),
        out matches Some(scheme) ==> scheme.wf(threshold as nat) && scheme.derived_from(
            words(key@),
            iv@,
            threshold as nat,
            prp,
        ),
{
    let derivation = if key.len() == 1 {
        key[0]
    } else {
        key[0].prp_decrypt(prp)
    };
    let iv_vec = GF128Vector::vec_from_iv(&derivation, iv, threshold, prp);
    let vender_matrix = GF128Matrix::vandermonde(&iv_vec);
    let alpha = GF128Vector::alpha_from_iv(&derivation, iv, threshold, prp);
    let beta = GF128Vector::beta_from_iv(&derivation, iv, threshold, prp);
    let beta_vector = GF128Vector::beta_vector(&beta, 2 * threshold - 1);
    let mut inv_beta_vector = beta_vector.clone();
    let count = inv_beta_vector.true_size;
    let mut i: usize = 0;
    while i < count
        invariant
            i <= count,
            count == 2 * threshold - 1,
            count <= MAX_VECTOR_ELEMENTS,
            inv_beta_vector.true_size == count,
            beta_vector.storage().len() == MAX_VECTOR_ELEMENTS,
            inv_beta_vector.storage() =~= inverted_items(beta_vector.storage(), i as nat),
        decreases count - i,
    {
        let inverse = inv_beta_vector.get(i).invert();
        inv_beta_vector.set(i, inverse);
        i = i + 1;
    }
    proof {
        assert(words(key@)[0] == key@[0]@);
        assert(vender_matrix.entries() =~~= vandermonde_of(
            evaluation_points(words(key@), iv@, threshold as nat, prp),
        ));
        assert(is_square(vender_matrix.entries(), (2 * threshold - 1) as nat));
        lemma_vandermonde_of(evaluation_points(words(key@), iv@, threshold as nat, prp));
        lemma_invertible_iff_distinct(
            vender_matrix.entries(),
            evaluation_points(words(key@), iv@, threshold as nat, prp),
            (2 * threshold - 1) as nat,
            (threshold - 1) as nat,
        );
    }
    match vender_matrix.invert_vandermonde_both(threshold) {
        None => None,
        Some((principal_dec_matrice, secondary_dec_matrice)) => {
            let stored = if key.len() == 1 {
                [key[0], key[0]]
            } else {
                [key[0], key[1]]
            };
            Some(
                KeyScheme {
                    key: stored,
                    iv: *iv,
                    vender_matrix,
                    principal_dec_matrice,
                    secondary_dec_matrice,
                    alpha,
                    beta,
                    beta_vector,
                    inv_beta_vector,
                },
            )
        },
    }
}

} // verus!
