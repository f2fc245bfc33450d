//! CAST5 with a 128-bit key, computed by the `cast5` crate. Its blocks are
//! 64 bits wide: the two halves of a 128-bit block are encrypted one by one.

use super::xtea::{
    block_of, halves_of, join_block, lemma_block_rejoin, split_block,
};
use super::CipherInterface;
use ::cast5::cipher::{Array, BlockCipherDecrypt, BlockCipherEncrypt, KeyInit};
use vstd::prelude::*;

verus! {

/// The block that CAST5 encryption under `key` makes of `block`, the key
/// read as sixteen and the block as eight bytes with the highest first.
pub uninterp spec fn cast5_encrypted(key: u128, block: u64) -> u64;

/// The block that CAST5 decryption under `key` makes of `block`, the key
/// read as sixteen and the block as eight bytes with the highest first.
pub uninterp spec fn cast5_decrypted(key: u128, block: u64) -> u64;

/// `Cast5::new` and `encrypt_block` of the `cast5` crate on the big-endian
/// bytes of `key` and `block`. The result is named; as the crate documents,
/// decryption under the same key takes it back to `block`.
#[verifier::external_body]
fn cast5_encrypt(key: u128, block: u64) -> (out: u64)
    ensures
        out == cast5_encrypted(key, block),
        cast5_decrypted(key, out) == block,
{
    let cipher = ::cast5::Cast5::new(&Array::from(key.to_be_bytes()));
    let mut buffer = Array::from(block.to_be_bytes());
    cipher.encrypt_block(&mut buffer);
    u64::from_be_bytes(buffer.into())
}

/// `Cast5::new` and `decrypt_block` of the `cast5` crate on the big-endian
/// bytes of `key` and `block`. The result is named.
#[verifier::external_body]
fn cast5_decrypt(key: u128, block: u64) -> (out: u64)
    ensures
        out == cast5_decrypted(key, block),
{
    let cipher = ::cast5::Cast5::new(&Array::from(key.to_be_bytes()));
    let mut buffer = Array::from(block.to_be_bytes());
    cipher.decrypt_block(&mut buffer);
    u64::from_be_bytes(buffer.into())
}

/// CAST5 keyed with one 128-bit word.
pub struct Cast {
    pub key: u128,
}

impl CipherInterface for Cast {
    type Cipher = Cast;

    open spec fn spec_encrypt(&self, input: u128) -> u128 {
        join_block(
            cast5_encrypted(self.key, split_block(input).0),
            cast5_encrypted(self.key, split_block(input).1),
        )
    }

    open spec fn spec_decrypt(&self, input: u128) -> u128 {
        join_block(
            cast5_decrypted(self.key, split_block(input).0),
            cast5_decrypted(self.key, split_block(input).1),
        )
    }

    open spec fn key_length() -> nat {
        1
    }

    /// The cipher keyed with `key[0]`.
    fn new(key: &[u128]) -> (cipher: Cast)
        ensures
            cipher.key == key@[0],
    {
        Cast { key: key[0] }
    }

    fn encrypt_block(&self, input: u128) -> (output: u128) {
        let (high, low) = halves_of(input);
        let a1 = cast5_encrypt(self.key, low);
        let a2 = cast5_encrypt(self.key, high);
        proof {
            lemma_block_rejoin(a2, a1);
            super::xtea::lemma_block_split(input);
        }
        block_of(a2, a1)
    }

    fn decrypt_block(&self, input: u128) -> (output: u128) {
        let (high, low) = halves_of(input);
        let a1 = cast5_decrypt(self.key, low);
        let a2 = cast5_decrypt(self.key, high);
        block_of(a2, a1)
    }

    open spec fn spec_name() -> Seq<char> {
        "Cast"@
    }

    fn name(&self) -> (name: &'static str) {
        "Cast"
    }

    fn level(&self) -> (bits: u16) {
        128
    }
}

} // verus!
