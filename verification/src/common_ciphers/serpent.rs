//! Serpent with a 128-bit key, computed by the `serpent` crate.

use super::CipherInterface;
use ::serpent::cipher::{Array, BlockCipherDecrypt, BlockCipherEncrypt, KeyInit};
use vstd::prelude::*;

verus! {

/// The block that Serpent encryption under `key` makes of `block`, both read
/// as sixteen bytes with the highest first.
pub uninterp spec fn serpent128_encrypted(key: u128, block: u128) -> u128;

/// The block that Serpent decryption under `key` makes of `block`, both read
/// as sixteen bytes with the highest first.
pub uninterp spec fn serpent128_decrypted(key: u128, block: u128) -> u128;

/// `Serpent::new` and `encrypt_block` of the `serpent` crate on the
/// big-endian bytes of `key` and `block`. The result is named; as the
/// crate documents, decryption under the same key takes it back to `block`.
#[verifier::external_body]
fn serpent128_encrypt(key: u128, block: u128) -> (out: u128)
    ensures
        out == serpent128_encrypted(key, block),
        serpent128_decrypted(key, out) == block,
{
    let cipher = ::serpent::Serpent::new(&Array::from(key.to_be_bytes()));
    let mut buffer = Array::from(block.to_be_bytes());
    cipher.encrypt_block(&mut buffer);
    u128::from_be_bytes(buffer.into())
}

/// `Serpent::new` and `decrypt_block` of the `serpent` crate on the
/// big-endian bytes of `key` and `block`. The result is named.
#[verifier::external_body]
fn serpent128_decrypt(key: u128, block: u128) -> (out: u128)
    ensures
        out == serpent128_decrypted(key, block),
{
    let cipher = ::serpent::Serpent::new(&Array::from(key.to_be_bytes()));
    let mut buffer = Array::from(block.to_be_bytes());
    cipher.decrypt_block(&mut buffer);
    u128::from_be_bytes(buffer.into())
}

/// Serpent keyed with one 128-bit word.
pub struct Serpent128 {
    pub key: u128,
}

impl CipherInterface for Serpent128 {
    type Cipher = Serpent128;

    open spec fn spec_encrypt(&self, input: u128) -> u128 {
        serpent128_encrypted(self.key, input)
    }

    open spec fn spec_decrypt(&self, input: u128) -> u128 {
        serpent128_decrypted(self.key, input)
    }

    open spec fn key_length() -> nat {
        1
    }

    /// The cipher keyed with `key[0]`.
    fn new(key: &[u128]) -> (cipher: Serpent128)
        ensures
            cipher.key == key@[0],
    {
        Serpent128 { key: key[0] }
    }

    fn encrypt_block(&self, input: u128) -> (output: u128) {
        serpent128_encrypt(self.key, input)
    }

    fn decrypt_block(&self, input: u128) -> (output: u128) {
        serpent128_decrypt(self.key, input)
    }

    open spec fn spec_name() -> Seq<char> {
        "SERPENT"@
    }

    fn name(&self) -> (name: &'static str) {
        "SERPENT"
    }

    fn level(&self) -> (bits: u16) {
        128
    }
}

} // verus!
