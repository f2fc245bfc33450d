//! Camellia with a 128-bit key, computed by the `camellia` crate.

use super::CipherInterface;
use ::camellia::cipher::{Array, BlockCipherDecrypt, BlockCipherEncrypt, KeyInit};
use vstd::prelude::*;

verus! {

/// The block that Camellia encryption under `key` makes of `block`, both read
/// as sixteen bytes with the highest first.
pub uninterp spec fn camellia128_encrypted(key: u128, block: u128) -> u128;

/// The block that Camellia decryption under `key` makes of `block`, both read
/// as sixteen bytes with the highest first.
pub uninterp spec fn camellia128_decrypted(key: u128, block: u128) -> u128;

/// `Camellia128::new` and `encrypt_block` of the `camellia` crate on the
/// big-endian bytes of `key` and `block`. The result is named; as the
/// crate documents, decryption under the same key takes it back to `block`.
#[verifier::external_body]
fn camellia128_encrypt(key: u128, block: u128) -> (out: u128)
    ensures
        out == camellia128_encrypted(key, block),
        camellia128_decrypted(key, out) == block,
{
    let cipher = ::camellia::Camellia128::new(&Array::from(key.to_be_bytes()));
    let mut buffer = Array::from(block.to_be_bytes());
    cipher.encrypt_block(&mut buffer);
    u128::from_be_bytes(buffer.into())
}

/// `Camellia128::new` and `decrypt_block` of the `camellia` crate on the
/// big-endian bytes of `key` and `block`. The result is named.
#[verifier::external_body]
fn camellia128_decrypt(key: u128, block: u128) -> (out: u128)
    ensures
        out == camellia128_decrypted(key, block),
{
    let cipher = ::camellia::Camellia128::new(&Array::from(key.to_be_bytes()));
    let mut buffer = Array::from(block.to_be_bytes());
    cipher.decrypt_block(&mut buffer);
    u128::from_be_bytes(buffer.into())
}

/// Camellia keyed with one 128-bit word.
pub struct Camellia {
    pub key: u128,
}

impl CipherInterface for Camellia {
    type Cipher = Camellia;

    open spec fn spec_encrypt(&self, input: u128) -> u128 {
        camellia128_encrypted(self.key, input)
    }

    open spec fn spec_decrypt(&self, input: u128) -> u128 {
        camellia128_decrypted(self.key, input)
    }

    open spec fn key_length() -> nat {
        1
    }

    /// The cipher keyed with `key[0]`.
    fn new(key: &[u128]) -> (cipher: Camellia)
        ensures
            cipher.key == key@[0],
    {
        Camellia { key: key[0] }
    }

    fn encrypt_block(&self, input: u128) -> (output: u128) {
        camellia128_encrypt(self.key, input)
    }

    fn decrypt_block(&self, input: u128) -> (output: u128) {
        camellia128_decrypt(self.key, input)
    }

    open spec fn spec_name() -> Seq<char> {
        "CAMELLIA"@
    }

    fn name(&self) -> (name: &'static str) {
        "CAMELLIA"
    }

    fn level(&self) -> (bits: u16) {
        128
    }
}

} // verus!
