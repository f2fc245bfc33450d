//! AES with a 128-bit key, computed by the `aes` crate.

use super::CipherInterface;
use ::aes::cipher::{Array, BlockCipherDecrypt, BlockCipherEncrypt, KeyInit};
use vstd::prelude::*;

verus! {

/// The block that AES encryption under `key` makes of `block`, both read
/// as sixteen bytes with the highest first.
pub uninterp spec fn aes128_encrypted(key: u128, block: u128) -> u128;

/// The block that AES decryption under `key` makes of `block`, both read
/// as sixteen bytes with the highest first.
pub uninterp spec fn aes128_decrypted(key: u128, block: u128) -> u128;

/// `Aes128::new` and `encrypt_block` of the `aes` crate on the
/// big-endian bytes of `key` and `block`. The result is named; as the
/// crate documents, decryption under the same key takes it back to `block`.
#[verifier::external_body]
fn aes128_encrypt(key: u128, block: u128) -> (out: u128)
    ensures
        out == aes128_encrypted(key, block),
        aes128_decrypted(key, out) == block,
{
    let cipher = ::aes::Aes128::new(&Array::from(key.to_be_bytes()));
    let mut buffer = Array::from(block.to_be_bytes());
    cipher.encrypt_block(&mut buffer);
    u128::from_be_bytes(buffer.into())
}

/// `Aes128::new` and `decrypt_block` of the `aes` crate on the
/// big-endian bytes of `key` and `block`. The result is named.
#[verifier::external_body]
fn aes128_decrypt(key: u128, block: u128) -> (out: u128)
    ensures
        out == aes128_decrypted(key, block),
{
    let cipher = ::aes::Aes128::new(&Array::from(key.to_be_bytes()));
    let mut buffer = Array::from(block.to_be_bytes());
    cipher.decrypt_block(&mut buffer);
    u128::from_be_bytes(buffer.into())
}

/// AES keyed with one 128-bit word.
pub struct AES128 {
    pub key: u128,
}

impl CipherInterface for AES128 {
    type Cipher = AES128;

    open spec fn spec_encrypt(&self, input: u128) -> u128 {
        aes128_encrypted(self.key, input)
    }

    open spec fn spec_decrypt(&self, input: u128) -> u128 {
        aes128_decrypted(self.key, input)
    }

    open spec fn key_length() -> nat {
        1
    }

    /// The cipher keyed with `key[0]`.
    fn new(key: &[u128]) -> (cipher: AES128)
        ensures
            cipher.key == key@[0],
    {
        AES128 { key: key[0] }
    }

    fn encrypt_block(&self, input: u128) -> (output: u128) {
        aes128_encrypt(self.key, input)
    }

    fn decrypt_block(&self, input: u128) -> (output: u128) {
        aes128_decrypt(self.key, input)
    }

    open spec fn spec_name() -> Seq<char> {
        "AES128"@
    }

    fn name(&self) -> (name: &'static str) {
        "AES128"
    }

    fn level(&self) -> (bits: u16) {
        128
    }
}

} // verus!
