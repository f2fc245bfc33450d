//! ARIA with a 256-bit key, computed by the `aria` crate.

use super::{wide_key, wide_key_bytes, CipherInterface};
use ::aria::cipher::{Array, BlockCipherDecrypt, BlockCipherEncrypt, KeyInit};
use vstd::prelude::*;

verus! {

/// The block that ARIA encryption under the 32 key bytes makes of
/// `block`, the block read as sixteen bytes with the highest first.
pub uninterp spec fn aria256_encrypted(key: Seq<u8>, block: u128) -> u128;

/// The block that ARIA decryption under the 32 key bytes makes of
/// `block`, the block read as sixteen bytes with the highest first.
pub uninterp spec fn aria256_decrypted(key: Seq<u8>, block: u128) -> u128;

/// `Aria256::new` and `encrypt_block` of the `aria` crate on the key
/// bytes and the big-endian bytes of `block`. The result is named; as the
/// crate documents, decryption under the same key takes it back to `block`.
#[verifier::external_body]
fn aria256_encrypt(key: &[u8; 32], block: u128) -> (out: u128)
    ensures
        out == aria256_encrypted(key@, block),
        aria256_decrypted(key@, out) == block,
{
    let cipher = ::aria::Aria256::new(&Array::from(*key));
    let mut buffer = Array::from(block.to_be_bytes());
    cipher.encrypt_block(&mut buffer);
    u128::from_be_bytes(buffer.into())
}

/// `Aria256::new` and `decrypt_block` of the `aria` crate on the key
/// bytes and the big-endian bytes of `block`. The result is named.
#[verifier::external_body]
fn aria256_decrypt(key: &[u8; 32], block: u128) -> (out: u128)
    ensures
        out == aria256_decrypted(key@, block),
{
    let cipher = ::aria::Aria256::new(&Array::from(*key));
    let mut buffer = Array::from(block.to_be_bytes());
    cipher.decrypt_block(&mut buffer);
    u128::from_be_bytes(buffer.into())
}

/// ARIA keyed with the 32 bytes of two 128-bit words.
pub struct Aria256 {
    pub key: [u8; 32],
}

impl CipherInterface for Aria256 {
    type Cipher = Aria256;

    open spec fn spec_encrypt(&self, input: u128) -> u128 {
        aria256_encrypted(self.key@, input)
    }

    open spec fn spec_decrypt(&self, input: u128) -> u128 {
        aria256_decrypted(self.key@, input)
    }

    open spec fn key_length() -> nat {
        2
    }

    /// The cipher keyed with the bytes of `key[0]` and `key[1]`, each word
    /// with its lowest byte first.
    fn new(key: &[u128]) -> (cipher: Aria256)
        ensures
            cipher.key@ == wide_key(key@[0], key@[1]),
    {
        Aria256 { key: wide_key_bytes(key[0], key[1]) }
    }

    fn encrypt_block(&self, input: u128) -> (output: u128) {
        aria256_encrypt(&self.key, input)
    }

    fn decrypt_block(&self, input: u128) -> (output: u128) {
        aria256_decrypt(&self.key, input)
    }

    open spec fn spec_name() -> Seq<char> {
        "ARIA"@
    }

    fn name(&self) -> (name: &'static str) {
        "ARIA"
    }

    fn level(&self) -> (bits: u16) {
        256
    }
}

} // verus!
