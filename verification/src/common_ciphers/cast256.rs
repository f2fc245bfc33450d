//! CAST-256 with a 256-bit key, computed by the `cast6` crate.

use super::{wide_key, wide_key_bytes, CipherInterface};
use ::cast6::cipher::{Array, BlockCipherDecrypt, BlockCipherEncrypt, KeyInit};
use vstd::prelude::*;

verus! {

/// The block that CAST-256 encryption under the 32 key bytes makes of
/// `block`, the block read as sixteen bytes with the highest first.
pub uninterp spec fn cast6_encrypted(key: Seq<u8>, block: u128) -> u128;

/// The block that CAST-256 decryption under the 32 key bytes makes of
/// `block`, the block read as sixteen bytes with the highest first.
pub uninterp spec fn cast6_decrypted(key: Seq<u8>, block: u128) -> u128;

/// `Cast6::new` and `encrypt_block` of the `cast6` crate on the key
/// bytes and the big-endian bytes of `block`. The result is named; as the
/// crate documents, decryption under the same key takes it back to `block`.
#[verifier::external_body]
fn cast6_encrypt(key: &[u8; 32], block: u128) -> (out: u128)
    ensures
        out == cast6_encrypted(key@, block),
        cast6_decrypted(key@, out) == block,
{
    let cipher = ::cast6::Cast6::new(&Array::from(*key));
    let mut buffer = Array::from(block.to_be_bytes());
    cipher.encrypt_block(&mut buffer);
    u128::from_be_bytes(buffer.into())
}

/// `Cast6::new` and `decrypt_block` of the `cast6` crate on the key
/// bytes and the big-endian bytes of `block`. The result is named.
#[verifier::external_body]
fn cast6_decrypt(key: &[u8; 32], block: u128) -> (out: u128)
    ensures
        out == cast6_decrypted(key@, block),
{
    let cipher = ::cast6::Cast6::new(&Array::from(*key));
    let mut buffer = Array::from(block.to_be_bytes());
    cipher.decrypt_block(&mut buffer);
    u128::from_be_bytes(buffer.into())
}

/// CAST-256 keyed with the 32 bytes of two 128-bit words.
pub struct Cast256 {
    pub key: [u8; 32],
}

impl CipherInterface for Cast256 {
    type Cipher = Cast256;

    open spec fn spec_encrypt(&self, input: u128) -> u128 {
        cast6_encrypted(self.key@, input)
    }

    open spec fn spec_decrypt(&self, input: u128) -> u128 {
        cast6_decrypted(self.key@, input)
    }

    open spec fn key_length() -> nat {
        2
    }

    /// The cipher keyed with the bytes of `key[0]` and `key[1]`, each word
    /// with its lowest byte first.
    fn new(key: &[u128]) -> (cipher: Cast256)
        ensures
            cipher.key@ == wide_key(key@[0], key@[1]),
    {
        Cast256 { key: wide_key_bytes(key[0], key[1]) }
    }

    fn encrypt_block(&self, input: u128) -> (output: u128) {
        cast6_encrypt(&self.key, input)
    }

    fn decrypt_block(&self, input: u128) -> (output: u128) {
        cast6_decrypt(&self.key, input)
    }

    open spec fn spec_name() -> Seq<char> {
        "Cast256"@
    }

    fn name(&self) -> (name: &'static str) {
        "Cast256"
    }

    fn level(&self) -> (bits: u16) {
        256
    }
}

} // verus!
