//! LEA with a 128-bit key, computed by the `lea` crate.

use super::CipherInterface;
use ::lea::prelude::{BlockDecrypt, BlockEncrypt, GenericArray, NewBlockCipher};
use vstd::prelude::*;

verus! {

/// The block that LEA encryption under `key` makes of `block`, both read
/// as sixteen bytes with the highest first.
pub uninterp spec fn lea128_encrypted(key: u128, block: u128) -> u128;

/// The block that LEA decryption under `key` makes of `block`, both read
/// as sixteen bytes with the highest first.
pub uninterp spec fn lea128_decrypted(key: u128, block: u128) -> u128;

/// `Lea128::new` and `encrypt_block` of the `lea` crate on the
/// big-endian bytes of `key` and `block`. The result is named; as the
/// crate documents, decryption under the same key takes it back to `block`.
#[verifier::external_body]
fn lea128_encrypt(key: u128, block: u128) -> (out: u128)
    ensures
        out == lea128_encrypted(key, block),
        lea128_decrypted(key, out) == block,
{
    let cipher = ::lea::Lea128::new(&GenericArray::from(key.to_be_bytes()));
    let mut buffer = GenericArray::from(block.to_be_bytes());
    cipher.encrypt_block(&mut buffer);
    u128::from_be_bytes(buffer.into())
}

/// `Lea128::new` and `decrypt_block` of the `lea` crate on the
/// big-endian bytes of `key` and `block`. The result is named.
#[verifier::external_body]
fn lea128_decrypt(key: u128, block: u128) -> (out: u128)
    ensures
        out == lea128_decrypted(key, block),
{
    let cipher = ::lea::Lea128::new(&GenericArray::from(key.to_be_bytes()));
    let mut buffer = GenericArray::from(block.to_be_bytes());
    cipher.decrypt_block(&mut buffer);
    u128::from_be_bytes(buffer.into())
}

/// LEA keyed with one 128-bit word.
pub struct Lea {
    pub key: u128,
}

impl CipherInterface for Lea {
    type Cipher = Lea;

    open spec fn spec_encrypt(&self, input: u128) -> u128 {
        lea128_encrypted(self.key, input)
    }

    open spec fn spec_decrypt(&self, input: u128) -> u128 {
        lea128_decrypted(self.key, input)
    }

    open spec fn key_length() -> nat {
        1
    }

    /// The cipher keyed with `key[0]`.
    fn new(key: &[u128]) -> (cipher: Lea)
        ensures
            cipher.key == key@[0],
    {
        Lea { key: key[0] }
    }

    fn encrypt_block(&self, input: u128) -> (output: u128) {
        lea128_encrypt(self.key, input)
    }

    fn decrypt_block(&self, input: u128) -> (output: u128) {
        lea128_decrypt(self.key, input)
    }

    open spec fn spec_name() -> Seq<char> {
        "LEA"@
    }

    fn name(&self) -> (name: &'static str) {
        "LEA"
    }

    fn level(&self) -> (bits: u16) {
        128
    }
}

} // verus!
