//! RC5 with 64-bit words in the two parameter sets that the ciphers use,
//! computed by the `rc5` crate.

use crate::common_ciphers::wide_key_bytes;
use crate::common_ciphers::wide_key;
use ::cipher::consts::{U16, U32, U58, U68};
use ::cipher::{Array, BlockCipherDecrypt, BlockCipherEncrypt, KeyInit};
use ::rc5::RC5;
use vstd::prelude::*;

verus! {

/// The block that RC5-64/58/16 encryption under `key` makes of `block`, both
/// read as sixteen bytes with the highest first.
pub uninterp spec fn rc5_58_encrypted(key: u128, block: u128) -> u128;

/// The block that RC5-64/58/16 decryption under `key` makes of `block`, both
/// read as sixteen bytes with the highest first.
pub uninterp spec fn rc5_58_decrypted(key: u128, block: u128) -> u128;

/// The block that RC5-64/68/32 encryption under the 32 key bytes makes of
/// `block`, the block read as sixteen bytes with the highest first.
pub uninterp spec fn rc5_68_encrypted(key: Seq<u8>, block: u128) -> u128;

/// The block that RC5-64/68/32 decryption under the 32 key bytes makes of
/// `block`, the block read as sixteen bytes with the highest first.
pub uninterp spec fn rc5_68_decrypted(key: Seq<u8>, block: u128) -> u128;

/// `RC5::new` and `encrypt_block` of the `rc5` crate with 64-bit words, 58
/// rounds and a 16-byte key, on the big-endian bytes of `key` and `block`.
/// The result is named; decryption under the same key takes it back to `block`.
#[verifier::external_body]
fn rc5_58_encrypt(key: u128, block: u128) -> (out: u128)
    ensures
        out == rc5_58_encrypted(key, block),
        rc5_58_decrypted(key, out) == block,
{
    let cipher = <RC5<u64, U58, U16> as KeyInit>::new(&Array::from(key.to_be_bytes()));
    let mut buffer = Array::from(block.to_be_bytes());
    cipher.encrypt_block(&mut buffer);
    u128::from_be_bytes(buffer.into())
}

/// `RC5::new` and `decrypt_block` of the `rc5` crate with 64-bit words, 58
/// rounds and a 16-byte key, on the big-endian bytes of `key` and `block`.
/// The result is named.
#[verifier::external_body]
fn rc5_58_decrypt(key: u128, block: u128) -> (out: u128)
    ensures
        out == rc5_58_decrypted(key, block),
{
    let cipher = <RC5<u64, U58, U16> as KeyInit>::new(&Array::from(key.to_be_bytes()));
    let mut buffer = Array::from(block.to_be_bytes());
    cipher.decrypt_block(&mut buffer);
    u128::from_be_bytes(buffer.into())
}

/// `RC5::new` and `encrypt_block` of the `rc5` crate with 64-bit words, 68
/// rounds and a 32-byte key, on the key bytes and the big-endian bytes of
/// `block`. The result is named; decryption under the same key takes it
/// back to `block`.
#[verifier::external_body]
fn rc5_68_encrypt(key: &[u8; 32], block: u128) -> (out: u128)
    ensures
        out == rc5_68_encrypted(key@, block),
        rc5_68_decrypted(key@, out) == block,
{
    let cipher = <RC5<u64, U68, U32> as KeyInit>::new(&Array::from(*key));
    let mut buffer = Array::from(block.to_be_bytes());
    cipher.encrypt_block(&mut buffer);
    u128::from_be_bytes(buffer.into())
}

/// `RC5::new` and `decrypt_block` of the `rc5` crate with 64-bit words, 68
/// rounds and a 32-byte key, on the key bytes and the big-endian bytes of
/// `block`. The result is named.
#[verifier::external_body]
fn rc5_68_decrypt(key: &[u8; 32], block: u128) -> (out: u128)
    ensures
        out == rc5_68_decrypted(key@, block),
{
    let cipher = <RC5<u64, U68, U32> as KeyInit>::new(&Array::from(*key));
    let mut buffer = Array::from(block.to_be_bytes());
    cipher.decrypt_block(&mut buffer);
    u128::from_be_bytes(buffer.into())
}

/// RC5 with 58 rounds and a 128-bit key.
pub struct RC5128 {
    pub key: u128,
}

impl RC5128 {
    /// The cipher keyed with `key`.
    pub fn new(key: u128) -> (cipher: RC5128)
        ensures
            cipher.key == key,
    {
        RC5128 { key }
    }

    /// Encrypts one block; decrypting the result gives `input` back.
    pub fn encrypt_block(&self, input: u128) -> (out: u128)
        ensures
            out == rc5_58_encrypted(self.key, input),
            rc5_58_decrypted(self.key, out) == input,
    {
        rc5_58_encrypt(self.key, input)
    }

    /// Decrypts one block.
    pub fn decrypt_block(&self, input: u128) -> (out: u128)
        ensures
            out == rc5_58_decrypted(self.key, input),
    {
        rc5_58_decrypt(self.key, input)
    }
}

/// RC5 with 68 rounds and a 256-bit key.
pub struct RC5256 {
    pub key: [u8; 32],
}

impl RC5256 {
    /// The cipher keyed with the bytes of `key1` and `key2`, each word with
    /// its lowest byte first.
    pub fn new(key1: u128, key2: u128) -> (cipher: RC5256)
        ensures
            cipher.key@ == wide_key(key1, key2),
    {
        RC5256 { key: wide_key_bytes(key1, key2) }
    }

    /// Encrypts one block; decrypting the result gives `input` back.
    pub fn encrypt_block(&self, input: u128) -> (out: u128)
        ensures
            out == rc5_68_encrypted(self.key@, input),
            rc5_68_decrypted(self.key@, out) == input,
    {
        rc5_68_encrypt(&self.key, input)
    }

    /// Decrypts one block.
    pub fn decrypt_block(&self, input: u128) -> (out: u128)
        ensures
            out == rc5_68_decrypted(self.key@, input),
    {
        rc5_68_decrypt(&self.key, input)
    }
}

} // verus!
