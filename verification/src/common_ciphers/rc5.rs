//! RC5 with a 128-bit key.

use super::CipherInterface;
use crate::rc5core::{rc5_58_decrypted, rc5_58_encrypted, RC5128};
use vstd::prelude::*;

verus! {

/// RC5 with 58 rounds, keyed with one 128-bit word.
pub struct Rc5 {
    pub core: RC5128,
}

impl CipherInterface for Rc5 {
    type Cipher = Rc5;

    open spec fn spec_encrypt(&self, input: u128) -> u128 {
        rc5_58_encrypted(self.core.key, input)
    }

    open spec fn spec_decrypt(&self, input: u128) -> u128 {
        rc5_58_decrypted(self.core.key, input)
    }

    open spec fn key_length() -> nat {
        1
    }

    /// The cipher keyed with `key[0]`.
    fn new(key: &[u128]) -> (cipher: Rc5)
        ensures
            cipher.core.key == key@[0],
    {
        Rc5 { core: RC5128::new(key[0]) }
    }

    fn encrypt_block(&self, input: u128) -> (output: u128) {
        self.core.encrypt_block(input)
    }

    fn decrypt_block(&self, input: u128) -> (output: u128) {
        self.core.decrypt_block(input)
    }

    open spec fn spec_name() -> Seq<char> {
        "Rc5"@
    }

    fn name(&self) -> (name: &'static str) {
        "Rc5"
    }

    fn level(&self) -> (bits: u16) {
        128
    }
}

} // verus!
