//! RC5 with a 256-bit key.

use super::{wide_key, CipherInterface};
use crate::rc5core::{rc5_68_decrypted, rc5_68_encrypted, RC5256};
use vstd::prelude::*;

verus! {

/// RC5 with 68 rounds, keyed with two 128-bit words.
pub struct Rc5256 {
    pub core: RC5256,
}

impl CipherInterface for Rc5256 {
    type Cipher = Rc5256;

    open spec fn spec_encrypt(&self, input: u128) -> u128 {
        rc5_68_encrypted(self.core.key@, input)
    }

    open spec fn spec_decrypt(&self, input: u128) -> u128 {
        rc5_68_decrypted(self.core.key@, input)
    }

    open spec fn key_length() -> nat {
        2
    }

    /// The cipher keyed with `key[0]` and `key[1]`.
    fn new(key: &[u128]) -> (cipher: Rc5256)
        ensures
            cipher.core.key@ == wide_key(key@[0], key@[1]),
    {
        Rc5256 { core: RC5256::new(key[0], key[1]) }
    }

    fn encrypt_block(&self, input: u128) -> (output: u128) {
        self.core.encrypt_block(input)
    }

    fn decrypt_block(&self, input: u128) -> (output: u128) {
        self.core.decrypt_block(input)
    }

    open spec fn spec_name() -> Seq<char> {
        "Rc5256"@
    }

    fn name(&self) -> (name: &'static str) {
        "Rc5256"
    }

    fn level(&self) -> (bits: u16) {
        256
    }
}

} // verus!
