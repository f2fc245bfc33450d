//! Block ciphers on 128-bit blocks, each behind the same interface.

use crate::cipher::blocks::le_byte;
use vstd::prelude::*;

pub mod aes;
pub mod aes256;
pub mod aria;
pub mod aria256;
pub mod camelia256;
pub mod camellia;
pub mod cast;
pub mod cast256;
pub mod lea;
pub mod rc5;
pub mod rc5256;
pub mod serpent;
pub mod speck;
pub mod xtea;
pub mod xtea256;

use xtea::XTEA;
use xtea256::XTEA256;
use speck::Speck;
use lea::Lea;
use camellia::Camellia;
use camelia256::Camellia256bit;
use aes::AES128;
use aes256::AES256;
use serpent::Serpent128;
use aria::Aria;
use aria256::Aria256;
use cast::Cast;
use cast256::Cast256;
use rc5::Rc5;
use rc5256::Rc5256;

verus! {

/// A keyed permutation of 128-bit blocks.
pub trait CipherInterface {
    type Cipher;

    /// The block that encryption makes of `input`.
    spec fn spec_encrypt(&self, input: u128) -> u128;

    /// The block that decryption makes of `input`.
    spec fn spec_decrypt(&self, input: u128) -> u128;

    /// The number of 128-bit words that a key needs.
    spec fn key_length() -> nat;

    /// A cipher keyed with the leading words of `key`.
    fn new(key: &[u128]) -> (cipher: Self::Cipher)
        requires
            key@.len() >= Self::key_length(),
    ;

    /// Encrypts one block; decrypting the result gives `input` back.
    fn encrypt_block(&self, input: u128) -> (output: u128)
        ensures
            output == self.spec_encrypt(input),
            self.spec_decrypt(output) == input,
    ;

    /// Decrypts one block.
    fn decrypt_block(&self, input: u128) -> (output: u128)
        ensures
            output == self.spec_decrypt(input),
    ;

    /// The cipher's name as text.
    spec fn spec_name() -> Seq<char>;

    /// The cipher's name.
    fn name(&self) -> (name: &'static str)
        ensures
            name@ == Self::spec_name(),
    ;

    /// The key size in bits.
    fn level(&self) -> (bits: u16)
        ensures
            bits == 128 * Self::key_length(),
    ;
}

/// The 32 bytes of a key of two words, each word with its lowest byte first.
pub open spec fn wide_key(first: u128, second: u128) -> Seq<u8> {
    Seq::new(
        32,
        |i: int|
            if i < 16 {
                le_byte(first, i)
            } else {
                le_byte(second, i - 16)
            },
    )
}

proof fn lemma_key_byte_fits(v: u128, shift: u32)
    by (bit_vector)
    ensures
        (v >> shift) & 0xff <= 0xff,
{
}

/// The 32 bytes of a key of two words, each word with its lowest byte first.
pub fn wide_key_bytes(first: u128, second: u128) -> (bytes: [u8; 32])
    ensures
        bytes@ == wide_key(first, second),
{
    let mut bytes = [0u8; 32];
    let mut i: usize = 0;
    while i < 16
        invariant
            i <= 16,
            forall|k: int| 0 <= k < i ==> bytes@[k] == le_byte(first, k),
            forall|k: int| 0 <= k < i ==> bytes@[16 + k] == le_byte(second, k),
        decreases 16 - i,
    {
        let shift: u32 = (8 * i) as u32;
        proof {
            lemma_key_byte_fits(first, shift);
            lemma_key_byte_fits(second, shift);
        }
        bytes[i] = ((first >> shift) & 0xff) as u8;
        bytes[i + 16] = ((second >> shift) & 0xff) as u8;
        i = i + 1;
    }
    assert(bytes@ =~= wide_key(first, second));
    bytes
}

/// The ciphers that can be chosen.
#[derive(Copy, Clone, Debug)]
pub enum CipherName {
    XTEA,
    XTEA256,
    Speck,
    Lea,
    Camellia,
    Camellia256bit,
    AES128,
    AES256,
    Serpent,
    Aria,
    Aria256,
    Cast,
    Cast256,
    Rc5,
    Rc5256,
}

/// A keyed cipher of one of the kinds that `CipherName` lists.
pub enum CommonCipher {
    XTEA(XTEA),
    XTEA256(XTEA256),
    Speck(Speck),
    Lea(Lea),
    Camellia(Camellia),
    Camellia256bit(Camellia256bit),
    AES128(AES128),
    AES256(AES256),
    Serpent128(Serpent128),
    Aria(Aria),
    Aria256(Aria256),
    Cast(Cast),
    Cast256(Cast256),
    Rc5(Rc5),
    Rc5256(Rc5256),
}

impl CipherName {
    /// The number of 128-bit key words that the named cipher reads.
    pub open spec fn key_length(self) -> nat {
        match self {
            CipherName::XTEA => 1,
            CipherName::XTEA256 => 2,
            CipherName::Speck => 1,
            CipherName::Lea => 1,
            CipherName::Camellia => 1,
            CipherName::Camellia256bit => 2,
            CipherName::AES128 => 1,
            CipherName::AES256 => 2,
            CipherName::Serpent => 1,
            CipherName::Aria => 1,
            CipherName::Aria256 => 2,
            CipherName::Cast => 1,
            CipherName::Cast256 => 2,
            CipherName::Rc5 => 1,
            CipherName::Rc5256 => 2,
        }
    }
}

impl CommonCipher {
    /// The block that encryption makes of `input`.
    pub open spec fn spec_encrypt(&self, input: u128) -> u128 {
        match self {
            CommonCipher::XTEA(c) => c.spec_encrypt(input),
            CommonCipher::XTEA256(c) => c.spec_encrypt(input),
            CommonCipher::Speck(c) => c.spec_encrypt(input),
            CommonCipher::Lea(c) => c.spec_encrypt(input),
            CommonCipher::Camellia(c) => c.spec_encrypt(input),
            CommonCipher::Camellia256bit(c) => c.spec_encrypt(input),
            CommonCipher::AES128(c) => c.spec_encrypt(input),
            CommonCipher::AES256(c) => c.spec_encrypt(input),
            CommonCipher::Serpent128(c) => c.spec_encrypt(input),
            CommonCipher::Aria(c) => c.spec_encrypt(input),
            CommonCipher::Aria256(c) => c.spec_encrypt(input),
            CommonCipher::Cast(c) => c.spec_encrypt(input),
            CommonCipher::Cast256(c) => c.spec_encrypt(input),
            CommonCipher::Rc5(c) => c.spec_encrypt(input),
            CommonCipher::Rc5256(c) => c.spec_encrypt(input),
        }
    }

    /// The block that decryption makes of `input`.
    pub open spec fn spec_decrypt(&self, input: u128) -> u128 {
        match self {
            CommonCipher::XTEA(c) => c.spec_decrypt(input),
            CommonCipher::XTEA256(c) => c.spec_decrypt(input),
            CommonCipher::Speck(c) => c.spec_decrypt(input),
            CommonCipher::Lea(c) => c.spec_decrypt(input),
            CommonCipher::Camellia(c) => c.spec_decrypt(input),
            CommonCipher::Camellia256bit(c) => c.spec_decrypt(input),
            CommonCipher::AES128(c) => c.spec_decrypt(input),
            CommonCipher::AES256(c) => c.spec_decrypt(input),
            CommonCipher::Serpent128(c) => c.spec_decrypt(input),
            CommonCipher::Aria(c) => c.spec_decrypt(input),
            CommonCipher::Aria256(c) => c.spec_decrypt(input),
            CommonCipher::Cast(c) => c.spec_decrypt(input),
            CommonCipher::Cast256(c) => c.spec_decrypt(input),
            CommonCipher::Rc5(c) => c.spec_decrypt(input),
            CommonCipher::Rc5256(c) => c.spec_decrypt(input),
        }
    }

    /// Whether this is the cipher that `name` names, keyed with `key`.
    pub open spec fn keyed_as(&self, name: CipherName, key: Seq<u128>) -> bool {
        match (self, name) {
            (CommonCipher::XTEA(c), CipherName::XTEA) => c.key@ == xtea::key_words(key[0]),
            (CommonCipher::XTEA256(c), CipherName::XTEA256) => c.key@ == xtea::key_words(key[0]) + xtea::key_words(key[1]),
            (CommonCipher::Speck(c), CipherName::Speck) => c.schedule@ == speck::schedule_of(key[0]),
            (CommonCipher::Lea(c), CipherName::Lea) => c.key == key[0],
            (CommonCipher::Camellia(c), CipherName::Camellia) => c.key == key[0],
            (CommonCipher::Camellia256bit(c), CipherName::Camellia256bit) => c.key@ == wide_key(key[0], key[1]),
            (CommonCipher::AES128(c), CipherName::AES128) => c.key == key[0],
            (CommonCipher::AES256(c), CipherName::AES256) => c.key@ == wide_key(key[0], key[1]),
            (CommonCipher::Serpent128(c), CipherName::Serpent) => c.key == key[0],
            (CommonCipher::Aria(c), CipherName::Aria) => c.key == key[0],
            (CommonCipher::Aria256(c), CipherName::Aria256) => c.key@ == wide_key(key[0], key[1]),
            (CommonCipher::Cast(c), CipherName::Cast) => c.key == key[0],
            (CommonCipher::Cast256(c), CipherName::Cast256) => c.key@ == wide_key(key[0], key[1]),
            (CommonCipher::Rc5(c), CipherName::Rc5) => c.core.key == key[0],
            (CommonCipher::Rc5256(c), CipherName::Rc5256) => c.core.key@ == wide_key(key[0], key[1]),
            _ => false,
        }
    }

    /// Whether decryption undoes encryption on every block.
    pub open spec fn undoes_encryption(&self) -> bool {
        forall|y: u128| self.spec_decrypt(#[trigger] self.spec_encrypt(y)) == y
    }

    /// The ciphers that this library computes itself undo their encryption.
    pub proof fn lemma_undoes_encryption(&self)
        requires
            self is XTEA || self is XTEA256 || self is Speck,
        ensures
            self.undoes_encryption(),
    {
        assert forall|y: u128| self.spec_decrypt(#[trigger] self.spec_encrypt(y)) == y by {
            match self {
                CommonCipher::XTEA(c) => {
                    xtea::lemma_decrypt_encrypt(c.key@, 3, 32, y);
                },
                CommonCipher::XTEA256(c) => {
                    xtea::lemma_decrypt_encrypt(c.key@, 7, 64, y);
                },
                CommonCipher::Speck(c) => {
                    speck::lemma_decrypt_encrypt(c.schedule@, y);
                },
                _ => {},
            }
        }
    }

    /// The key size in bits.
    pub open spec fn spec_level(&self) -> u16 {
        match self {
            CommonCipher::XTEA(_) => 128,
            CommonCipher::XTEA256(_) => 256,
            CommonCipher::Speck(_) => 128,
            CommonCipher::Lea(_) => 128,
            CommonCipher::Camellia(_) => 128,
            CommonCipher::Camellia256bit(_) => 256,
            CommonCipher::AES128(_) => 128,
            CommonCipher::AES256(_) => 256,
            CommonCipher::Serpent128(_) => 128,
            CommonCipher::Aria(_) => 128,
            CommonCipher::Aria256(_) => 256,
            CommonCipher::Cast(_) => 128,
            CommonCipher::Cast256(_) => 256,
            CommonCipher::Rc5(_) => 128,
            CommonCipher::Rc5256(_) => 256,
        }
    }

    /// The name of the cipher's kind.
    pub open spec fn spec_name(&self) -> Seq<char> {
        match self {
            CommonCipher::XTEA(_) => "XTEA"@,
            CommonCipher::XTEA256(_) => "XTEA256"@,
            CommonCipher::Speck(_) => "Speck"@,
            CommonCipher::Lea(_) => "Lea"@,
            CommonCipher::Camellia(_) => "Camellia"@,
            CommonCipher::Camellia256bit(_) => "Camellia256"@,
            CommonCipher::AES128(_) => "AES128"@,
            CommonCipher::AES256(_) => "AES256"@,
            CommonCipher::Serpent128(_) => "Serpent"@,
            CommonCipher::Aria(_) => "Aria"@,
            CommonCipher::Aria256(_) => "Aria256"@,
            CommonCipher::Cast(_) => "Cast"@,
            CommonCipher::Cast256(_) => "Cast256"@,
            CommonCipher::Rc5(_) => "Rc5"@,
            CommonCipher::Rc5256(_) => "Rc5256"@,
        }
    }

    /// The cipher that `name` names, keyed with the leading words of `key`.
    pub fn newcipher(name: &CipherName, key: &[u128]) -> (cipher: CommonCipher)
        requires
            key@.len() >= name.key_length(),
        ensures
            cipher.keyed_as(*name, key@),
    {
        match name {
            CipherName::XTEA => CommonCipher::XTEA(XTEA::new(key)),
            CipherName::XTEA256 => CommonCipher::XTEA256(XTEA256::new(key)),
            CipherName::Speck => CommonCipher::Speck(Speck::new(key)),
            CipherName::Lea => CommonCipher::Lea(Lea::new(key)),
            CipherName::Camellia => CommonCipher::Camellia(Camellia::new(key)),
            CipherName::Camellia256bit => CommonCipher::Camellia256bit(Camellia256bit::new(key)),
            CipherName::AES128 => CommonCipher::AES128(AES128::new(key)),
            CipherName::AES256 => CommonCipher::AES256(AES256::new(key)),
            CipherName::Serpent => CommonCipher::Serpent128(Serpent128::new(key)),
            CipherName::Aria => CommonCipher::Aria(Aria::new(key)),
            CipherName::Aria256 => CommonCipher::Aria256(Aria256::new(key)),
            CipherName::Cast => CommonCipher::Cast(Cast::new(key)),
            CipherName::Cast256 => CommonCipher::Cast256(Cast256::new(key)),
            CipherName::Rc5 => CommonCipher::Rc5(Rc5::new(key)),
            CipherName::Rc5256 => CommonCipher::Rc5256(Rc5256::new(key)),
        }
    }

    /// The key size in bits.
    pub fn level(&self) -> (bits: u16)
        ensures
            bits == self.spec_level(),
    {
        match self {
            CommonCipher::XTEA(c) => c.level(),
            CommonCipher::XTEA256(c) => c.level(),
            CommonCipher::Speck(c) => c.level(),
            CommonCipher::Lea(c) => c.level(),
            CommonCipher::Camellia(c) => c.level(),
            CommonCipher::Camellia256bit(c) => c.level(),
            CommonCipher::AES128(c) => c.level(),
            CommonCipher::AES256(c) => c.level(),
            CommonCipher::Serpent128(c) => c.level(),
            CommonCipher::Aria(c) => c.level(),
            CommonCipher::Aria256(c) => c.level(),
            CommonCipher::Cast(c) => c.level(),
            CommonCipher::Cast256(c) => c.level(),
            CommonCipher::Rc5(c) => c.level(),
            CommonCipher::Rc5256(c) => c.level(),
        }
    }

    /// Encrypts one block; decrypting the result gives `input` back.
    pub fn encrypt_block(&self, input: u128) -> (output: u128)
        ensures
            output == self.spec_encrypt(input),
            self.spec_decrypt(output) == input,
    {
        match self {
            CommonCipher::XTEA(c) => c.encrypt_block(input),
            CommonCipher::XTEA256(c) => c.encrypt_block(input),
            CommonCipher::Speck(c) => c.encrypt_block(input),
            CommonCipher::Lea(c) => c.encrypt_block(input),
            CommonCipher::Camellia(c) => c.encrypt_block(input),
            CommonCipher::Camellia256bit(c) => c.encrypt_block(input),
            CommonCipher::AES128(c) => c.encrypt_block(input),
            CommonCipher::AES256(c) => c.encrypt_block(input),
            CommonCipher::Serpent128(c) => c.encrypt_block(input),
            CommonCipher::Aria(c) => c.encrypt_block(input),
            CommonCipher::Aria256(c) => c.encrypt_block(input),
            CommonCipher::Cast(c) => c.encrypt_block(input),
            CommonCipher::Cast256(c) => c.encrypt_block(input),
            CommonCipher::Rc5(c) => c.encrypt_block(input),
            CommonCipher::Rc5256(c) => c.encrypt_block(input),
        }
    }

    /// Decrypts one block.
    pub fn decrypt_block(&self, input: u128) -> (output: u128)
        ensures
            output == self.spec_decrypt(input),
    {
        match self {
            CommonCipher::XTEA(c) => c.decrypt_block(input),
            CommonCipher::XTEA256(c) => c.decrypt_block(input),
            CommonCipher::Speck(c) => c.decrypt_block(input),
            CommonCipher::Lea(c) => c.decrypt_block(input),
            CommonCipher::Camellia(c) => c.decrypt_block(input),
            CommonCipher::Camellia256bit(c) => c.decrypt_block(input),
            CommonCipher::AES128(c) => c.decrypt_block(input),
            CommonCipher::AES256(c) => c.decrypt_block(input),
            CommonCipher::Serpent128(c) => c.decrypt_block(input),
            CommonCipher::Aria(c) => c.decrypt_block(input),
            CommonCipher::Aria256(c) => c.decrypt_block(input),
            CommonCipher::Cast(c) => c.decrypt_block(input),
            CommonCipher::Cast256(c) => c.decrypt_block(input),
            CommonCipher::Rc5(c) => c.decrypt_block(input),
            CommonCipher::Rc5256(c) => c.decrypt_block(input),
        }
    }

    /// The name of the cipher's kind.
    pub fn name(&self) -> (name: &'static str)
        ensures
            name@ == self.spec_name(),
    {
        match self {
            CommonCipher::XTEA(_) => "XTEA",
            CommonCipher::XTEA256(_) => "XTEA256",
            CommonCipher::Speck(_) => "Speck",
            CommonCipher::Lea(_) => "Lea",
            CommonCipher::Camellia(_) => "Camellia",
            CommonCipher::Camellia256bit(_) => "Camellia256",
            CommonCipher::AES128(_) => "AES128",
            CommonCipher::AES256(_) => "AES256",
            CommonCipher::Serpent128(_) => "Serpent",
            CommonCipher::Aria(_) => "Aria",
            CommonCipher::Aria256(_) => "Aria256",
            CommonCipher::Cast(_) => "Cast",
            CommonCipher::Cast256(_) => "Cast256",
            CommonCipher::Rc5(_) => "Rc5",
            CommonCipher::Rc5256(_) => "Rc5256",
        }
    }
}

} // verus!
