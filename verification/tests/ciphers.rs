use sscipher::common_ciphers::speck::Speck;
use sscipher::common_ciphers::xtea::XTEA;
use sscipher::common_ciphers::xtea256::XTEA256;
use sscipher::common_ciphers::{wide_key_bytes, CipherInterface, CipherName, CommonCipher};
use sscipher::rc5core::{RC5128, RC5256};

const K1: u128 = 0x0001_0203_0405_0607_0809_0a0b_0c0d_0e0f;
const K2: u128 = 0x1011_1213_1415_1617_1819_1a1b_1c1d_1e1f;
const BLOCK: u128 = 0x0011_2233_4455_6677_8899_aabb_ccdd_eeff;

const ALL: [CipherName; 15] = [
    CipherName::XTEA,
    CipherName::XTEA256,
    CipherName::Speck,
    CipherName::Lea,
    CipherName::Camellia,
    CipherName::Camellia256bit,
    CipherName::AES128,
    CipherName::AES256,
    CipherName::Serpent,
    CipherName::Aria,
    CipherName::Aria256,
    CipherName::Cast,
    CipherName::Cast256,
    CipherName::Rc5,
    CipherName::Rc5256,
];

#[test]
fn every_cipher_decrypts_what_it_encrypts() {
    for name in ALL {
        let cipher = CommonCipher::newcipher(&name, &[K1, K2]);
        for block in [0u128, 1, BLOCK, u128::MAX, K1 ^ K2] {
            let encrypted = cipher.encrypt_block(block);
            assert_ne!(encrypted, block, "{}", cipher.name());
            assert_eq!(cipher.decrypt_block(encrypted), block, "{}", cipher.name());
        }
    }
}

#[test]
fn every_cipher_encrypts_what_it_decrypts() {
    for name in ALL {
        let cipher = CommonCipher::newcipher(&name, &[K1, K2]);
        let decrypted = cipher.decrypt_block(BLOCK);
        assert_ne!(decrypted, BLOCK, "{}", cipher.name());
        assert_eq!(cipher.encrypt_block(decrypted), BLOCK, "{}", cipher.name());
    }
}

#[test]
fn ciphers_depend_on_their_key() {
    for name in ALL {
        let a = CommonCipher::newcipher(&name, &[K1, K2]);
        let b = CommonCipher::newcipher(&name, &[K1 ^ 1, K2]);
        assert_ne!(a.encrypt_block(BLOCK), b.encrypt_block(BLOCK), "{}", a.name());
    }
}

#[test]
fn wide_ciphers_depend_on_the_second_key_word() {
    for name in [
        CipherName::XTEA256,
        CipherName::Camellia256bit,
        CipherName::AES256,
        CipherName::Aria256,
        CipherName::Cast256,
        CipherName::Rc5256,
    ] {
        let a = CommonCipher::newcipher(&name, &[K1, K2]);
        let b = CommonCipher::newcipher(&name, &[K1, K2 ^ (1 << 77)]);
        assert_eq!(a.level(), 256);
        assert_ne!(a.encrypt_block(BLOCK), b.encrypt_block(BLOCK), "{}", a.name());
    }
}

#[test]
fn names_and_levels() {
    let expected = [
        ("XTEA", 128),
        ("XTEA256", 256),
        ("Speck", 128),
        ("Lea", 128),
        ("Camellia", 128),
        ("Camellia256", 256),
        ("AES128", 128),
        ("AES256", 256),
        ("Serpent", 128),
        ("Aria", 128),
        ("Aria256", 256),
        ("Cast", 128),
        ("Cast256", 256),
        ("Rc5", 128),
        ("Rc5256", 256),
    ];
    for (name, (text, bits)) in ALL.iter().zip(expected) {
        let cipher = CommonCipher::newcipher(name, &[K1, K2]);
        assert_eq!(cipher.name(), text);
        assert_eq!(cipher.level(), bits);
    }
}

#[test]
fn aes128_matches_the_standard_vector() {
    let cipher = CommonCipher::newcipher(&CipherName::AES128, &[K1]);
    assert_eq!(cipher.encrypt_block(BLOCK), 0x69c4_e0d8_6a7b_0430_d8cd_b780_70b4_c55a);
}

#[test]
fn aes256_reads_each_key_word_lowest_byte_first() {
    // The standard key 00 01 .. 1f is the two words below in that layout.
    let first = u128::from_le_bytes(K1.to_be_bytes());
    let second = u128::from_le_bytes(K2.to_be_bytes());
    let cipher = CommonCipher::newcipher(&CipherName::AES256, &[first, second]);
    assert_eq!(cipher.encrypt_block(BLOCK), 0x8ea2_b7ca_5167_45bf_eafc_4990_4b49_6089);
}

#[test]
fn camellia128_matches_the_standard_vector() {
    let key = 0x0123_4567_89ab_cdef_fedc_ba98_7654_3210;
    let cipher = CommonCipher::newcipher(&CipherName::Camellia, &[key]);
    assert_eq!(cipher.encrypt_block(key), 0x6767_3138_5496_6973_0857_0656_48ea_be43);
}

#[test]
fn aria128_matches_the_standard_vector() {
    let cipher = CommonCipher::newcipher(&CipherName::Aria, &[K1]);
    assert_eq!(cipher.encrypt_block(BLOCK), 0xd718_fbd6_ab64_4c73_9da9_5f3b_e645_1778);
}

#[test]
fn speck_matches_the_paper_vector() {
    let cipher = Speck::new(&[0x0f0e_0d0c_0b0a_0908_0706_0504_0302_0100]);
    let plain = 0x6c61_7669_7571_6520_7469_2065_6461_6d20;
    let encrypted = cipher.encrypt_block(plain);
    assert_eq!(encrypted, 0xa65d_9851_7978_3265_7860_fedf_5c57_0d18);
    assert_eq!(cipher.decrypt_block(encrypted), plain);
}

#[test]
fn cast_encrypts_the_halves_one_by_one() {
    let cipher = CommonCipher::newcipher(&CipherName::Cast, &[K1]);
    let low = cipher.encrypt_block(0x0123_4567_89ab_cdef);
    let high = cipher.encrypt_block(0x0123_4567_89ab_cdef << 64);
    let zero = cipher.encrypt_block(0);
    assert_eq!(low as u64, (high >> 64) as u64);
    assert_eq!((low >> 64) as u64, zero as u64);
}

#[test]
fn cast5_matches_the_standard_vector() {
    // RFC 2144, 128-bit key 01 23 45 67 12 34 56 78 23 45 67 89 34 56 78 9A
    let key = 0x0123_4567_1234_5678_2345_6789_3456_789a;
    let cipher = CommonCipher::newcipher(&CipherName::Cast, &[key]);
    let encrypted = cipher.encrypt_block(0x0123_4567_89ab_cdef);
    assert_eq!(encrypted as u64, 0x238b_4fe5_847e_44b2);
}

#[test]
fn xtea_parts_and_words() {
    assert_eq!(XTEA::u64_to_blocks(0x0123_4567_89ab_cdef), (0x0123_4567, 0x89ab_cdef));
    assert_eq!(XTEA::blocks_to_u64(0x0123_4567, 0x89ab_cdef), 0x0123_4567_89ab_cdef);
    assert_eq!(XTEA256::u64_to_blocks(u64::MAX), (u32::MAX, u32::MAX));
    assert_eq!(XTEA256::blocks_to_u64(1, 0), 1 << 32);
    let cipher = XTEA::new(&[K1]);
    assert_eq!(cipher.key, [0x0001_0203, 0x0405_0607, 0x0809_0a0b, 0x0c0d_0e0f]);
    let (a, b) = cipher.encrypt_block_tow_parts(1, 2);
    assert_ne!((a, b), (1, 2));
    assert_eq!(cipher.decrypt_block_tow_parts(a, b), (1, 2));
    let wide = XTEA256::new(&[K1, K2]);
    assert_eq!(wide.key[4], 0x1011_1213);
    let (c, d) = wide.encrypt_block_two_parts(1, 2);
    assert_ne!((c, d), (a, b));
    assert_eq!(wide.decrypt_block_two_parts(c, d), (1, 2));
}

#[test]
fn xtea_works_on_each_half() {
    let cipher = XTEA::new(&[K1]);
    let (a, b) = cipher.encrypt_block_tow_parts(0x0011_2233, 0x4455_6677);
    let (c, d) = cipher.encrypt_block_tow_parts(0x8899_aabb, 0xccdd_eeff);
    let expected = ((a as u128) << 96) | ((b as u128) << 64) | ((c as u128) << 32) | d as u128;
    assert_eq!(cipher.encrypt_block(BLOCK), expected);
}

#[test]
fn wide_keys_are_little_endian_words() {
    let bytes = wide_key_bytes(K1, K2);
    assert_eq!(&bytes[..16], &K1.to_le_bytes());
    assert_eq!(&bytes[16..], &K2.to_le_bytes());
}

#[test]
fn rc5_core_round_trips() {
    let narrow = RC5128::new(K1);
    let encrypted = narrow.encrypt_block(BLOCK);
    assert_ne!(encrypted, BLOCK);
    assert_eq!(narrow.decrypt_block(encrypted), BLOCK);
    let wide = RC5256::new(K1, K2);
    let widened = wide.encrypt_block(BLOCK);
    assert_ne!(widened, encrypted);
    assert_eq!(wide.decrypt_block(widened), BLOCK);
    assert_eq!(wide.key, wide_key_bytes(K1, K2));
}
