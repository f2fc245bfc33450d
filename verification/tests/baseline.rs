use sscipher::benchmarking::{bit_difference, count_ones, prefix_equal, process_chunk, varied, TestParam};
use sscipher::cipher::ctr_core::CTRCipherCore;
use sscipher::common_ciphers::{CipherName, CommonCipher};
use sscipher::field::GF128;

const K1: u128 = 0x0001_0203_0405_0607_0809_0a0b_0c0d_0e0f;
const K2: u128 = 0x1011_1213_1415_1617_1819_1a1b_1c1d_1e1f;

#[test]
fn counter_mode_adds_the_key_stream() {
    let data: Vec<u8> = (0..40u8).collect();
    let iv = u128::MAX - 1;
    let mut core = CTRCipherCore::with_key(&data, 0, true, vec![7; 9], CipherName::AES128, K1, K2, iv);
    assert_eq!(core.blocks_count, 3);
    assert_eq!(core.blocks().len(), 3);
    let plain = core.blocks();
    let prp = CommonCipher::newcipher(&CipherName::AES128, &[K1, K2]);
    core.encrypt();
    for i in 0..3 {
        let counter = iv.wrapping_add(i as u128);
        assert_eq!(core.get_block(i), plain[i] ^ prp.encrypt_block(counter));
    }
    core.decrypt();
    assert_eq!(core.blocks(), plain);
    assert_eq!(&core.get_bytes_out()[..40], &data[..]);
    assert_eq!(&core.get_bytes_out()[40..], &[8u8; 8]);
}

#[test]
fn counter_mode_takes_new_keys() {
    let data = vec![3u8; 64];
    let mut core = CTRCipherCore::new(&data, 32, false, Vec::new(), CipherName::XTEA);
    assert_eq!(core.blocks_count, 2);
    core.set_key_materials(&[K1, K2], 5, CipherName::Speck);
    assert_eq!(core.key, [K1, K2]);
    assert_eq!(core.iv, 5);
    assert_eq!(core.prp.name(), "Speck");
    core.set_block(0, 11);
    assert_eq!(core.get_block(0), 11);
    core.encrypt();
    let prp = CommonCipher::newcipher(&CipherName::Speck, &[K1]);
    assert_eq!(core.get_block(0), 11 ^ prp.encrypt_block(5));
}

#[test]
fn bits_are_counted() {
    assert_eq!(count_ones(0), 0);
    assert_eq!(count_ones(0xff), 8);
    assert_eq!(count_ones(0b1010_0001), 3);
    let a = [0u8, 0xff, 0x0f, 1];
    let b = [0u8, 0x00, 0xff, 3];
    assert_eq!(bit_difference(4, &a, &b), 8 + 4 + 1);
    assert_eq!(bit_difference(2, &a, &b), 8);
    assert_eq!(bit_difference(0, &a, &b), 0);
}

#[test]
fn prefixes_are_compared() {
    assert!(prefix_equal(&[1, 2, 3, 4], &[1, 2, 3, 9], 3));
    assert!(!prefix_equal(&[1, 2, 3, 4], &[1, 2, 3, 9], 4));
    assert!(prefix_equal(&[1], &[2], 0));
}

#[test]
fn one_bit_of_key_or_iv_is_varied() {
    let key = GF128 { value: 0xf0 };
    let iv = GF128 { value: 0x0f };
    let (k, i) = varied(&TestParam::KEY, &key, &iv, 4);
    assert_eq!((k.to_u128(), i.to_u128()), (0xe0, 0x0f));
    let (k, i) = varied(&TestParam::IV, &key, &iv, 127);
    assert_eq!((k.to_u128(), i.to_u128()), (0xf0, 0x0f | (1 << 127)));
}

#[test]
fn chunk_work_mixes_blocks_and_shifts_the_tail() {
    let before: Vec<u8> = (0..37u8).collect();
    let mut chunk = before.clone();
    process_chunk(&mut chunk, 3);
    for block in 0..2 {
        let mut val = u128::from_le_bytes(before[16 * block..16 * block + 16].try_into().unwrap());
        for _ in 0..3 {
            val = val.wrapping_mul(0x9E37_79B9_7F4A_7C15_9E37_79B97F4A7C15u128);
            val ^= val.rotate_left(13);
            val = val.wrapping_add(0x1234_5678_9ABC_DEF0_1234_56789ABCDEF0u128);
        }
        assert_eq!(&chunk[16 * block..16 * block + 16], &val.to_le_bytes());
    }
    for i in 32..37 {
        assert_eq!(chunk[i], before[i].wrapping_add(0xA5));
    }
    let mut idle = before.clone();
    process_chunk(&mut idle, 0);
    assert_eq!(&idle[..32], &before[..32]);
}
