use sscipher::cipher::blocks::{block_from_bytes, last_block, pack_blocks, unpack_blocks};
use sscipher::cipher::engine::SSCipherCore;
use sscipher::common_ciphers::{CipherName, CommonCipher};
use sscipher::field::GF128;

const K1: u128 = 0x0001_0203_0405_0607_0809_0a0b_0c0d_0e0f;
const K2: u128 = 0x1011_1213_1415_1617_1819_1a1b_1c1d_1e1f;
const KEY: u128 = 0x2b7e_1516_28ae_d2a6_abf7_1588_09cf_4f3c;
const IV: u128 = 0xf0f1_f2f3_f4f5_f6f7_f8f9_fafb_fcfd_feff;

const ALL: [CipherName; 15] = [
    CipherName::XTEA,
    CipherName::XTEA256,
    CipherName::Speck,
    CipherName::Lea,
    CipherName::Camellia,
    CipherName::Camellia256bit,
    CipherName::AES128,
    CipherName::AES256,
    CipherName::Serpent,
    CipherName::Aria,
    CipherName::Aria256,
    CipherName::Cast,
    CipherName::Cast256,
    CipherName::Rc5,
    CipherName::Rc5256,
];

fn pattern(len: usize) -> Vec<u8> {
    (0..len).map(|i| (i * 7 + 3) as u8).collect()
}

fn engine_with(data: &[u8], t: usize, name: CipherName, key: u128, iv: u128) -> SSCipherCore {
    let prp = CommonCipher::newcipher(&name, &[K1, K2]);
    let key = [GF128 { value: key }];
    let iv = GF128 { value: iv };
    SSCipherCore::with_cipher(data, 0, true, Vec::new(), t, prp, &key, &iv)
        .expect("the key has key material")
}

fn engine(data: &[u8], t: usize, name: CipherName) -> SSCipherCore {
    engine_with(data, t, name, KEY, IV)
}

#[test]
fn round_trip_for_every_threshold_and_length() {
    for t in 2usize..=8 {
        for len in [0usize, 1, 15, 16, 17, 31, 32, 100, 160, 1000] {
            let data = pattern(len);
            let mut core = engine(&data, t, CipherName::XTEA);
            let packed = core.get_bytes_out();
            assert_eq!(packed.len(), (len / 16 + 1) * 16);
            assert_eq!(&packed[..len], &data[..]);
            core.encrypt();
            let encrypted = core.get_bytes_out();
            assert_ne!(encrypted, packed, "t {t} len {len}");
            assert_eq!(core.decrypt(), Ok(()));
            assert_eq!(core.get_bytes_out(), packed, "t {t} len {len}");
        }
    }
}

#[test]
fn round_trip_for_every_cipher() {
    let data = pattern(777);
    for name in ALL {
        for t in [2usize, 4, 7] {
            let mut core = engine(&data, t, name);
            let packed = core.get_bytes_out();
            core.encrypt();
            assert_ne!(core.get_bytes_out(), packed);
            assert_eq!(core.decrypt(), Ok(()));
            assert_eq!(core.get_bytes_out(), packed, "{}", core.prp_cipher.name());
        }
    }
}

#[test]
fn round_trip_with_a_two_word_key() {
    let data = pattern(500);
    let prp = CommonCipher::newcipher(&CipherName::AES256, &[K1, K2]);
    let key = [GF128 { value: KEY }, GF128 { value: K2 }];
    let iv = GF128 { value: IV };
    let mut core = SSCipherCore::with_cipher(&data, 0, true, Vec::new(), 5, prp, &key, &iv)
        .expect("the key has key material");
    assert_eq!(core.key_materials.key[0].to_u128(), KEY);
    assert_eq!(core.key_materials.key[1].to_u128(), K2);
    let packed = core.get_bytes_out();
    core.encrypt();
    assert_eq!(core.decrypt(), Ok(()));
    assert_eq!(core.get_bytes_out(), packed);
}

#[test]
fn fifteen_bytes_fill_one_block_and_meet_the_cipher_only() {
    let data = pattern(15);
    let mut core = engine(&data, 4, CipherName::AES128);
    assert_eq!(core.internal.len(), 1);
    assert_eq!(core.vectors_count(), 1);
    let block = core.get_block(0).to_u128();
    let mut expected = [1u8; 16];
    expected[..15].copy_from_slice(&data);
    assert_eq!(block, u128::from_le_bytes(expected));
    core.encrypt();
    let prp = CommonCipher::newcipher(&CipherName::AES128, &[K1, K2]);
    assert_eq!(core.get_block(0).to_u128(), prp.encrypt_block(block ^ IV));
    assert_eq!(core.decrypt(), Ok(()));
    assert_eq!(core.get_block(0).to_u128(), block);
}

#[test]
fn ten_kilobytes_with_threshold_four() {
    let data = vec![1u8; 10240];
    let mut core = engine(&data, 4, CipherName::AES128);
    assert_eq!(core.internal.len(), 641);
    assert_eq!(core.active_level.threshold, 4);
    assert_eq!(core.active_level.max_part_size, 213);
    core.encrypt();
    let encrypted = core.get_bytes_out();
    assert_ne!(&encrypted[..10240], &data[..]);
    assert_eq!(core.decrypt(), Ok(()));
    let out = core.get_bytes_out();
    assert_eq!(out.len(), 10256);
    assert_eq!(&out[..10240], &data[..]);
    assert_eq!(&out[10240..], &[16u8; 16]);
}

#[test]
fn encryption_is_deterministic_and_depends_on_key_and_iv() {
    let data = pattern(1024);
    let mut a = engine(&data, 4, CipherName::AES128);
    let mut b = engine(&data, 4, CipherName::AES128);
    let mut other_key = engine_with(&data, 4, CipherName::AES128, KEY ^ 1, IV);
    let mut other_iv = engine_with(&data, 4, CipherName::AES128, KEY, IV ^ (1 << 100));
    a.encrypt();
    b.encrypt();
    other_key.encrypt();
    other_iv.encrypt();
    assert_eq!(a.get_bytes_out(), b.get_bytes_out());
    assert_ne!(a.get_bytes_out(), other_key.get_bytes_out());
    assert_ne!(a.get_bytes_out(), other_iv.get_bytes_out());
}

#[test]
fn encryption_changes_every_block_of_a_level() {
    let data = pattern(16 * 40);
    let mut core = engine(&data, 3, CipherName::Speck);
    let before: Vec<u128> = core.blocks().iter().map(|b| b.to_u128()).collect();
    core.encrypt();
    let after: Vec<u128> = core.blocks().iter().map(|b| b.to_u128()).collect();
    assert_eq!(before.len(), 41);
    assert_eq!(after.len(), 41);
    let changed = before.iter().zip(&after).filter(|(x, y)| x != y).count();
    assert!(changed >= 40, "changed {changed}");
}

#[test]
fn setting_a_key_keeps_the_buffer() {
    let data = pattern(300);
    let mut core = engine(&data, 4, CipherName::Camellia);
    let packed = core.get_bytes_out();
    let key = [GF128 { value: KEY ^ 0xff }];
    assert_eq!(core.set_key_scheme(&key, &GF128 { value: IV }), Ok(()));
    assert_eq!(core.get_bytes_out(), packed);
    assert_eq!(core.key_materials.key[0].to_u128(), KEY ^ 0xff);
    assert_eq!(core.key_materials.key[1].to_u128(), KEY ^ 0xff);
    core.encrypt();
    let mut fresh = engine_with(&data, 4, CipherName::Camellia, KEY ^ 0xff, IV);
    fresh.encrypt();
    assert_eq!(core.get_bytes_out(), fresh.get_bytes_out());
    assert_eq!(core.decrypt(), Ok(()));
    assert_eq!(core.get_bytes_out(), packed);
}

#[test]
fn a_random_engine_round_trips_too() {
    let data = pattern(200);
    let mut core = SSCipherCore::new(&data, 0, true, Vec::new(), 4, CipherName::XTEA256)
        .expect("a random key has key material");
    let packed = core.get_bytes_out();
    assert_eq!(&packed[..200], &data[..]);
    core.encrypt();
    assert_ne!(core.get_bytes_out(), packed);
    assert_eq!(core.decrypt(), Ok(()));
    assert_eq!(core.get_bytes_out(), packed);
}

#[test]
fn explicit_length_and_no_padding() {
    let data = pattern(100);
    let prp = CommonCipher::newcipher(&CipherName::XTEA, &[K1]);
    let key = [GF128 { value: KEY }];
    let stale = vec![GF128 { value: 99 }; 50];
    let core = SSCipherCore::with_cipher(&data, 40, false, stale, 3, prp, &key, &GF128 { value: IV })
        .expect("the key has key material");
    assert_eq!(core.internal.len(), 2);
    assert_eq!(core.get_bytes_out(), &data[..32]);
    assert_eq!(core.targted_threshold, 3);
}

#[test]
fn blocks_can_be_read_and_written() {
    let data = pattern(64);
    let mut core = engine(&data, 2, CipherName::XTEA);
    assert_eq!(core.get_block(1).to_u128(), u128::from_le_bytes(data[16..32].try_into().unwrap()));
    core.set_block(1, &GF128 { value: 42 });
    assert_eq!(core.get_block(1).to_u128(), 42);
    assert_eq!(core.blocks().len(), 5);
}

#[test]
fn padding_blocks() {
    let data = pattern(20);
    assert_eq!(block_from_bytes(&data, 2).to_u128(), u128::from_le_bytes(data[2..18].try_into().unwrap()));
    let mut expected = [12u8; 16];
    expected[..4].copy_from_slice(&data[16..20]);
    assert_eq!(last_block(&data, 20).to_u128(), u128::from_le_bytes(expected));
    assert_eq!(last_block(&data, 16).to_u128(), u128::from_le_bytes([16u8; 16]));
    let mut out = vec![GF128 { value: 5 }; 9];
    pack_blocks(&data, 20, true, &mut out);
    assert_eq!(out.len(), 2);
    assert_eq!(out[1].to_u128(), u128::from_le_bytes(expected));
    pack_blocks(&data, 20, false, &mut out);
    assert_eq!(out.len(), 1);
    let bytes = unpack_blocks(&out);
    assert_eq!(bytes, &data[..16]);
}

#[test]
fn equal_evaluation_points_stop_decryption() {
    let data = pattern(70);
    let mut core = engine(&data, 2, CipherName::XTEA);
    core.encrypt();
    let encrypted = core.get_bytes_out();
    let mut points = sscipher::vector::GF128Vector::new(3);
    points.set(0, GF128 { value: 7 });
    points.set(1, GF128 { value: 7 });
    points.set(2, GF128 { value: 9 });
    core.key_materials.vender_matrix = sscipher::matrix::GF128Matrix::vandermonde(&points);
    assert_eq!(core.decrypt(), Err(sscipher::cipher::engine::CipherError::SingularMatrix));
    assert_eq!(core.get_bytes_out(), encrypted);
}
