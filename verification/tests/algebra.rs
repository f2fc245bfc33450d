use sscipher::cipher::key_scheme::generate_key_scheme;
use sscipher::common_ciphers::{CipherName, CommonCipher};
use sscipher::field::GF128;
use sscipher::matrix::GF128Matrix;
use sscipher::vector::GF128Vector;

const K1: u128 = 0x0001_0203_0405_0607_0809_0a0b_0c0d_0e0f;
const KEY: u128 = 0x2b7e_1516_28ae_d2a6_abf7_1588_09cf_4f3c;
const IV: u128 = 0xf0f1_f2f3_f4f5_f6f7_f8f9_fafb_fcfd_feff;

fn el(value: u128) -> GF128 {
    GF128 { value }
}

fn points(values: &[u128]) -> GF128Vector {
    let mut v = GF128Vector::new(values.len());
    for (i, value) in values.iter().enumerate() {
        v.set(i, el(*value));
    }
    v
}

fn logical(m: &GF128Matrix) -> Vec<Vec<u128>> {
    let n = m.order();
    (0..n).map(|i| (0..n).map(|j| m.get(i, j).to_u128()).collect()).collect()
}

fn identity(n: usize) -> Vec<Vec<u128>> {
    (0..n).map(|i| (0..n).map(|j| u128::from(i == j)).collect()).collect()
}

const POINTS: [u128; 7] = [
    0x1111_2222_3333_4444_5555_6666_7777_8888,
    2,
    3,
    0xdead_beef_0000_0000_0000_0000_0000_0001,
    0x87,
    u128::MAX,
    0x8000_0000_0000_0000_0000_0000_0000_0000,
];

#[test]
fn vandermonde_rows_are_powers() {
    let m = GF128Matrix::vandermonde(&points(&POINTS[..4]));
    assert_eq!(m.order(), 4);
    for i in 0..4 {
        for j in 0..4 {
            assert_eq!(m.get(i, j).to_u128(), el(POINTS[i]).pow(j).to_u128());
        }
    }
    assert_eq!(m.get(1, 3).to_u128(), 8);
}

#[test]
fn incremental_inverse_agrees_with_gauss_jordan() {
    for t in 1usize..=7 {
        let m = GF128Matrix::vandermonde(&points(&POINTS[..t]));
        let (full, sub) = m.invert_vandermonde_both(t).expect("distinct points");
        let general = m.invert().expect("distinct points");
        assert_eq!(full.order(), t);
        assert_eq!(sub.order(), t - 1);
        assert_eq!(logical(&full), logical(&general), "order {t}");
        let leading = m.extract_submatrix(t - 1);
        let general_sub = leading.invert().expect("distinct points");
        assert_eq!(logical(&sub), logical(&general_sub), "order {t}");
        let single = m.invert_vandermonde(t).expect("distinct points");
        assert!(single.matrices_equal(&full));
    }
}

#[test]
fn inverse_times_matrix_is_the_identity() {
    let m = GF128Matrix::vandermonde(&points(&POINTS));
    let inverse = m.invert_vandermonde(7).expect("distinct points");
    assert_eq!(logical(&inverse.multiply(&m)), identity(7));
    assert_eq!(logical(&m.multiply(&inverse)), identity(7));
    let general = m.invert().expect("distinct points");
    assert_eq!(logical(&general.multiply(&m)), identity(7));
}

#[test]
fn leading_block_inverse_of_a_larger_matrix() {
    let m = GF128Matrix::vandermonde(&points(&POINTS));
    let (full, sub) = m.invert_vandermonde_both(4).expect("distinct points");
    let block = m.extract_submatrix(4);
    let mut padded = full.clone();
    padded.true_size = 4;
    let product = block.multiply(&full.extract_submatrix(4));
    assert_eq!(logical(&product), identity(4));
    let small = m.extract_submatrix(3);
    assert_eq!(logical(&small.multiply(&sub.extract_submatrix(3))), identity(3));
    assert_eq!(padded.order(), 4);
}

#[test]
fn equal_points_cannot_be_inverted() {
    let m = GF128Matrix::vandermonde(&points(&[5, 9, 5, 11]));
    assert!(m.invert_vandermonde(2).is_some());
    assert!(m.invert_vandermonde(3).is_none());
    assert!(m.invert_vandermonde_both(4).is_none());
    assert!(m.invert().is_none());
}

#[test]
fn gauss_jordan_exchanges_rows() {
    let mut m = GF128Matrix::new(2);
    m.set(0, 1, el(1));
    m.set(1, 0, el(1));
    let inverse = m.invert().expect("a permutation");
    assert_eq!(logical(&inverse), vec![vec![0, 1], vec![1, 0]]);
    let zero = GF128Matrix::new(3);
    assert!(zero.invert().is_none());
}

#[test]
fn identity_transpose_and_sums() {
    let id = GF128Matrix::identity(3);
    assert_eq!(logical(&id), identity(3));
    let m = GF128Matrix::vandermonde(&points(&POINTS[..3]));
    let t = m.transpose();
    for i in 0..3 {
        for j in 0..3 {
            assert_eq!(t.get(i, j).to_u128(), m.get(j, i).to_u128());
        }
    }
    let sum = m.add_mat(&id);
    assert_eq!(sum.get(0, 0).to_u128(), 0);
    assert_eq!(sum.get(1, 2).to_u128(), m.get(1, 2).to_u128());
    assert!(m.sub_mat(&m).matrices_equal(&GF128Matrix::new(3)));
    assert!(!m.matrices_equal(&id));
    assert_eq!(logical(&m.multiply(&id)), logical(&m));
}

#[test]
fn matrix_times_vector_in_place() {
    let m = GF128Matrix::vandermonde(&points(&POINTS[..3]));
    let mut v = points(&[7, 11, 13]);
    v.set(3, el(99));
    m.multiply_by_vector(&mut v);
    for i in 0..3 {
        let expected = m.get(i, 0).multiply(&el(7)).addto(&m.get(i, 1).multiply(&el(11))).addto(
            &m.get(i, 2).multiply(&el(13)),
        );
        assert_eq!(v.get(i).to_u128(), expected.to_u128());
    }
    assert_eq!(v.get(3).to_u128(), 99);
    assert_eq!(v.true_size, 3);
}

#[test]
fn random_matrices_and_vectors_have_their_size() {
    let m = GF128Matrix::random(5);
    assert_eq!(m.order(), 5);
    assert_ne!(m.get(0, 0).to_u128(), m.get(4, 4).to_u128());
    let v = GF128Vector::random(4);
    assert_eq!(v.true_size, 4);
    assert_eq!(v.capacity(), 30);
    let z = GF128Vector::new(6);
    assert_eq!(z.capacity(), 30);
    assert!((0..30).all(|i| z.get(i).is_zero()));
}

#[test]
fn derivations_mix_rotate_and_encrypt() {
    let prp = CommonCipher::newcipher(&CipherName::AES128, &[K1]);
    let index = 5u64;
    let mut mix = (KEY ^ IV).rotate_left(11);
    mix ^= 0x9E37_79B9u128.wrapping_shl(32) | 0x79B9_D373u128;
    mix ^= index as u128;
    mix = mix.rotate_left(5);
    let expected = prp.encrypt_block(mix);
    assert_eq!(GF128Vector::derive_iv(&el(KEY), &el(IV), index, &prp).to_u128(), expected);
    let v = GF128Vector::vec_from_iv(&el(KEY), &el(IV), 4, &prp);
    assert_eq!(v.true_size, 7);
    assert_eq!(v.capacity(), 7);
    assert_eq!(v.get(5).to_u128(), expected);
    let alpha = GF128Vector::alpha_from_iv(&el(KEY), &el(IV), 4, &prp);
    let beta = GF128Vector::beta_from_iv(&el(KEY), &el(IV), 4, &prp);
    assert_eq!(alpha.to_u128(), GF128Vector::derive_iv(&el(KEY), &el(IV), 8, &prp).to_u128());
    assert_eq!(beta.to_u128(), GF128Vector::derive_iv(&el(KEY), &el(IV), 9, &prp).to_u128());
}

#[test]
fn beta_vectors_hold_powers_and_their_inverses() {
    let beta = el(0x1234_5678);
    let v = GF128Vector::beta_vector(&beta, 7);
    let w = GF128Vector::inv_beta_vector(&beta, 7);
    assert_eq!(v.true_size, 7);
    for i in 0..7 {
        assert_eq!(v.get(i).to_u128(), beta.pow(i).to_u128());
        assert!(v.get(i).multiply(&w.get(i)).is_one());
        assert_eq!(w.get(i).to_u128(), beta.pow(i).invert().to_u128());
    }
    assert!(v.get(7).is_zero());
    let short = GF128Vector::beta_vector(&beta, 1);
    assert_eq!(short.get(1).to_u128(), beta.to_u128());
}

#[test]
fn key_material_fits_together() {
    let prp = CommonCipher::newcipher(&CipherName::AES128, &[K1]);
    let scheme = generate_key_scheme(&[el(KEY)], &el(IV), 4, &prp).expect("distinct points");
    assert_eq!(scheme.vender_matrix.order(), 7);
    assert_eq!(scheme.principal_dec_matrice.order(), 4);
    assert_eq!(scheme.secondary_dec_matrice.order(), 3);
    assert_eq!(scheme.beta_vector.true_size, 7);
    assert_eq!(scheme.iv.to_u128(), IV);
    assert_eq!(scheme.alpha.to_u128(), GF128Vector::alpha_from_iv(&el(KEY), &el(IV), 4, &prp).to_u128());
    for i in 0..7 {
        let product = scheme.beta_vector.get(i).multiply(&scheme.inv_beta_vector.get(i));
        assert!(product.is_one());
        assert_eq!(scheme.beta_vector.get(i).to_u128(), scheme.beta.pow(i).to_u128());
    }
    let block = scheme.vender_matrix.extract_submatrix(4);
    let product = scheme.principal_dec_matrice.extract_submatrix(4).multiply(&block);
    assert_eq!(logical(&product), identity(4));
    let small = scheme.vender_matrix.extract_submatrix(3);
    let product = scheme.secondary_dec_matrice.extract_submatrix(3).multiply(&small);
    assert_eq!(logical(&product), identity(3));
    let one = generate_key_scheme(&[el(KEY)], &el(IV), 1, &prp).expect("one point");
    assert_eq!(one.secondary_dec_matrice.order(), 0);
}
