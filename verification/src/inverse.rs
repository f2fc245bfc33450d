//! Every nonzero element has an inverse: the field polynomial is
//! irreducible, so the elements form a field.
//!
//! The proof goes through the squaring map. Squaring is additive, it fixes
//! zero and one only, and squaring 128 times over is the identity. So the
//! power 2^128 - 1 of an element is its own square, hence zero or one, and
//! it is zero for zero only.

use crate::field::{
    agree_on_basis, gf_add, gf_inv, gf_mul, gf_pow, gf_times_x, has_inverse, inversion_exponent,
    is_additive, lemma_add_self, lemma_add_zero, lemma_additive_maps_agree,
    lemma_mul_associative, lemma_mul_basis_left, lemma_mul_commutative, lemma_mul_distributive,
    lemma_mul_low_basis_right, lemma_mul_one, lemma_mul_zero, lemma_pow_add,
    lemma_shift_times_x, lemma_times_x_power, gf_shift, squared,
};
use vstd::prelude::*;

verus! {

/// The 64 low coefficients moved apart: coefficient `i` goes to place `2 * i`.
pub open spec fn spread(v: u128) -> u128 {
    let a = (v | (v << 32u32)) & 0x0000_0000_FFFF_FFFF_0000_0000_FFFF_FFFF;
    let b = (a | (a << 16u32)) & 0x0000_FFFF_0000_FFFF_0000_FFFF_0000_FFFF;
    let c = (b | (b << 8u32)) & 0x00FF_00FF_00FF_00FF_00FF_00FF_00FF_00FF;
    let d = (c | (c << 4u32)) & 0x0F0F_0F0F_0F0F_0F0F_0F0F_0F0F_0F0F_0F0F;
    let e = (d | (d << 2u32)) & 0x3333_3333_3333_3333_3333_3333_3333_3333;
    (e | (e << 1u32)) & 0x5555_5555_5555_5555_5555_5555_5555_5555
}

/// The product of `h` with x^128, reduced.
pub open spec fn fold(h: u128) -> u128 {
    let over = (h >> 127u32) ^ (h >> 126u32) ^ (h >> 121u32);
    h ^ (h << 1u32) ^ (h << 2u32) ^ (h << 7u32) ^ over ^ (over << 1u32) ^ (over << 2u32) ^ (over
        << 7u32)
}

/// The square of an element in closed form: over GF(2) the square of a
/// polynomial has its coefficients at the even places.
pub open spec fn square_form(a: u128) -> u128 {
    spread(a & 0xFFFF_FFFF_FFFF_FFFF) ^ fold(spread(a >> 64u32))
}

/// Four squarings in closed form.
pub open spec fn square_four(a: u128) -> u128 {
    square_form(square_form(square_form(square_form(a))))
}

proof fn lemma_square_form_additive(a: u128, b: u128)
    by (bit_vector)
    ensures
        square_form(a ^ b) == square_form(a) ^ square_form(b),
        square_form(1) == 1,
        1u128 << 1u32 == 2,
{
}

proof fn lemma_square_form_step(j: u32)
    by (bit_vector)
    requires
        j < 127,
    ensures
        square_form(1u128 << ((j + 1) as u32)) == gf_times_x(
            gf_times_x(square_form(1u128 << j)),
        ),
{
}

#[verifier::rlimit(100)]
proof fn lemma_square_form_fixes(z: u128)
    by (bit_vector)
    requires
        square_form(z) == z,
    ensures
        z == 0 || z == 1,
{
}

proof fn lemma_orbit_steps_0()
    by (bit_vector)
    ensures
        square_four(0x0000_0000_0000_0000_0000_0000_0000_0002) == 0x0000_0000_0000_0000_0000_0000_0001_0000,
        square_four(0x0000_0000_0000_0000_0000_0000_0001_0000) == 0x0000_0000_0000_0000_0000_0000_0000_4015,
        square_four(0x0000_0000_0000_0000_0000_0000_0000_4015) == 0x0000_0087_0000_0001_0000_0001_0000_0001,
        square_four(0x0000_0087_0000_0001_0000_0001_0000_0001) == 0x1001_0011_1111_0961_118F_E619_6978_EF70,
        square_four(0x1001_0011_1111_0961_118F_E619_6978_EF70) == 0x01AF_DEFF_D35E_5FDE_54E1_A6F8_65FE_82B9,
        square_four(0x01AF_DEFF_D35E_5FDE_54E1_A6F8_65FE_82B9) == 0xC7F8_A417_56AD_614D_1A97_936B_620F_481D,
        square_four(0xC7F8_A417_56AD_614D_1A97_936B_620F_481D) == 0x150E_3443_16F3_5F82_A5B7_EFC5_2C5E_9C53,
        square_four(0x150E_3443_16F3_5F82_A5B7_EFC5_2C5E_9C53) == 0x782D_0A99_5DD3_B018_2177_7AF8_0695_052A,
{
}

proof fn lemma_orbit_steps_1()
    by (bit_vector)
    ensures
        square_four(0x782D_0A99_5DD3_B018_2177_7AF8_0695_052A) == 0x20B0_22E1_C1D1_BC08_09BB_AA00_7AFF_17A4,
        square_four(0x20B0_22E1_C1D1_BC08_09BB_AA00_7AFF_17A4) == 0x1854_548B_B6F4_DE8E_1794_C9C6_116B_CA12,
        square_four(0x1854_548B_B6F4_DE8E_1794_C9C6_116B_CA12) == 0xD380_7DD9_D6A3_9649_D9BF_3B42_8F20_7EEC,
        square_four(0xD380_7DD9_D6A3_9649_D9BF_3B42_8F20_7EEC) == 0xE316_B617_7292_0218_FE1D_7816_D9EB_81FD,
        square_four(0xE316_B617_7292_0218_FE1D_7816_D9EB_81FD) == 0x097D_A6D2_E8F7_686D_939B_5311_9C4B_7496,
        square_four(0x097D_A6D2_E8F7_686D_939B_5311_9C4B_7496) == 0x7402_5243_5434_BD93_E213_B075_AC78_1973,
        square_four(0x7402_5243_5434_BD93_E213_B075_AC78_1973) == 0x783E_0E82_7A3C_43A2_E68D_4298_70A8_6444,
        square_four(0x783E_0E82_7A3C_43A2_E68D_4298_70A8_6444) == 0x6165_1FEA_6B58_32B9_44E5_98A7_95A2_99F6,
{
}

proof fn lemma_orbit_steps_2()
    by (bit_vector)
    ensures
        square_four(0x6165_1FEA_6B58_32B9_44E5_98A7_95A2_99F6) == 0xBF88_4491_F010_FCF9_2B42_640B_AF97_546A,
        square_four(0xBF88_4491_F010_FCF9_2B42_640B_AF97_546A) == 0xCAFD_0F1D_EE4B_13F4_F910_4EDC_7CD7_C419,
        square_four(0xCAFD_0F1D_EE4B_13F4_F910_4EDC_7CD7_C419) == 0xDEB4_8144_66D6_D456_00CB_1BE4_B63B_5B3D,
        square_four(0xDEB4_8144_66D6_D456_00CB_1BE4_B63B_5B3D) == 0x79A3_D532_B4DC_A977_042A_87C2_811E_E47A,
        square_four(0x79A3_D532_B4DC_A977_042A_87C2_811E_E47A) == 0x59A0_44E5_4480_5B99_00ED_0844_0DDA_5EBA,
        square_four(0x59A0_44E5_4480_5B99_00ED_0844_0DDA_5EBA) == 0x92C0_CF34_3AE0_63AD_494F_DFAB_6DF4_2306,
        square_four(0x92C0_CF34_3AE0_63AD_494F_DFAB_6DF4_2306) == 0xEFDB_4540_5364_8225_1843_656B_2EA8_F397,
        square_four(0xEFDB_4540_5364_8225_1843_656B_2EA8_F397) == 0x40E2_DFC1_4506_98CA_DCA8_758E_D620_DD7B,
{
}

proof fn lemma_orbit_steps_3()
    by (bit_vector)
    ensures
        square_four(0x40E2_DFC1_4506_98CA_DCA8_758E_D620_DD7B) == 0x8B62_1A33_B1F5_5BE1_B5CF_3DBE_0150_3955,
        square_four(0x8B62_1A33_B1F5_5BE1_B5CF_3DBE_0150_3955) == 0x18FB_3BC8_96B1_5739_ABA9_209E_7280_2626,
        square_four(0x18FB_3BC8_96B1_5739_ABA9_209E_7280_2626) == 0xB377_C704_4AEB_289D_EBAF_5667_7AF1_691D,
        square_four(0xB377_C704_4AEB_289D_EBAF_5667_7AF1_691D) == 0xC77A_431B_1744_2DC2_46BD_F85B_5F57_64D5,
        square_four(0xC77A_431B_1744_2DC2_46BD_F85B_5F57_64D5) == 0xEBA2_E73F_8E06_F46E_77A7_AF91_0537_779D,
        square_four(0xEBA2_E73F_8E06_F46E_77A7_AF91_0537_779D) == 0x0821_6569_34AB_0DF9_8A24_ABE2_7FAF_17B9,
        square_four(0x0821_6569_34AB_0DF9_8A24_ABE2_7FAF_17B9) == 0xC71C_71C3_0824_9E75_DB49_0028_E7B6_CF92,
        square_four(0xC71C_71C3_0824_9E75_DB49_0028_E7B6_CF92) == 0x0000_0000_0000_0000_0000_0000_0000_0002,
{
}

proof fn lemma_square_of_power(j: u32)
    requires
        j < 128,
    ensures
        gf_shift(1u128 << j, j) == square_form(1u128 << j),
    decreases j,
{
    if j == 0 {
        lemma_times_x_power(0);
        lemma_square_form_additive(0, 0);
    } else {
        let i = (j - 1) as u32;
        lemma_square_of_power(i);
        lemma_times_x_power(i);
        lemma_shift_times_x(1u128 << i, i);
        lemma_square_form_step(i);
    }
}

proof fn lemma_middle_cancels(p: u128, q: u128, s: u128)
    by (bit_vector)
    ensures
        (p ^ q) ^ (q ^ s) == p ^ s,
{
}

/// The square of a sum is the sum of the squares.
pub proof fn lemma_square_additive(a: u128, b: u128)
    ensures
        gf_mul(gf_add(a, b), gf_add(a, b)) == gf_add(gf_mul(a, a), gf_mul(b, b)),
{
    lemma_middle_cancels(gf_mul(a, a), gf_mul(a, b), gf_mul(b, b));
    let s = gf_add(a, b);
    lemma_mul_distributive(s, a, b);
    lemma_mul_distributive(a, a, b);
    lemma_mul_distributive(b, a, b);
    lemma_mul_commutative(a, b);
    crate::field::lemma_add_exchange(gf_mul(a, a), gf_mul(a, b), gf_mul(a, b), gf_mul(b, b));
    lemma_add_self(gf_mul(a, b));
    crate::field::lemma_add_associative(gf_mul(a, a), gf_mul(b, b), 0);
    lemma_add_zero(gf_mul(b, b));
    lemma_add_zero(gf_add(gf_mul(a, a), gf_mul(b, b)));
    crate::field::lemma_add_commutative(gf_mul(a, b), gf_mul(b, b));
    crate::field::lemma_add_commutative(gf_mul(a, a), gf_mul(a, b));
}

/// The square of an element is what the closed form says.
pub proof fn lemma_square_form(a: u128)
    ensures
        gf_mul(a, a) == square_form(a),
{
    let f = |x: u128| gf_mul(x, x);
    let g = |x: u128| square_form(x);
    assert(is_additive(f)) by {
        assert forall|x: u128, y: u128| #[trigger] f(gf_add(x, y)) == gf_add(f(x), f(y)) by {
            lemma_square_additive(x, y);
        }
    }
    assert(is_additive(g)) by {
        assert forall|x: u128, y: u128| #[trigger] g(gf_add(x, y)) == gf_add(g(x), g(y)) by {
            lemma_square_form_additive(x, y);
        }
    }
    assert(agree_on_basis(f, g)) by {
        assert forall|j: u32| j < 128 implies #[trigger] f(1u128 << j) == g(1u128 << j) by {
            lemma_mul_low_basis_right(1u128 << j, j, 128);
            lemma_square_of_power(j);
        }
    }
    lemma_additive_maps_agree(f, g, a);
}

/// An element that is its own square is zero or one.
pub proof fn lemma_idempotent(z: u128)
    requires
        gf_mul(z, z) == z,
    ensures
        z == 0 || z == 1,
{
    lemma_square_form(z);
    lemma_square_form_fixes(z);
}

/// Squaring over and over is additive.
pub proof fn lemma_squared_additive(a: u128, b: u128, c: nat)
    ensures
        squared(gf_add(a, b), c) == gf_add(squared(a, c), squared(b, c)),
    decreases c,
{
    if c > 0 {
        lemma_squared_additive(a, b, (c - 1) as nat);
        lemma_square_additive(squared(a, (c - 1) as nat), squared(b, (c - 1) as nat));
    }
}

/// Squaring over and over goes through products.
pub proof fn lemma_squared_product(a: u128, b: u128, c: nat)
    ensures
        squared(gf_mul(a, b), c) == gf_mul(squared(a, c), squared(b, c)),
    decreases c,
{
    if c > 0 {
        lemma_squared_product(a, b, (c - 1) as nat);
        let x = squared(a, (c - 1) as nat);
        let y = squared(b, (c - 1) as nat);
        lemma_mul_associative(gf_mul(x, y), x, y);
        lemma_mul_associative(x, y, x);
        lemma_mul_commutative(y, x);
        lemma_mul_associative(x, x, y);
        lemma_mul_associative(gf_mul(x, x), y, y);
    }
}

proof fn lemma_squared_four_more(a: u128, c: nat)
    ensures
        squared(a, c + 4) == square_four(squared(a, c)),
{
    lemma_square_form(squared(a, c));
    lemma_square_form(squared(a, c + 1));
    lemma_square_form(squared(a, c + 2));
    lemma_square_form(squared(a, c + 3));
    assert(squared(a, c + 1) == gf_mul(squared(a, c), squared(a, c)));
    assert(squared(a, c + 2) == gf_mul(squared(a, c + 1), squared(a, c + 1)));
    assert(squared(a, c + 3) == gf_mul(squared(a, c + 2), squared(a, c + 2)));
    assert(squared(a, c + 4) == gf_mul(squared(a, c + 3), squared(a, c + 3)));
}

proof fn lemma_orbit_0()
    ensures
        squared(2, 32) == 0x782D_0A99_5DD3_B018_2177_7AF8_0695_052A,
{
    lemma_orbit_steps_0();
    assert(squared(2, 0) == 2);
    lemma_squared_four_more(2, 0);
    assert(squared(2, 4) == 0x0000_0000_0000_0000_0000_0000_0001_0000);
    lemma_squared_four_more(2, 4);
    assert(squared(2, 8) == 0x0000_0000_0000_0000_0000_0000_0000_4015);
    lemma_squared_four_more(2, 8);
    assert(squared(2, 12) == 0x0000_0087_0000_0001_0000_0001_0000_0001);
    lemma_squared_four_more(2, 12);
    assert(squared(2, 16) == 0x1001_0011_1111_0961_118F_E619_6978_EF70);
    lemma_squared_four_more(2, 16);
    assert(squared(2, 20) == 0x01AF_DEFF_D35E_5FDE_54E1_A6F8_65FE_82B9);
    lemma_squared_four_more(2, 20);
    assert(squared(2, 24) == 0xC7F8_A417_56AD_614D_1A97_936B_620F_481D);
    lemma_squared_four_more(2, 24);
    assert(squared(2, 28) == 0x150E_3443_16F3_5F82_A5B7_EFC5_2C5E_9C53);
    lemma_squared_four_more(2, 28);
    assert(squared(2, 32) == 0x782D_0A99_5DD3_B018_2177_7AF8_0695_052A);
}

proof fn lemma_orbit_1()
    requires
        squared(2, 32) == 0x782D_0A99_5DD3_B018_2177_7AF8_0695_052A,
    ensures
        squared(2, 64) == 0x6165_1FEA_6B58_32B9_44E5_98A7_95A2_99F6,
{
    lemma_orbit_steps_1();
    lemma_squared_four_more(2, 32);
    assert(squared(2, 36) == 0x20B0_22E1_C1D1_BC08_09BB_AA00_7AFF_17A4);
    lemma_squared_four_more(2, 36);
    assert(squared(2, 40) == 0x1854_548B_B6F4_DE8E_1794_C9C6_116B_CA12);
    lemma_squared_four_more(2, 40);
    assert(squared(2, 44) == 0xD380_7DD9_D6A3_9649_D9BF_3B42_8F20_7EEC);
    lemma_squared_four_more(2, 44);
    assert(squared(2, 48) == 0xE316_B617_7292_0218_FE1D_7816_D9EB_81FD);
    lemma_squared_four_more(2, 48);
    assert(squared(2, 52) == 0x097D_A6D2_E8F7_686D_939B_5311_9C4B_7496);
    lemma_squared_four_more(2, 52);
    assert(squared(2, 56) == 0x7402_5243_5434_BD93_E213_B075_AC78_1973);
    lemma_squared_four_more(2, 56);
    assert(squared(2, 60) == 0x783E_0E82_7A3C_43A2_E68D_4298_70A8_6444);
    lemma_squared_four_more(2, 60);
    assert(squared(2, 64) == 0x6165_1FEA_6B58_32B9_44E5_98A7_95A2_99F6);
}

proof fn lemma_orbit_2()
    requires
        squared(2, 64) == 0x6165_1FEA_6B58_32B9_44E5_98A7_95A2_99F6,
    ensures
        squared(2, 96) == 0x40E2_DFC1_4506_98CA_DCA8_758E_D620_DD7B,
{
    lemma_orbit_steps_2();
    lemma_squared_four_more(2, 64);
    assert(squared(2, 68) == 0xBF88_4491_F010_FCF9_2B42_640B_AF97_546A);
    lemma_squared_four_more(2, 68);
    assert(squared(2, 72) == 0xCAFD_0F1D_EE4B_13F4_F910_4EDC_7CD7_C419);
    lemma_squared_four_more(2, 72);
    assert(squared(2, 76) == 0xDEB4_8144_66D6_D456_00CB_1BE4_B63B_5B3D);
    lemma_squared_four_more(2, 76);
    assert(squared(2, 80) == 0x79A3_D532_B4DC_A977_042A_87C2_811E_E47A);
    lemma_squared_four_more(2, 80);
    assert(squared(2, 84) == 0x59A0_44E5_4480_5B99_00ED_0844_0DDA_5EBA);
    lemma_squared_four_more(2, 84);
    assert(squared(2, 88) == 0x92C0_CF34_3AE0_63AD_494F_DFAB_6DF4_2306);
    lemma_squared_four_more(2, 88);
    assert(squared(2, 92) == 0xEFDB_4540_5364_8225_1843_656B_2EA8_F397);
    lemma_squared_four_more(2, 92);
    assert(squared(2, 96) == 0x40E2_DFC1_4506_98CA_DCA8_758E_D620_DD7B);
}

proof fn lemma_orbit_3()
    requires
        squared(2, 96) == 0x40E2_DFC1_4506_98CA_DCA8_758E_D620_DD7B,
    ensures
        squared(2, 128) == 0x0000_0000_0000_0000_0000_0000_0000_0002,
{
    lemma_orbit_steps_3();
    lemma_squared_four_more(2, 96);
    assert(squared(2, 100) == 0x8B62_1A33_B1F5_5BE1_B5CF_3DBE_0150_3955);
    lemma_squared_four_more(2, 100);
    assert(squared(2, 104) == 0x18FB_3BC8_96B1_5739_ABA9_209E_7280_2626);
    lemma_squared_four_more(2, 104);
    assert(squared(2, 108) == 0xB377_C704_4AEB_289D_EBAF_5667_7AF1_691D);
    lemma_squared_four_more(2, 108);
    assert(squared(2, 112) == 0xC77A_431B_1744_2DC2_46BD_F85B_5F57_64D5);
    lemma_squared_four_more(2, 112);
    assert(squared(2, 116) == 0xEBA2_E73F_8E06_F46E_77A7_AF91_0537_779D);
    lemma_squared_four_more(2, 116);
    assert(squared(2, 120) == 0x0821_6569_34AB_0DF9_8A24_ABE2_7FAF_17B9);
    lemma_squared_four_more(2, 120);
    assert(squared(2, 124) == 0xC71C_71C3_0824_9E75_DB49_0028_E7B6_CF92);
    lemma_squared_four_more(2, 124);
    assert(squared(2, 128) == 0x0000_0000_0000_0000_0000_0000_0000_0002);
}

/// The element x comes back to itself after 128 squarings.
proof fn lemma_orbit()
    ensures
        squared(2, 128) == 2,
{
    lemma_orbit_0();
    lemma_orbit_1();
    lemma_orbit_2();
    lemma_orbit_3();
}

/// Squaring 128 times over takes every element back to itself.
pub proof fn lemma_squared_around(a: u128)
    ensures
        squared(a, 128) == a,
{
    let f = |x: u128| squared(x, 128);
    let g = |x: u128| x;
    assert(is_additive(f)) by {
        assert forall|x: u128, y: u128| #[trigger] f(gf_add(x, y)) == gf_add(f(x), f(y)) by {
            lemma_squared_additive(x, y, 128);
        }
    }
    assert(is_additive(g));
    assert(agree_on_basis(f, g)) by {
        assert forall|j: u32| j < 128 implies #[trigger] f(1u128 << j) == g(1u128 << j) by {
            lemma_power_around(j);
        }
    }
    lemma_additive_maps_agree(f, g, a);
}

proof fn lemma_one_around(c: nat)
    ensures
        squared(1, c) == 1,
    decreases c,
{
    if c > 0 {
        lemma_one_around((c - 1) as nat);
        lemma_mul_one(1);
    }
}

proof fn lemma_power_around(j: u32)
    requires
        j < 128,
    ensures
        squared(1u128 << j, 128) == 1u128 << j,
    decreases j,
{
    if j == 0 {
        lemma_times_x_power(0);
        lemma_one_around(128);
    } else {
        let i = (j - 1) as u32;
        lemma_power_around(i);
        lemma_times_x_power(i);
        lemma_square_form_additive(0, 0);
        lemma_mul_basis_left(1, 1u128 << i);
        lemma_times_x_power(0);
        assert(gf_shift(1u128 << i, 1) == gf_times_x(gf_shift(1u128 << i, 0)));
        lemma_squared_product(2, 1u128 << i, 128);
        lemma_orbit();
    }
}

/// Squaring `c` times over is the power with exponent 2^c.
pub proof fn lemma_squared_is_power(a: u128, c: nat)
    ensures
        squared(a, c) == gf_pow(a, vstd::arithmetic::power2::pow2(c)),
    decreases c,
{
    if c == 0 {
        vstd::arithmetic::power2::lemma2_to64();
        assert(gf_pow(a, 1) == gf_mul(a, gf_pow(a, 0)));
        lemma_mul_one(a);
    } else {
        let d = (c - 1) as nat;
        lemma_squared_is_power(a, d);
        let e = vstd::arithmetic::power2::pow2(d);
        vstd::arithmetic::power2::lemma_pow2_unfold(c);
        lemma_pow_add(a, e, e);
    }
}

proof fn lemma_two_to_128()
    ensures
        vstd::arithmetic::power2::pow2(128) == inversion_exponent() + 2,
{
    vstd::arithmetic::power2::lemma2_to64();
    vstd::arithmetic::power2::lemma_pow2_adds(64, 64);
    assert(0x10000000000000000int * 0x10000000000000000int
        == 0x100000000000000000000000000000000int) by (nonlinear_arith);
}

/// Every nonzero element has an inverse, and only those.
pub proof fn lemma_inverse(a: u128)
    ensures
        has_inverse(a) <==> a != 0,
{
    let n = inversion_exponent();
    let e = gf_mul(a, gf_inv(a));
    if a == 0 {
        lemma_mul_zero(gf_inv(0));
    } else {
        lemma_squared_around(a);
        lemma_squared_is_power(a, 128);
        lemma_two_to_128();
        // e is the power n + 1, and e * a is the power n + 2, which is a
        assert(gf_pow(a, n + 1) == e);
        assert(gf_pow(a, n + 2) == gf_mul(a, gf_pow(a, n + 1)));
        lemma_mul_commutative(a, e);
        assert(gf_mul(e, a) == a);
        // e * e == a * (inv * e) == inv * (a * e) == inv * a == e
        lemma_mul_associative(a, gf_inv(a), e);
        lemma_mul_commutative(gf_inv(a), e);
        lemma_mul_associative(a, e, gf_inv(a));
        assert(gf_mul(e, e) == e);
        lemma_idempotent(e);
        if e == 0 {
            lemma_mul_zero(a);
        }
    }
}

} // verus!
