//! Operators and conversions for field elements.

use crate::field::{be_byte, from_be_bytes, from_be_bytes_low, gf_add, gf_inv, gf_mul, GF128};
use vstd::prelude::*;
use vstd::std_specs::convert::FromSpecImpl;
use vstd::std_specs::ops::{AddSpecImpl, BitXorSpecImpl, DivSpecImpl, MulSpecImpl, SubSpecImpl};

verus! {

/// The value of the first `n` 64-bit words, the highest first.
pub open spec fn from_quad_words(words: Seq<u64>, n: int) -> u128
    decreases n,
{
    if n <= 0 {
        0
    } else {
        (from_quad_words(words, n - 1) << 64u32) | (words[n - 1] as u128)
    }
}

/// The value of the first `n` 32-bit words, the highest first.
pub open spec fn from_double_words(words: Seq<u32>, n: int) -> u128
    decreases n,
{
    if n <= 0 {
        0
    } else {
        (from_double_words(words, n - 1) << 32u32) | (words[n - 1] as u128)
    }
}

/// The value of the first `n` 16-bit words, the highest first.
pub open spec fn from_words(words: Seq<u16>, n: int) -> u128
    decreases n,
{
    if n <= 0 {
        0
    } else {
        (from_words(words, n - 1) << 16u32) | (words[n - 1] as u128)
    }
}

impl core::ops::Add for GF128 {
    type Output = GF128;

    fn add(self, rhs: GF128) -> (r: GF128) {
        self.addto(&rhs)
    }
}

impl AddSpecImpl for GF128 {
    open spec fn obeys_add_spec() -> bool {
        true
    }

    open spec fn add_req(self, rhs: GF128) -> bool {
        true
    }

    open spec fn add_spec(self, rhs: GF128) -> GF128 {
        GF128 { value: gf_add(self.value, rhs.value) }
    }
}

impl core::ops::Sub for GF128 {
    type Output = GF128;

    fn sub(self, rhs: GF128) -> (r: GF128) {
        self.subtract(&rhs)
    }
}

impl SubSpecImpl for GF128 {
    open spec fn obeys_sub_spec() -> bool {
        true
    }

    open spec fn sub_req(self, rhs: GF128) -> bool {
        true
    }

    open spec fn sub_spec(self, rhs: GF128) -> GF128 {
        GF128 { value: gf_add(self.value, rhs.value) }
    }
}

impl core::ops::BitXor for GF128 {
    type Output = GF128;

    fn bitxor(self, rhs: GF128) -> (r: GF128) {
        self.addto(&rhs)
    }
}

impl BitXorSpecImpl for GF128 {
    open spec fn obeys_bitxor_spec() -> bool {
        true
    }

    open spec fn bitxor_req(self, rhs: GF128) -> bool {
        true
    }

    open spec fn bitxor_spec(self, rhs: GF128) -> GF128 {
        GF128 { value: gf_add(self.value, rhs.value) }
    }
}

impl core::ops::Mul for GF128 {
    type Output = GF128;

    fn mul(self, rhs: GF128) -> (r: GF128) {
        self.multiply(&rhs)
    }
}

impl MulSpecImpl for GF128 {
    open spec fn obeys_mul_spec() -> bool {
        true
    }

    open spec fn mul_req(self, rhs: GF128) -> bool {
        true
    }

    open spec fn mul_spec(self, rhs: GF128) -> GF128 {
        GF128 { value: gf_mul(self.value, rhs.value) }
    }
}

impl core::ops::Div for GF128 {
    type Output = GF128;

    fn div(self, rhs: GF128) -> (r: GF128) {
        self.divide(&rhs)
    }
}

impl DivSpecImpl for GF128 {
    open spec fn obeys_div_spec() -> bool {
        true
    }

    open spec fn div_req(self, rhs: GF128) -> bool {
        true
    }

    open spec fn div_spec(self, rhs: GF128) -> GF128 {
        GF128 { value: gf_mul(self.value, gf_inv(rhs.value)) }
    }
}

impl From<u128> for GF128 {
    fn from(input: u128) -> (r: GF128) {
        GF128 { value: input }
    }
}

impl FromSpecImpl<u128> for GF128 {
    open spec fn obeys_from_spec() -> bool {
        true
    }

    open spec fn from_spec(input: u128) -> GF128 {
        GF128 { value: input }
    }
}

impl From<&[u8; 16]> for GF128 {
    fn from(bytes: &[u8; 16]) -> (r: GF128) {
        let mut value: u128 = 0;
        let mut i: usize = 0;
        while i < 16
            invariant
                i <= 16,
                value == from_be_bytes_low(bytes@, i as int),
            decreases 16 - i,
        {
            value = (value << 8u32) | (bytes[i] as u128);
            i = i + 1;
        }
        GF128 { value }
    }
}

impl FromSpecImpl<&[u8; 16]> for GF128 {
    open spec fn obeys_from_spec() -> bool {
        true
    }

    open spec fn from_spec(bytes: &[u8; 16]) -> GF128 {
        GF128 { value: from_be_bytes(bytes@) }
    }
}

impl From<&[u64; 2]> for GF128 {
    fn from(qwords: &[u64; 2]) -> (r: GF128) {
        let mut value: u128 = 0;
        let mut i: usize = 0;
        while i < 2
            invariant
                i <= 2,
                value == from_quad_words(qwords@, i as int),
            decreases 2 - i,
        {
            value = (value << 64u32) | (qwords[i] as u128);
            i = i + 1;
        }
        GF128 { value }
    }
}

impl FromSpecImpl<&[u64; 2]> for GF128 {
    open spec fn obeys_from_spec() -> bool {
        true
    }

    open spec fn from_spec(qwords: &[u64; 2]) -> GF128 {
        GF128 { value: from_quad_words(qwords@, 2) }
    }
}

impl From<&[u16; 8]> for GF128 {
    fn from(words: &[u16; 8]) -> (r: GF128) {
        let mut value: u128 = 0;
        let mut i: usize = 0;
        while i < 8
            invariant
                i <= 8,
                value == from_words(words@, i as int),
            decreases 8 - i,
        {
            value = (value << 16u32) | (words[i] as u128);
            i = i + 1;
        }
        GF128 { value }
    }
}

impl FromSpecImpl<&[u16; 8]> for GF128 {
    open spec fn obeys_from_spec() -> bool {
        true
    }

    open spec fn from_spec(words: &[u16; 8]) -> GF128 {
        GF128 { value: from_words(words@, 8) }
    }
}

impl From<&[u32; 4]> for GF128 {
    fn from(dwords: &[u32; 4]) -> (r: GF128) {
        let mut value: u128 = 0;
        let mut i: usize = 0;
        while i < 4
            invariant
                i <= 4,
                value == from_double_words(dwords@, i as int),
            decreases 4 - i,
        {
            value = (value << 32u32) | (dwords[i] as u128);
            i = i + 1;
        }
        GF128 { value }
    }
}

impl FromSpecImpl<&[u32; 4]> for GF128 {
    open spec fn obeys_from_spec() -> bool {
        true
    }

    open spec fn from_spec(dwords: &[u32; 4]) -> GF128 {
        GF128 { value: from_double_words(dwords@, 4) }
    }
}

proof fn lemma_byte_joined(v: u128, n: u32)
    by (bit_vector)
    requires
        1 <= n < 16,
    ensures
        ((v >> ((8 * (16 - n)) as u32)) << 8u32) | (((v >> ((8 * (15 - n)) as u32)) & 0xff) as u8
            as u128) == v >> ((8 * (15 - n)) as u32),
        (0u128 << 8u32) | (((v >> 120u32) & 0xff) as u8 as u128) == v >> 120u32,
        v >> 0u32 == v,
{
}

proof fn lemma_from_be_bytes_low(v: u128, s: Seq<u8>, n: nat)
    requires
        1 <= n <= 16,
        forall|i: int| 0 <= i < 16 ==> s[i] == be_byte(v, i),
    ensures
        from_be_bytes_low(s, n as int) == v >> ((8 * (16 - n)) as u32),
    decreases n,
{
    if n == 1 {
        assert(from_be_bytes_low(s, 0) == 0);
        lemma_byte_joined(v, 1);
    } else {
        lemma_from_be_bytes_low(v, s, (n - 1) as nat);
        lemma_byte_joined(v, (n - 1) as u32);
    }
}

/// The element of the sixteen bytes of an element is that element.
pub proof fn lemma_bytes_round_trip(v: u128, s: Seq<u8>)
    requires
        forall|i: int| 0 <= i < 16 ==> s[i] == be_byte(v, i),
    ensures
        from_be_bytes(s) == v,
{
    lemma_from_be_bytes_low(v, s, 16);
    lemma_byte_joined(v, 1);
}

} // verus!
