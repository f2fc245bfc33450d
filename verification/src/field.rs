//! Arithmetic in GF(2^128), the binary field defined by x^128 + x^7 + x^2 + x + 1.
//!
//! An element is a polynomial of degree below 128 over GF(2), held in a `u128`
//! whose bit `i` is the coefficient of x^i.

use crate::common_ciphers::CommonCipher;
use rand::RngExt;
use vstd::prelude::*;

verus! {

/// Largest number of elements a vector or a matrix row holds inline.
pub const MAX_VECTOR_ELEMENTS: usize = 30;

/// The coefficient of x^127.
pub const TOP_BIT: u128 = 0x8000_0000_0000_0000_0000_0000_0000_0000;

/// x^128 reduced modulo the field polynomial: x^7 + x^2 + x + 1.
pub const REDUCTION: u128 = 0x87;

/// An element of GF(2^128); bit `i` of `value` is the coefficient of x^i.
#[derive(Clone, Copy, Debug, PartialEq, Eq, Structural)]
pub struct GF128 {
    pub value: u128,
}

impl View for GF128 {
    type V = u128;

    open spec fn view(&self) -> u128 {
        self.value
    }
}

/// Sum of two field elements: the coefficients are added modulo 2.
pub open spec fn gf_add(a: u128, b: u128) -> u128 {
    a ^ b
}

/// Coefficient of x^i in `a`.
pub open spec fn gf_bit(a: u128, i: u32) -> bool {
    (a >> i) & 1 == 1
}

/// The product x * a, reduced modulo the field polynomial.
pub open spec fn gf_times_x(a: u128) -> u128 {
    if a & TOP_BIT != 0 {
        (a << 1u32) ^ REDUCTION
    } else {
        a << 1u32
    }
}

/// The product x^n * a, reduced modulo the field polynomial.
pub open spec fn gf_shift(a: u128, n: u32) -> u128
    decreases n,
{
    if n == 0 {
        a
    } else {
        gf_times_x(gf_shift(a, (n - 1) as u32))
    }
}

/// The product of `a` with the low `n` terms of `b`.
pub open spec fn gf_mul_low(a: u128, b: u128, n: u32) -> u128
    decreases n,
{
    if n == 0 {
        0
    } else if gf_bit(b, (n - 1) as u32) {
        gf_add(gf_mul_low(a, b, (n - 1) as u32), gf_shift(a, (n - 1) as u32))
    } else {
        gf_mul_low(a, b, (n - 1) as u32)
    }
}

/// Product of two field elements: the polynomial product reduced modulo
/// x^128 + x^7 + x^2 + x + 1.
pub open spec fn gf_mul(a: u128, b: u128) -> u128 {
    gf_mul_low(a, b, 128)
}

/// `a` raised to the power `n`.
pub open spec fn gf_pow(a: u128, n: nat) -> u128
    decreases n,
{
    if n == 0 {
        1
    } else {
        gf_mul(a, gf_pow(a, (n - 1) as nat))
    }
}

/// `a` squared `c` times over.
pub open spec fn squared(a: u128, c: nat) -> u128
    decreases c,
{
    if c == 0 {
        a
    } else {
        gf_mul(squared(a, (c - 1) as nat), squared(a, (c - 1) as nat))
    }
}

/// The exponent 2^128 - 2, which takes every invertible element to its inverse.
pub const INVERSION_EXPONENT: u128 = 0xFFFF_FFFF_FFFF_FFFF_FFFF_FFFF_FFFF_FFFE;

/// The inversion exponent as a natural number.
pub open spec fn inversion_exponent() -> nat {
    INVERSION_EXPONENT as nat
}

/// Multiplicative inverse by Fermat: `a` raised to 2^128 - 2; zero for zero.
pub open spec fn gf_inv(a: u128) -> u128 {
    gf_pow(a, inversion_exponent())
}

/// The terms of `a` of degree below `n`.
pub open spec fn gf_low(a: u128, n: u32) -> u128 {
    if n >= 128 {
        a
    } else {
        a & !(u128::MAX << n)
    }
}

/// `f` maps sums to sums.
pub open spec fn is_additive(f: spec_fn(u128) -> u128) -> bool {
    forall|x: u128, y: u128| #[trigger] f(gf_add(x, y)) == gf_add(f(x), f(y))
}

/// `f` and `g` take the same value on every power of x below x^128.
pub open spec fn agree_on_basis(f: spec_fn(u128) -> u128, g: spec_fn(u128) -> u128) -> bool {
    forall|j: u32| j < 128 ==> #[trigger] f(1u128 << j) == g(1u128 << j)
}

/// Whether the Fermat inverse of `a` is an inverse: their product is one.
/// This is so for every nonzero element and for no other.
pub open spec fn has_inverse(a: u128) -> bool {
    gf_mul(a, gf_inv(a)) == 1
}

proof fn lemma_times_x_linear(a: u128, b: u128)
    by (bit_vector)
    ensures
        gf_times_x(a ^ b) == gf_times_x(a) ^ gf_times_x(b),
        gf_times_x(0) == 0,
{
}

proof fn lemma_xor_rules(p: u128, q: u128, r: u128, s: u128)
    by (bit_vector)
    ensures
        (p ^ q) ^ (r ^ s) == (p ^ r) ^ (q ^ s),
        (p ^ q) ^ r == (p ^ r) ^ q,
        (p ^ s) ^ (q ^ s) == p ^ q,
        p ^ 0 == p,
        0 ^ p == p,
        p ^ p == 0,
        p ^ q == q ^ p,
        (p ^ q) ^ r == p ^ (q ^ r),
{
}

proof fn lemma_bit_xor(a: u128, b: u128, i: u32)
    by (bit_vector)
    requires
        i < 128,
    ensures
        gf_bit(a ^ b, i) == (gf_bit(a, i) != gf_bit(b, i)),
{
}

proof fn lemma_bit_of_power(j: u32, i: u32)
    by (bit_vector)
    requires
        i < 128,
        j < 128,
    ensures
        gf_bit(1u128 << j, i) == (i == j),
{
}

pub proof fn lemma_times_x_power(j: u32)
    by (bit_vector)
    requires
        j < 127,
    ensures
        gf_times_x(1u128 << j) == 1u128 << ((j + 1) as u32),
        1u128 << 0u32 == 1,
{
}

proof fn lemma_low_step(a: u128, n: u32)
    by (bit_vector)
    requires
        n < 128,
    ensures
        gf_low(a, (n + 1) as u32) == if gf_bit(a, n) {
            gf_low(a, n) ^ (1u128 << n)
        } else {
            gf_low(a, n)
        },
        gf_low(a, 0) == 0,
{
}

proof fn lemma_shift_linear(a: u128, b: u128, n: u32)
    ensures
        gf_shift(gf_add(a, b), n) == gf_add(gf_shift(a, n), gf_shift(b, n)),
    decreases n,
{
    if n > 0 {
        lemma_shift_linear(a, b, (n - 1) as u32);
        lemma_times_x_linear(gf_shift(a, (n - 1) as u32), gf_shift(b, (n - 1) as u32));
    }
}

pub proof fn lemma_shift_times_x(a: u128, n: u32)
    ensures
        gf_shift(gf_times_x(a), n) == gf_times_x(gf_shift(a, n)),
    decreases n,
{
    if n > 0 {
        lemma_shift_times_x(a, (n - 1) as u32);
    }
}

pub proof fn lemma_shift_one(j: u32)
    requires
        j < 128,
    ensures
        gf_shift(1, j) == 1u128 << j,
    decreases j,
{
    if j == 0 {
        lemma_times_x_power(0);
    } else {
        lemma_shift_one((j - 1) as u32);
        lemma_times_x_power((j - 1) as u32);
    }
}

proof fn lemma_mul_low_linear_left(a: u128, a2: u128, b: u128, n: u32)
    ensures
        gf_mul_low(gf_add(a, a2), b, n) == gf_add(gf_mul_low(a, b, n), gf_mul_low(a2, b, n)),
    decreases n,
{
    if n == 0 {
        lemma_xor_rules(0, 0, 0, 0);
    } else {
        let m = (n - 1) as u32;
        lemma_mul_low_linear_left(a, a2, b, m);
        lemma_shift_linear(a, a2, m);
        lemma_xor_rules(gf_mul_low(a, b, m), gf_mul_low(a2, b, m), gf_shift(a, m), gf_shift(a2, m));
    }
}

proof fn lemma_mul_low_linear_right(a: u128, b: u128, b2: u128, n: u32)
    requires
        n <= 128,
    ensures
        gf_mul_low(a, gf_add(b, b2), n) == gf_add(gf_mul_low(a, b, n), gf_mul_low(a, b2, n)),
    decreases n,
{
    if n == 0 {
        lemma_xor_rules(0, 0, 0, 0);
    } else {
        let m = (n - 1) as u32;
        lemma_mul_low_linear_right(a, b, b2, m);
        lemma_bit_xor(b, b2, m);
        let p = gf_mul_low(a, b, m);
        let q = gf_mul_low(a, b2, m);
        let s = gf_shift(a, m);
        lemma_xor_rules(p, q, s, s);
        lemma_xor_rules(p, s, q, s);
        lemma_xor_rules(q, s, p, s);
    }
}

proof fn lemma_mul_low_times_x_left(a: u128, b: u128, n: u32)
    ensures
        gf_mul_low(gf_times_x(a), b, n) == gf_times_x(gf_mul_low(a, b, n)),
    decreases n,
{
    if n == 0 {
        lemma_times_x_linear(0, 0);
    } else {
        let m = (n - 1) as u32;
        lemma_mul_low_times_x_left(a, b, m);
        lemma_shift_times_x(a, m);
        lemma_times_x_linear(gf_mul_low(a, b, m), gf_shift(a, m));
    }
}

pub proof fn lemma_mul_low_basis_right(a: u128, j: u32, n: u32)
    requires
        j < 128,
        n <= 128,
    ensures
        gf_mul_low(a, 1u128 << j, n) == if j < n {
            gf_shift(a, j)
        } else {
            0
        },
    decreases n,
{
    if n > 0 {
        let m = (n - 1) as u32;
        lemma_mul_low_basis_right(a, j, m);
        lemma_bit_of_power(j, m);
        lemma_xor_rules(gf_shift(a, j), 0, 0, 0);
    }
}

proof fn lemma_mul_low_one_left(b: u128, n: u32)
    requires
        n <= 128,
    ensures
        gf_mul_low(1, b, n) == gf_low(b, n),
    decreases n,
{
    if n == 0 {
        lemma_low_step(b, 0);
    } else {
        let m = (n - 1) as u32;
        lemma_mul_low_one_left(b, m);
        lemma_shift_one(m);
        lemma_low_step(b, m);
    }
}

pub proof fn lemma_mul_basis_left(j: u32, b: u128)
    requires
        j < 128,
    ensures
        gf_mul(1u128 << j, b) == gf_shift(b, j),
    decreases j,
{
    if j == 0 {
        lemma_times_x_power(0);
        lemma_mul_low_one_left(b, 128);
    } else {
        let i = (j - 1) as u32;
        lemma_mul_basis_left(i, b);
        lemma_times_x_power(i);
        lemma_mul_low_times_x_left(1u128 << i, b, 128);
    }
}

proof fn lemma_additive_agree_low(
    f: spec_fn(u128) -> u128,
    g: spec_fn(u128) -> u128,
    a: u128,
    n: u32,
)
    requires
        is_additive(f),
        is_additive(g),
        agree_on_basis(f, g),
        n <= 128,
    ensures
        f(gf_low(a, n)) == g(gf_low(a, n)),
    decreases n,
{
    if n == 0 {
        lemma_low_step(a, 0);
        assert(f(gf_add(0, 0)) == gf_add(f(0), f(0)));
        assert(g(gf_add(0, 0)) == gf_add(g(0), g(0)));
        lemma_xor_rules(f(0), g(0), 0, 0);
        lemma_xor_rules(g(0), f(0), 0, 0);
        lemma_xor_rules(0, 0, 0, 0);
    } else {
        let m = (n - 1) as u32;
        lemma_additive_agree_low(f, g, a, m);
        lemma_low_step(a, m);
        let l = gf_low(a, m);
        let e = 1u128 << m;
        assert(f(gf_add(l, e)) == gf_add(f(l), f(e)));
        assert(g(gf_add(l, e)) == gf_add(g(l), g(e)));
        assert(f(e) == g(e));
    }
}

/// Two additive maps that agree on the powers of x agree everywhere.
pub proof fn lemma_additive_maps_agree(
    f: spec_fn(u128) -> u128,
    g: spec_fn(u128) -> u128,
    a: u128,
)
    requires
        is_additive(f),
        is_additive(g),
        agree_on_basis(f, g),
    ensures
        f(a) == g(a),
{
    lemma_additive_agree_low(f, g, a, 128);
}

/// Addition is its own inverse: every element added to itself gives zero.
pub proof fn lemma_add_self(a: u128)
    ensures
        gf_add(a, a) == 0,
{
    lemma_xor_rules(a, 0, 0, 0);
}

/// Zero is the neutral element of addition.
pub proof fn lemma_add_zero(a: u128)
    ensures
        gf_add(a, 0) == a,
        gf_add(0, a) == a,
{
    lemma_xor_rules(a, 0, 0, 0);
}

/// Addition is commutative.
pub proof fn lemma_add_commutative(a: u128, b: u128)
    ensures
        gf_add(a, b) == gf_add(b, a),
{
    lemma_xor_rules(a, b, 0, 0);
}

/// Addition is associative.
pub proof fn lemma_add_associative(a: u128, b: u128, c: u128)
    ensures
        gf_add(a, gf_add(b, c)) == gf_add(gf_add(a, b), c),
{
    lemma_xor_rules(a, b, c, 0);
}

/// Two sums of two can exchange their inner terms.
pub proof fn lemma_add_exchange(p: u128, q: u128, r: u128, s: u128)
    ensures
        gf_add(gf_add(p, q), gf_add(r, s)) == gf_add(gf_add(p, r), gf_add(q, s)),
{
    lemma_xor_rules(p, q, r, s);
}

/// Adding the same element twice changes nothing.
pub proof fn lemma_add_cancel(p: u128, q: u128)
    ensures
        gf_add(gf_add(p, q), q) == p,
{
    lemma_xor_rules(p, q, q, 0);
    lemma_xor_rules(q, 0, 0, 0);
    lemma_xor_rules(p, 0, 0, 0);
}

/// Multiplication distributes over addition, on either side.
pub proof fn lemma_mul_distributive(a: u128, b: u128, c: u128)
    ensures
        gf_mul(a, gf_add(b, c)) == gf_add(gf_mul(a, b), gf_mul(a, c)),
        gf_mul(gf_add(b, c), a) == gf_add(gf_mul(b, a), gf_mul(c, a)),
{
    lemma_mul_low_linear_right(a, b, c, 128);
    lemma_mul_low_linear_left(b, c, a, 128);
}

/// Multiplication is commutative.
pub proof fn lemma_mul_commutative(a: u128, b: u128)
    ensures
        gf_mul(a, b) == gf_mul(b, a),
{
    let f = |x: u128| gf_mul(x, b);
    let g = |x: u128| gf_mul(b, x);
    assert(is_additive(f)) by {
        assert forall|x: u128, y: u128| #[trigger] f(gf_add(x, y)) == gf_add(f(x), f(y)) by {
            lemma_mul_distributive(b, x, y);
        }
    }
    assert(is_additive(g)) by {
        assert forall|x: u128, y: u128| #[trigger] g(gf_add(x, y)) == gf_add(g(x), g(y)) by {
            lemma_mul_distributive(b, x, y);
        }
    }
    assert(agree_on_basis(f, g)) by {
        assert forall|j: u32| j < 128 implies #[trigger] f(1u128 << j) == g(1u128 << j) by {
            lemma_mul_basis_left(j, b);
            lemma_mul_low_basis_right(b, j, 128);
        }
    }
    lemma_additive_maps_agree(f, g, a);
}

/// One is the neutral element of multiplication.
pub proof fn lemma_mul_one(a: u128)
    ensures
        gf_mul(a, 1) == a,
        gf_mul(1, a) == a,
{
    lemma_times_x_power(0);
    lemma_mul_low_basis_right(a, 0, 128);
    lemma_mul_commutative(a, 1);
}

/// Every product with zero is zero.
pub proof fn lemma_mul_zero(a: u128)
    ensures
        gf_mul(a, 0) == 0,
        gf_mul(0, a) == 0,
{
    lemma_mul_distributive(a, 0, 0);
    lemma_xor_rules(0, 0, 0, 0);
    lemma_xor_rules(gf_mul(a, 0), 0, 0, 0);
    lemma_mul_commutative(a, 0);
}

proof fn lemma_mul_shift_right(a: u128, b: u128, j: u32)
    ensures
        gf_mul(a, gf_shift(b, j)) == gf_shift(gf_mul(a, b), j),
    decreases j,
{
    if j > 0 {
        let i = (j - 1) as u32;
        lemma_mul_shift_right(a, b, i);
        let c = gf_shift(b, i);
        lemma_mul_commutative(a, gf_times_x(c));
        lemma_mul_low_times_x_left(c, a, 128);
        lemma_mul_commutative(c, a);
    }
}

/// Multiplication is associative.
pub proof fn lemma_mul_associative(a: u128, b: u128, c: u128)
    ensures
        gf_mul(a, gf_mul(b, c)) == gf_mul(gf_mul(a, b), c),
{
    let f = |x: u128| gf_mul(gf_mul(a, b), x);
    let g = |x: u128| gf_mul(a, gf_mul(b, x));
    assert(is_additive(f)) by {
        assert forall|x: u128, y: u128| #[trigger] f(gf_add(x, y)) == gf_add(f(x), f(y)) by {
            lemma_mul_distributive(gf_mul(a, b), x, y);
        }
    }
    assert(is_additive(g)) by {
        assert forall|x: u128, y: u128| #[trigger] g(gf_add(x, y)) == gf_add(g(x), g(y)) by {
            lemma_mul_distributive(b, x, y);
            lemma_mul_distributive(a, gf_mul(b, x), gf_mul(b, y));
        }
    }
    assert(agree_on_basis(f, g)) by {
        assert forall|j: u32| j < 128 implies #[trigger] f(1u128 << j) == g(1u128 << j) by {
            lemma_mul_low_basis_right(gf_mul(a, b), j, 128);
            lemma_mul_low_basis_right(b, j, 128);
            lemma_mul_shift_right(a, b, j);
        }
    }
    lemma_additive_maps_agree(f, g, c);
}

/// Powers add their exponents under multiplication.
pub proof fn lemma_pow_add(a: u128, m: nat, n: nat)
    ensures
        gf_pow(a, m + n) == gf_mul(gf_pow(a, m), gf_pow(a, n)),
    decreases m,
{
    if m == 0 {
        lemma_mul_one(gf_pow(a, n));
    } else {
        lemma_pow_add(a, (m - 1) as nat, n);
        lemma_mul_associative(a, gf_pow(a, (m - 1) as nat), gf_pow(a, n));
    }
}

/// A power of a square is the power with twice the exponent.
pub proof fn lemma_pow_of_square(a: u128, n: nat)
    ensures
        gf_pow(gf_mul(a, a), n) == gf_pow(a, 2 * n),
    decreases n,
{
    if n > 0 {
        let k = (n - 1) as nat;
        lemma_pow_of_square(a, k);
        lemma_mul_associative(a, a, gf_pow(a, 2 * k));
        assert(gf_pow(a, 2 * k + 1) == gf_mul(a, gf_pow(a, 2 * k)));
        assert(gf_pow(a, 2 * n) == gf_mul(a, gf_pow(a, (2 * k + 1) as nat)));
    }
}

/// A power of a power is the power with the product of the exponents.
pub proof fn lemma_pow_mul(a: u128, m: nat, n: nat)
    ensures
        gf_pow(gf_pow(a, m), n) == gf_pow(a, m * n),
    decreases n,
{
    if n == 0 {
        assert(m * 0 == 0);
    } else {
        let k = (n - 1) as nat;
        lemma_pow_mul(a, m, k);
        lemma_pow_add(a, m, m * k);
        assert(m * n == m + m * k) by (nonlinear_arith)
            requires
                k == n - 1,
        ;
    }
}

/// Every power of one is one.
pub proof fn lemma_pow_of_one(n: nat)
    ensures
        gf_pow(1, n) == 1,
    decreases n,
{
    if n > 0 {
        lemma_pow_of_one((n - 1) as nat);
        lemma_mul_one(1);
    }
}

/// The power of a product is the product of the powers.
pub proof fn lemma_pow_of_product(a: u128, b: u128, n: nat)
    ensures
        gf_pow(gf_mul(a, b), n) == gf_mul(gf_pow(a, n), gf_pow(b, n)),
    decreases n,
{
    if n == 0 {
        lemma_mul_one(1);
    } else {
        let k = (n - 1) as nat;
        lemma_pow_of_product(a, b, k);
        let x = gf_pow(a, k);
        let y = gf_pow(b, k);
        lemma_mul_associative(gf_mul(a, b), x, y);
        lemma_mul_associative(a, b, x);
        lemma_mul_commutative(b, x);
        lemma_mul_associative(a, x, b);
        lemma_mul_associative(gf_mul(a, x), b, y);
    }
}

/// The inverse of a power is the power of the inverse: inverting each power
/// of an element and taking the powers of its inverse agree.
pub proof fn lemma_inverse_of_power(a: u128, n: nat)
    ensures
        gf_inv(gf_pow(a, n)) == gf_pow(gf_inv(a), n),
{
    lemma_pow_mul(a, n, inversion_exponent());
    lemma_pow_mul(a, inversion_exponent(), n);
    assert(n * inversion_exponent() == inversion_exponent() * n) by (nonlinear_arith);
}

/// The powers of an element that has an inverse have inverses.
pub proof fn lemma_power_has_inverse(a: u128, n: nat)
    requires
        has_inverse(a),
    ensures
        has_inverse(gf_pow(a, n)),
{
    lemma_inverse_of_power(a, n);
    lemma_pow_of_product(a, gf_inv(a), n);
    lemma_pow_of_one(n);
}

/// Every positive power of zero is zero.
pub proof fn lemma_pow_zero(n: nat)
    requires
        n > 0,
    ensures
        gf_pow(0, n) == 0,
{
    lemma_mul_zero(gf_pow(0, (n - 1) as nat));
}

proof fn lemma_pow_one(a: u128)
    ensures
        gf_pow(a, 1) == a,
{
    assert(gf_pow(a, 0) == 1);
    lemma_mul_one(a);
}

proof fn lemma_window_step(position: u32)
    by (bit_vector)
    requires
        4 <= position <= 128,
        position % 4 == 0,
    ensures
        (INVERSION_EXPONENT >> ((position - 4) as u32)) & 0xF <= 15,
        position < 128 ==> (INVERSION_EXPONENT >> ((position - 4) as u32)) == 16 * (
        INVERSION_EXPONENT >> position) + ((INVERSION_EXPONENT >> ((position - 4) as u32)) & 0xF),
        position == 128 ==> (INVERSION_EXPONENT >> ((position - 4) as u32)) == (
        INVERSION_EXPONENT >> ((position - 4) as u32)) & 0xF,
{
}

proof fn lemma_window_end()
    by (bit_vector)
    ensures
        INVERSION_EXPONENT >> 0u32 == INVERSION_EXPONENT,
{
}

proof fn lemma_low_bit(e: usize)
    by (bit_vector)
    ensures
        e & 1 == e % 2,
        e >> 1u32 == e / 2,
{
}

proof fn lemma_be_byte_fits(v: u128, shift: u32)
    by (bit_vector)
    ensures
        (v >> shift) & 0xff <= 0xff,
{
}

/// Byte `i` of `v` in big-endian order: byte 0 holds the highest coefficients.
pub open spec fn be_byte(v: u128, i: int) -> u8 {
    ((v >> ((15 - i) * 8) as u32) & 0xff) as u8
}

/// The value whose big-endian bytes are the first `n` bytes of `bytes`.
pub open spec fn from_be_bytes_low(bytes: Seq<u8>, n: int) -> u128
    decreases n,
{
    if n <= 0 {
        0
    } else {
        (from_be_bytes_low(bytes, n - 1) << 8u32) | (bytes[n - 1] as u128)
    }
}

/// The value whose sixteen big-endian bytes are `bytes`.
pub open spec fn from_be_bytes(bytes: Seq<u8>) -> u128 {
    from_be_bytes_low(bytes, 16)
}

/// The product x * a.
fn times_x(a: u128) -> (r: u128)
    ensures
        r == gf_times_x(a),
{
    if a & TOP_BIT != 0 {
        (a << 1u32) ^ REDUCTION
    } else {
        a << 1u32
    }
}

impl GF128 {
    /// Whether this is the zero element.
    pub fn is_zero(&self) -> (r: bool)
        ensures
            r == (self@ == 0),
    {
        self.to_u128() == 0
    }

    /// Whether this is the unit element.
    pub fn is_one(&self) -> (r: bool)
        ensures
            r == (self@ == 1),
    {
        self.to_u128() == 1
    }

    /// The coefficients as an integer.
    pub fn to_u128(&self) -> (r: u128)
        ensures
            r == self@,
    {
        self.value
    }

    /// The sum of `self` and `rhs`.
    pub fn addto(&self, rhs: &GF128) -> (r: GF128)
        ensures
            r@ == gf_add(self@, rhs@),
    {
        GF128 { value: self.value ^ rhs.value }
    }

    /// The difference of `self` and `rhs`, which in this field is their sum.
    pub fn subtract(&self, rhs: &GF128) -> (r: GF128)
        ensures
            r@ == gf_add(self@, rhs@),
    {
        GF128 { value: self.value ^ rhs.value }
    }

    /// The product of `self` and `rhs`.
    pub fn multiply(&self, rhs: &GF128) -> (r: GF128)
        ensures
            r@ == gf_mul(self@, rhs@),
    {
        let a = self.value;
        let b = rhs.value;
        let mut acc: u128 = 0;
        let mut cur: u128 = a;
        let mut i: u32 = 0;
        while i < 128
            invariant
                i <= 128,
                acc == gf_mul_low(a, b, i),
                cur == gf_shift(a, i),
            decreases 128 - i,
        {
            if (b >> i) & 1 == 1 {
                acc = acc ^ cur;
            }
            cur = times_x(cur);
            i = i + 1;
        }
        GF128 { value: acc }
    }

    /// The multiplicative inverse of `self`: `self` raised to 2^128 - 2,
    /// taken four exponent bits at a time. The inverse of zero is zero.
    pub fn invert(&self) -> (r: GF128)
        ensures
            r@ == gf_inv(self@),
            self@ != 0 ==> gf_mul(self@, r@) == 1,
            self@ == 0 ==> r@ == 0,
    {
        let a = self.value;
        proof {
            crate::inverse::lemma_inverse(a);
        }
        if a == 0 {
            proof {
                lemma_pow_zero(inversion_exponent());
            }
            return GF128 { value: 0 };
        }
        let mut powers: Vec<GF128> = Vec::new();
        powers.push(GF128 { value: 1 });
        let mut i: usize = 1;
        while i < 16
            invariant
                1 <= i <= 16,
                a == self@,
                powers@.len() == i,
                forall|k: int| 0 <= k < i ==> (#[trigger] powers@[k])@ == gf_pow(a, k as nat),
            decreases 16 - i,
        {
            let ghost before = powers@;
            let next = self.multiply(&powers[i - 1]);
            powers.push(next);
            proof {
                assert(before[i - 1]@ == gf_pow(a, (i - 1) as nat));
                assert forall|k: int| 0 <= k < i + 1 implies (#[trigger] powers@[k])@ == gf_pow(
                    a,
                    k as nat,
                ) by {
                    if k < i {
                        assert(powers@[k] == before[k]);
                    } else {
                        assert(gf_pow(a, i as nat) == gf_mul(a, gf_pow(a, (i - 1) as nat)));
                    }
                }
            }
            i = i + 1;
        }
        let mut result = GF128 { value: 1 };
        let mut position: u32 = 128;
        let ghost mut done: nat = 0;
        while position >= 4
            invariant
                position <= 128,
                position % 4 == 0,
                powers@.len() == 16,
                forall|k: int| 0 <= k < 16 ==> (#[trigger] powers@[k])@ == gf_pow(a, k as nat),
                result@ == gf_pow(a, done),
                position < 128 ==> done == INVERSION_EXPONENT >> position,
                position == 128 ==> done == 0,
            decreases position,
        {
            proof {
                lemma_window_step(position);
            }
            position = position - 4;
            let window = ((INVERSION_EXPONENT >> position) & 0xF) as usize;
            let r2 = result.multiply(&result);
            let r4 = r2.multiply(&r2);
            let r8 = r4.multiply(&r4);
            let r16 = r8.multiply(&r8);
            proof {
                lemma_pow_add(a, done, done);
                lemma_pow_add(a, 2 * done, 2 * done);
                lemma_pow_add(a, 4 * done, 4 * done);
                lemma_pow_add(a, 8 * done, 8 * done);
                lemma_pow_add(a, 16 * done, window as nat);
            }
            result = r16.multiply(&powers[window]);
            proof {
                done = 16 * done + window as nat;
            }
        }
        proof {
            lemma_window_end();
        }
        result
    }

    /// The quotient of `self` by `rhs`: the product with the inverse of `rhs`.
    pub fn divide(&self, rhs: &GF128) -> (r: GF128)
        ensures
            r@ == gf_mul(self@, gf_inv(rhs@)),
            rhs@ != 0 ==> gf_mul(r@, rhs@) == self@,
    {
        let inverse = rhs.invert();
        proof {
            lemma_mul_associative(self@, inverse@, rhs@);
            lemma_mul_commutative(inverse@, rhs@);
            lemma_mul_one(self@);
        }
        self.multiply(&inverse)
    }

    /// `self` raised to the power `exponent`, by squaring and multiplying.
    pub fn pow(&self, exponent: usize) -> (r: GF128)
        ensures
            r@ == gf_pow(self@, exponent as nat),
    {
        if exponent == 0 {
            return GF128 { value: 1 };
        }
        if exponent == 1 {
            proof {
                lemma_pow_one(self@);
            }
            return *self;
        }
        if self.is_zero() {
            proof {
                lemma_pow_zero(exponent as nat);
            }
            return GF128 { value: 0 };
        }
        let mut result = GF128 { value: 1 };
        let mut base = *self;
        let mut exp = exponent;
        proof {
            lemma_mul_one(gf_pow(self@, exponent as nat));
        }
        while exp > 0
            invariant
                gf_mul(result@, gf_pow(base@, exp as nat)) == gf_pow(self@, exponent as nat),
            decreases exp,
        {
            proof {
                lemma_low_bit(exp);
                lemma_pow_of_square(base@, (exp / 2) as nat);
                if exp % 2 == 1 {
                    assert(gf_pow(base@, exp as nat) == gf_mul(
                        base@,
                        gf_pow(base@, (exp - 1) as nat),
                    ));
                    lemma_mul_associative(result@, base@, gf_pow(base@, (exp - 1) as nat));
                }
            }
            if exp & 1 == 1 {
                result = result.multiply(&base);
            }
            base = base.multiply(&base);
            exp = exp >> 1u32;
        }
        proof {
            lemma_mul_one(result@);
        }
        result
    }

    /// A field element drawn from the thread's random number generator
    /// (`rand::rng` and `random`); nothing is known of its value.
    #[verifier::external_body]
    pub fn random() -> GF128 {
        GF128 { value: rand::rng().random::<u128>() }
    }

    /// The element in hexadecimal with the prefix `0x` (`format!` with `{:x}`).
    #[verifier::external_body]
    pub fn to_hex_string(&self) -> String {
        format!("0x{:x}", self.value)
    }

    /// The element in hexadecimal with the prefix `0x`, filled up with zeros
    /// to 32 digits (`format!` with `{:032x}`).
    #[verifier::external_body]
    pub fn to_padded_hex_string(&self) -> String {
        format!("0x{:032x}", self.value)
    }

    /// The element as a decimal number (`format!` with `{}`).
    #[verifier::external_body]
    pub fn to_decimal_string(&self) -> String {
        format!("{}", self.value)
    }

    /// The element that `prp` makes of this one by encryption.
    pub fn prp_encrypt(&self, prp: &CommonCipher) -> (r: GF128)
        ensures
            r@ == prp.spec_encrypt(self@),
            prp.spec_decrypt(r@) == self@,
    {
        GF128 { value: prp.encrypt_block(self.to_u128()) }
    }

    /// The element that `prp` makes of this one by decryption.
    pub fn prp_decrypt(&self, prp: &CommonCipher) -> (r: GF128)
        ensures
            r@ == prp.spec_decrypt(self@),
    {
        GF128 { value: prp.decrypt_block(self.to_u128()) }
    }

    /// The sixteen bytes of the element, highest coefficients first.
    pub fn to_bytes(&self) -> (r: [u8; 16])
        ensures
            forall|i: int| 0 <= i < 16 ==> r@[i] == be_byte(self@, i),
    {
        let v = self.value;
        let mut out = [0u8; 16];
        let mut i: usize = 0;
        while i < 16
            invariant
                i <= 16,
                forall|k: int| 0 <= k < i ==> out@[k] == be_byte(v, k),
            decreases 16 - i,
        {
            let shift: u32 = ((15 - i) * 8) as u32;
            proof {
                lemma_be_byte_fits(v, shift);
            }
            out[i] = ((v >> shift) & 0xff) as u8;
            i = i + 1;
        }
        out
    }
}

} // verus!
