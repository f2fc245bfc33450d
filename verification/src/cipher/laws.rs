//! Decoding undoes encoding: for one column, for one level, for all levels.

use super::engine::{decrypt_spec, encrypt_spec, lemma_cell_position};
use super::key_scheme::{evaluation_points, lemma_vandermonde_of, KeyScheme};
use super::levels::LevelParams;
use super::transform::{
    column_rows, decode_column, decode_columns, decode_levels, descends, encode_cell,
    encode_column, encode_columns, encode_levels, in_column, lemma_decode_columns_len,
    lemma_encode_columns_len, lemma_next_level, lemma_top_level, level_fits, levels_invertible,
    masked_column, next_level, principal_of, secondary_of, squared_items, top_level,
    unmasked_column,
};
use crate::algebra::{
    image, left_inverse, lemma_inverse_after, lemma_leading_block_inverse,
    lemma_left_inverse_recovers,
};
use crate::common_ciphers::CommonCipher;
use crate::field::{
    gf_add, gf_mul, gf_pow, lemma_add_cancel, lemma_mul_associative, lemma_mul_commutative,
    lemma_mul_one, lemma_power_has_inverse, squared,
};
use crate::inverse::lemma_inverse;
use crate::matrix::{covers, dot, inverse_after, is_square};
use crate::vandermonde::{distinct_upto, is_vandermonde, lemma_distinct_points_invert};
use vstd::prelude::*;

verus! {

/// Whether the first `n` items of the two vectors are inverses of each other.
pub open spec fn masks_match(bv: Seq<u128>, ibv: Seq<u128>, n: nat) -> bool {
    forall|i: int| 0 <= i < n ==> gf_mul(#[trigger] bv[i], ibv[i]) == 1
}

/// A block of a column is where its row and its column say.
pub proof fn lemma_column_position(level: LevelParams, len: nat, index: int, x: int)
    requires
        level_fits(level, len),
        0 <= index < level.max_part_size,
        0 <= x,
        in_column(level, index, x),
    ensures
        x == (x / (level.max_part_size as int)) * level.max_part_size + index,
        0 <= x / (level.max_part_size as int) < column_rows(level, index),
        x < level.blocks_count,
{
    let p = level.max_part_size as int;
    vstd::arithmetic::div_mod::lemma_fundamental_div_mod(x, p);
    assert(p * (x / p) == (x / p) * p) by (nonlinear_arith);
    assert(0 <= x / p) by (nonlinear_arith)
        requires
            0 <= x,
            p > 0,
    ;
    lemma_cell_position(level, len, index, x / p);
}

/// Decoding a column with matching masks and a left inverse of the encoding
/// matrix gives back what was encoded.
pub proof fn lemma_decode_encode_column(
    buf: Seq<u128>,
    level: LevelParams,
    index: int,
    alpha: u128,
    bv: Seq<u128>,
    ibv: Seq<u128>,
    vm: Seq<Seq<u128>>,
    m: Seq<Seq<u128>>,
)
    requires
        level_fits(level, buf.len()),
        0 <= index < level.max_part_size,
        covers(vm, column_rows(level, index)),
        left_inverse(m, vm, column_rows(level, index)),
        masks_match(bv, ibv, column_rows(level, index)),
    ensures
        decode_column(encode_column(buf, level, index, alpha, bv, vm), level, index, alpha, ibv, m)
            == buf,
{
    let p = level.max_part_size as int;
    let rows = column_rows(level, index);
    let enc = encode_column(buf, level, index, alpha, bv, vm);
    let w = masked_column(buf, level, index, alpha, bv);
    let u = unmasked_column(enc, level, index, alpha);
    assert forall|j: int| 0 <= j < rows implies u[j] == image(vm, w, rows)[j] by {
        lemma_cell_position(level, buf.len(), index, j);
        let x = j * p + index;
        assert(in_column(level, index, x));
        assert(enc[x] == encode_cell(buf, level, index, alpha, bv, vm, j));
        lemma_add_cancel(dot(vm[j], w, rows), alpha);
    }
    assert(u =~= image(vm, w, rows));
    let out = decode_column(enc, level, index, alpha, ibv, m);
    assert forall|x: int| 0 <= x < buf.len() implies out[x] == buf[x] by {
        if in_column(level, index, x) {
            let i = x / p;
            lemma_column_position(level, buf.len(), index, x);
            lemma_left_inverse_recovers(m, vm, w, rows, i);
            let masked = gf_add(buf[x], alpha);
            assert(w[i] == gf_mul(masked, bv[i]));
            lemma_mul_associative(masked, bv[i], ibv[i]);
            lemma_mul_one(masked);
            lemma_add_cancel(buf[x], alpha);
        } else {
            assert(enc[x] == buf[x]);
        }
    }
    assert(out =~= buf);
}

/// Encoding a column looks at the blocks of that column only.
pub proof fn lemma_encode_local(
    a: Seq<u128>,
    b: Seq<u128>,
    level: LevelParams,
    index: int,
    alpha: u128,
    bv: Seq<u128>,
    vm: Seq<Seq<u128>>,
)
    requires
        a.len() == b.len(),
        level_fits(level, a.len()),
        0 <= index < level.max_part_size,
        forall|x: int| 0 <= x < a.len() && in_column(level, index, x) ==> a[x] == b[x],
    ensures
        forall|x: int|
            0 <= x < a.len() && in_column(level, index, x) ==> encode_column(
                a,
                level,
                index,
                alpha,
                bv,
                vm,
            )[x] == encode_column(b, level, index, alpha, bv, vm)[x],
{
    let p = level.max_part_size as int;
    let wa = masked_column(a, level, index, alpha, bv);
    let wb = masked_column(b, level, index, alpha, bv);
    assert forall|i: int| 0 <= i < column_rows(level, index) implies wa[i] == wb[i] by {
        lemma_cell_position(level, a.len(), index, i);
        assert(in_column(level, index, i * p + index));
    }
    assert(wa =~= wb);
}

/// Decoding a column looks at the blocks of that column only.
pub proof fn lemma_decode_local(
    a: Seq<u128>,
    b: Seq<u128>,
    level: LevelParams,
    index: int,
    alpha: u128,
    ibv: Seq<u128>,
    m: Seq<Seq<u128>>,
)
    requires
        a.len() == b.len(),
        level_fits(level, a.len()),
        0 <= index < level.max_part_size,
        forall|x: int| 0 <= x < a.len() && in_column(level, index, x) ==> a[x] == b[x],
    ensures
        forall|x: int|
            0 <= x < a.len() && in_column(level, index, x) ==> decode_column(
                a,
                level,
                index,
                alpha,
                ibv,
                m,
            )[x] == decode_column(b, level, index, alpha, ibv, m)[x],
{
    let p = level.max_part_size as int;
    let ua = unmasked_column(a, level, index, alpha);
    let ub = unmasked_column(b, level, index, alpha);
    assert forall|i: int| 0 <= i < column_rows(level, index) implies ua[i] == ub[i] by {
        lemma_cell_position(level, a.len(), index, i);
        assert(in_column(level, index, i * p + index));
    }
    assert(ua =~= ub);
}

/// Decoding one column and encoding another can change places.
pub proof fn lemma_decode_encode_commute(
    buf: Seq<u128>,
    level: LevelParams,
    j: int,
    k: int,
    alpha_d: u128,
    ibv: Seq<u128>,
    m: Seq<Seq<u128>>,
    alpha_e: u128,
    bv: Seq<u128>,
    vm: Seq<Seq<u128>>,
)
    requires
        level_fits(level, buf.len()),
        0 <= j < level.max_part_size,
        0 <= k < level.max_part_size,
        j != k,
    ensures
        decode_column(encode_column(buf, level, k, alpha_e, bv, vm), level, j, alpha_d, ibv, m)
            == encode_column(
            decode_column(buf, level, j, alpha_d, ibv, m),
            level,
            k,
            alpha_e,
            bv,
            vm,
        ),
{
    let enc = encode_column(buf, level, k, alpha_e, bv, vm);
    let dec = decode_column(buf, level, j, alpha_d, ibv, m);
    lemma_decode_local(enc, buf, level, j, alpha_d, ibv, m);
    lemma_encode_local(dec, buf, level, k, alpha_e, bv, vm);
    assert(decode_column(enc, level, j, alpha_d, ibv, m) =~= encode_column(
        dec,
        level,
        k,
        alpha_e,
        bv,
        vm,
    ));
}

/// Decoding the first `cols` columns and encoding a later one can change places.
pub proof fn lemma_decode_columns_commute(
    buf: Seq<u128>,
    level: LevelParams,
    alpha: u128,
    ibv: Seq<u128>,
    principal: Seq<Seq<u128>>,
    secondary: Seq<Seq<u128>>,
    cols: nat,
    k: int,
    alpha_e: u128,
    bv: Seq<u128>,
    vm: Seq<Seq<u128>>,
)
    requires
        level_fits(level, buf.len()),
        cols <= k < level.max_part_size,
    ensures
        decode_columns(
            encode_column(buf, level, k, alpha_e, bv, vm),
            level,
            alpha,
            ibv,
            principal,
            secondary,
            cols,
        ) == encode_column(
            decode_columns(buf, level, alpha, ibv, principal, secondary, cols),
            level,
            k,
            alpha_e,
            bv,
            vm,
        ),
    decreases cols,
{
    if cols > 0 {
        let c = (cols - 1) as nat;
        lemma_decode_columns_commute(
            buf,
            level,
            alpha,
            ibv,
            principal,
            secondary,
            c,
            k,
            alpha_e,
            bv,
            vm,
        );
        let inner = decode_columns(buf, level, alpha, ibv, principal, secondary, c);
        lemma_decode_columns_len(buf, level, alpha, ibv, principal, secondary, c);
        lemma_decode_encode_commute(
            inner,
            level,
            c as int,
            k,
            squared(alpha, c),
            squared_items(ibv, level.threshold as nat, c),
            if c < level.last_part_size {
                principal
            } else {
                secondary
            },
            alpha_e,
            bv,
            vm,
        );
    }
}

/// Squares of inverses are inverses.
pub proof fn lemma_squared_inverse(a: u128, b: u128, c: nat)
    requires
        gf_mul(a, b) == 1,
    ensures
        gf_mul(squared(a, c), squared(b, c)) == 1,
    decreases c,
{
    if c > 0 {
        lemma_squared_inverse(a, b, (c - 1) as nat);
        let x = squared(a, (c - 1) as nat);
        let y = squared(b, (c - 1) as nat);
        lemma_mul_associative(gf_mul(x, x), y, y);
        lemma_mul_associative(x, x, y);
        lemma_mul_one(x);
        lemma_mul_commutative(x, y);
        lemma_mul_one(1);
    }
}

/// Masks that match still match after squaring.
pub proof fn lemma_squared_masks_match(bv: Seq<u128>, ibv: Seq<u128>, n: nat, c: nat, rows: nat)
    requires
        rows <= n <= bv.len(),
        n <= ibv.len(),
        masks_match(bv, ibv, n),
    ensures
        masks_match(squared_items(bv, n, c), squared_items(ibv, n, c), rows),
{
    assert forall|i: int| 0 <= i < rows implies gf_mul(
        #[trigger] squared_items(bv, n, c)[i],
        squared_items(ibv, n, c)[i],
    ) == 1 by {
        assert(gf_mul(bv[i], ibv[i]) == 1);
        lemma_squared_inverse(bv[i], ibv[i], c);
    }
}

/// Decoding the columns of a level with matching masks and inverses gives
/// back what was encoded.
pub proof fn lemma_decode_encode_columns(
    buf: Seq<u128>,
    level: LevelParams,
    alpha: u128,
    bv: Seq<u128>,
    ibv: Seq<u128>,
    vm: Seq<Seq<u128>>,
    principal: Seq<Seq<u128>>,
    secondary: Seq<Seq<u128>>,
    cols: nat,
)
    requires
        level_fits(level, buf.len()),
        cols <= level.max_part_size,
        level.threshold <= bv.len(),
        level.threshold <= ibv.len(),
        covers(vm, level.threshold as nat),
        left_inverse(principal, vm, level.threshold as nat),
        left_inverse(secondary, vm, (level.threshold - 1) as nat),
        masks_match(bv, ibv, level.threshold as nat),
    ensures
        decode_columns(
            encode_columns(buf, level, alpha, bv, vm, cols),
            level,
            alpha,
            ibv,
            principal,
            secondary,
            cols,
        ) == buf,
    decreases cols,
{
    if cols > 0 {
        let c = (cols - 1) as nat;
        let t = level.threshold as nat;
        let inner = encode_columns(buf, level, alpha, bv, vm, c);
        lemma_encode_columns_len(buf, level, alpha, bv, vm, c);
        lemma_decode_encode_columns(buf, level, alpha, bv, ibv, vm, principal, secondary, c);
        lemma_decode_columns_commute(
            inner,
            level,
            alpha,
            ibv,
            principal,
            secondary,
            c,
            c as int,
            squared(alpha, c),
            squared_items(bv, t, c),
            vm,
        );
        lemma_squared_masks_match(bv, ibv, t, c, column_rows(level, c as int));
        lemma_decode_encode_column(
            buf,
            level,
            c as int,
            squared(alpha, c),
            squared_items(bv, t, c),
            squared_items(ibv, t, c),
            vm,
            if c < level.last_part_size {
                principal
            } else {
                secondary
            },
        );
    }
}

/// Whether, at this level and at every level below it, the decoding
/// matrices of the level's threshold are left inverses of the leading blocks
/// of the encoding matrix.
pub open spec fn inverses_match(vm: Seq<Seq<u128>>, level: LevelParams, t_min: nat, len: nat) -> bool
    decreases level.max_part_size,
{
    if descends(level, t_min, len) {
        proof {
            lemma_next_level(level, t_min, len);
        }
        &&& left_inverse(principal_of(vm, level.threshold as nat), vm, level.threshold as nat)
        &&& left_inverse(
            secondary_of(vm, level.threshold as nat),
            vm,
            (level.threshold - 1) as nat,
        )
        &&& inverses_match(vm, next_level(level, t_min), t_min, len)
    } else {
        true
    }
}

/// Encoding the levels keeps the length of the buffer.
pub proof fn lemma_encode_levels_len(
    buf: Seq<u128>,
    level: LevelParams,
    alpha: u128,
    bv: Seq<u128>,
    vm: Seq<Seq<u128>>,
    t_min: nat,
)
    ensures
        encode_levels(buf, level, alpha, bv, vm, t_min).len() == buf.len(),
    decreases level.max_part_size,
{
    if descends(level, t_min, buf.len()) {
        lemma_next_level(level, t_min, buf.len());
        lemma_encode_columns_len(buf, level, alpha, bv, vm, level.max_part_size as nat);
        lemma_encode_levels_len(
            encode_columns(buf, level, alpha, bv, vm, level.max_part_size as nat),
            next_level(level, t_min),
            alpha,
            bv,
            vm,
            t_min,
        );
    }
}

/// Decoding all levels with matching masks and inverses gives back what all
/// levels encoded.
pub proof fn lemma_decode_encode_levels(
    buf: Seq<u128>,
    level: LevelParams,
    alpha: u128,
    bv: Seq<u128>,
    ibv: Seq<u128>,
    vm: Seq<Seq<u128>>,
    t_min: nat,
    bound: nat,
)
    requires
        level.max_part_size > 1 ==> level.threshold <= bound,
        2 * t_min - 2 <= bound,
        bound <= bv.len(),
        bound <= ibv.len(),
        covers(vm, bound),
        masks_match(bv, ibv, bound),
        inverses_match(vm, level, t_min, buf.len()),
    ensures
        decode_levels(encode_levels(buf, level, alpha, bv, vm, t_min), level, alpha, ibv, vm, t_min)
            == buf,
    decreases level.max_part_size,
{
    if descends(level, t_min, buf.len()) {
        let next = next_level(level, t_min);
        let encoded = encode_columns(buf, level, alpha, bv, vm, level.max_part_size as nat);
        lemma_next_level(level, t_min, buf.len());
        lemma_encode_columns_len(buf, level, alpha, bv, vm, level.max_part_size as nat);
        lemma_encode_levels_len(encoded, next, alpha, bv, vm, t_min);
        lemma_decode_encode_levels(encoded, next, alpha, bv, ibv, vm, t_min, bound);
        lemma_decode_encode_columns(
            buf,
            level,
            alpha,
            bv,
            ibv,
            vm,
            principal_of(vm, level.threshold as nat),
            secondary_of(vm, level.threshold as nat),
            level.max_part_size as nat,
        );
    }
}

/// Decryption undoes encryption: where the cipher's decryption undoes its
/// encryption, the inverse masks are inverses of the masks, and the decoding
/// matrices of every level are left inverses of the encoding matrix, the
/// buffer that was encrypted and then decrypted is the buffer as it was.
pub proof fn lemma_decrypt_encrypt(
    buf: Seq<u128>,
    level: LevelParams,
    scheme: &KeyScheme,
    t_min: nat,
    prp: &CommonCipher,
)
    requires
        buf.len() >= 1,
        t_min >= 2,
        level.max_part_size > 1 ==> level.threshold <= 2 * t_min - 2,
        scheme.wf(t_min),
        prp.undoes_encryption(),
        masks_match(
            scheme.beta_vector.storage(),
            scheme.inv_beta_vector.storage(),
            (2 * t_min - 2) as nat,
        ),
        inverses_match(scheme.vender_matrix.entries(), level, t_min, buf.len()),
    ensures
        decrypt_spec(encrypt_spec(buf, level, scheme, t_min, prp), level, scheme, t_min, prp)
            == buf,
{
    let alpha = scheme.alpha@;
    let bv = scheme.beta_vector.storage();
    let ibv = scheme.inv_beta_vector.storage();
    let vm = scheme.vender_matrix.entries();
    let encoded = encode_levels(buf, level, alpha, bv, vm, t_min);
    lemma_encode_levels_len(buf, level, alpha, bv, vm, t_min);
    let root = gf_add(encoded[0], scheme.iv@);
    let sent = encoded.update(0, prp.spec_encrypt(root));
    assert(prp.spec_decrypt(prp.spec_encrypt(root)) == root);
    lemma_add_cancel(encoded[0], scheme.iv@);
    assert(sent.update(0, gf_add(prp.spec_decrypt(sent[0]), scheme.iv@)) =~= encoded);
    lemma_decode_encode_levels(buf, level, alpha, bv, ibv, vm, t_min, (2 * t_min - 2) as nat);
}

/// Where the inversions of all levels succeed, the decoding matrices of
/// every level are left inverses of the encoding matrix.
pub proof fn lemma_inverses_match(vm: Seq<Seq<u128>>, level: LevelParams, t_min: nat, len: nat)
    requires
        is_square(vm, vm.len()),
        vm.len() >= 2 * t_min - 1,
        vm.len() >= 1,
        vm[0][0] == 1,
        level.max_part_size > 1 ==> level.threshold <= 2 * t_min - 2,
        levels_invertible(vm, level, t_min, len),
    ensures
        inverses_match(vm, level, t_min, len),
    decreases level.max_part_size,
{
    if descends(level, t_min, len) {
        lemma_next_level(level, t_min, len);
        let n = vm.len();
        let t = level.threshold as nat;
        lemma_inverse_after(vm, n, (t - 1) as nat);
        lemma_inverse_after(vm, n, (t - 2) as nat);
        lemma_leading_block_inverse(
            inverse_after(vm, n, (t - 2) as nat),
            vm,
            n,
            (t - 1) as nat,
        );
        lemma_inverses_match(vm, next_level(level, t_min), t_min, len);
    }
}

/// Round trip: a buffer that is encrypted and then decrypted under the key
/// material of any key and IV is the buffer as it was, where the cipher's
/// decryption undoes its encryption, the mask beta is not zero, and the
/// inversions of all levels succeed, which is when decryption succeeds.
pub proof fn lemma_round_trip(
    buf: Seq<u128>,
    scheme: &KeyScheme,
    key: Seq<u128>,
    iv: u128,
    t_min: nat,
    prp: &CommonCipher,
)
    requires
        1 <= buf.len() <= usize::MAX,
        t_min >= 2,
        scheme.wf(t_min),
        scheme.derived_from(key, iv, t_min, prp),
        prp.undoes_encryption(),
        scheme.beta@ != 0,
        levels_invertible(
            scheme.vender_matrix.entries(),
            top_level(buf.len(), t_min),
            t_min,
            buf.len(),
        ),
    ensures
        decrypt_spec(
            encrypt_spec(buf, top_level(buf.len(), t_min), scheme, t_min, prp),
            top_level(buf.len(), t_min),
            scheme,
            t_min,
            prp,
        ) == buf,
{
    let level = top_level(buf.len(), t_min);
    let vm = scheme.vender_matrix.entries();
    let bv = scheme.beta_vector.storage();
    let ibv = scheme.inv_beta_vector.storage();
    lemma_top_level(buf.len(), t_min);
    assert(vm[0][0] == 1) by {
        assert(vm[0][0] == gf_pow(
            evaluation_points(key, iv, t_min, prp)[0],
            0,
        ));
    }
    lemma_inverses_match(vm, level, t_min, buf.len());
    assert forall|i: int| 0 <= i < 2 * t_min - 2 implies gf_mul(#[trigger] bv[i], ibv[i]) == 1 by {
        lemma_inverse(scheme.beta@);
        lemma_power_has_inverse(scheme.beta@, i as nat);
    }
    lemma_decrypt_encrypt(buf, level, scheme, t_min, prp);
}

/// Determinism: the key material of one key, IV and threshold encrypts every
/// buffer in one way, however often it is derived.
pub proof fn lemma_encryption_is_determined(
    buf: Seq<u128>,
    level: LevelParams,
    first: &KeyScheme,
    second: &KeyScheme,
    key: Seq<u128>,
    iv: u128,
    t_min: nat,
    prp: &CommonCipher,
)
    requires
        first.derived_from(key, iv, t_min, prp),
        second.derived_from(key, iv, t_min, prp),
    ensures
        encrypt_spec(buf, level, first, t_min, prp) == encrypt_spec(
            buf,
            level,
            second,
            t_min,
            prp,
        ),
{
}

/// Where the evaluation points that the levels can reach are distinct, the
/// inversions of all levels succeed.
pub proof fn lemma_distinct_levels_invertible(
    vm: Seq<Seq<u128>>,
    points: Seq<u128>,
    level: LevelParams,
    t_min: nat,
    len: nat,
)
    requires
        t_min >= 2,
        is_vandermonde(vm, points, (2 * t_min - 1) as nat),
        distinct_upto(points, (2 * t_min - 3) as nat),
        level.max_part_size > 1 ==> level.threshold <= 2 * t_min - 2,
    ensures
        levels_invertible(vm, level, t_min, len),
    decreases level.max_part_size,
{
    if descends(level, t_min, len) {
        lemma_next_level(level, t_min, len);
        lemma_distinct_points_invert(
            vm,
            points,
            (2 * t_min - 1) as nat,
            (level.threshold - 1) as nat,
        );
        lemma_distinct_levels_invertible(vm, points, next_level(level, t_min), t_min, len);
    }
}

/// Round trip for distinct evaluation points: a buffer that is encrypted
/// and then decrypted under the key material of a key and an IV is the
/// buffer as it was, where the cipher's decryption undoes its encryption,
/// the mask beta is not zero, and the first `2 * t_min - 2` evaluation
/// points of the key are pairwise distinct.
pub proof fn lemma_round_trip_distinct(
    buf: Seq<u128>,
    scheme: &KeyScheme,
    key: Seq<u128>,
    iv: u128,
    t_min: nat,
    prp: &CommonCipher,
)
    requires
        1 <= buf.len() <= usize::MAX,
        t_min >= 2,
        scheme.wf(t_min),
        scheme.derived_from(key, iv, t_min, prp),
        prp.undoes_encryption(),
        scheme.beta@ != 0,
        distinct_upto(
            evaluation_points(key, iv, t_min, prp),
            (2 * t_min - 3) as nat,
        ),
    ensures
        levels_invertible(
            scheme.vender_matrix.entries(),
            top_level(buf.len(), t_min),
            t_min,
            buf.len(),
        ),
        decrypt_spec(
            encrypt_spec(buf, top_level(buf.len(), t_min), scheme, t_min, prp),
            top_level(buf.len(), t_min),
            scheme,
            t_min,
            prp,
        ) == buf,
{
    let points = evaluation_points(key, iv, t_min, prp);
    lemma_vandermonde_of(points);
    lemma_top_level(buf.len(), t_min);
    lemma_distinct_levels_invertible(
        scheme.vender_matrix.entries(),
        points,
        top_level(buf.len(), t_min),
        t_min,
        buf.len(),
    );
    lemma_round_trip(buf, scheme, key, iv, t_min, prp);
}

} // verus!
