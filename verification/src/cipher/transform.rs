//! What the level transform computes: one column, one level, all levels.
//!
//! At a level of `p` columns, column `c` holds the blocks at `c`, `c + p`,
//! `c + 2p`, and so on. Leading columns are full and hold `threshold` rows,
//! the others hold one row less.

use super::levels::{fit_thresholds_spec, full_columns, lemma_fit_thresholds, LevelParams};
use crate::field::{gf_add, gf_mul, squared};
use crate::matrix::{dot, extensible, inverse_after, leading_block, zero_table};
use vstd::prelude::*;

verus! {

/// The number of rows of column `index`.
pub open spec fn column_rows(level: LevelParams, index: int) -> nat {
    if index < level.last_part_size {
        level.threshold as nat
    } else {
        (level.threshold - 1) as nat
    }
}

/// Whether the level describes a cut of its blocks that lies within `len` blocks.
pub open spec fn level_fits(level: LevelParams, len: nat) -> bool {
    &&& 1 <= level.blocks_count <= len
    &&& level.max_part_size >= 1
    &&& level.threshold >= 1
    &&& level.max_part_size > 1 ==> level.threshold >= 2
    &&& level.last_part_size == level.blocks_count % level.max_part_size
    &&& level.blocks_count == (level.threshold - 1) * level.max_part_size + full_columns(
        level.blocks_count as nat,
        level.max_part_size as nat,
    )
}

/// Whether block `x` is one of the rows of column `index`.
pub open spec fn in_column(level: LevelParams, index: int, x: int) -> bool {
    x % (level.max_part_size as int) == index && x / (level.max_part_size as int) < column_rows(
        level,
        index,
    )
}

/// The rows of column `index`, each with `alpha` added and then multiplied
/// by its power of beta.
pub open spec fn masked_column(
    buf: Seq<u128>,
    level: LevelParams,
    index: int,
    alpha: u128,
    bv: Seq<u128>,
) -> Seq<u128> {
    Seq::new(
        column_rows(level, index),
        |i: int| gf_mul(gf_add(buf[i * level.max_part_size + index], alpha), bv[i]),
    )
}

/// Row `i` of column `index` after encoding: the masked column multiplied by
/// row `i` of the matrix, with `alpha` added.
pub open spec fn encode_cell(
    buf: Seq<u128>,
    level: LevelParams,
    index: int,
    alpha: u128,
    bv: Seq<u128>,
    vm: Seq<Seq<u128>>,
    i: int,
) -> u128 {
    gf_add(
        dot(vm[i], masked_column(buf, level, index, alpha, bv), column_rows(level, index)),
        alpha,
    )
}

/// The buffer after encoding column `index`; other blocks stay.
pub open spec fn encode_column(
    buf: Seq<u128>,
    level: LevelParams,
    index: int,
    alpha: u128,
    bv: Seq<u128>,
    vm: Seq<Seq<u128>>,
) -> Seq<u128> {
    Seq::new(
        buf.len(),
        |x: int|
            if in_column(level, index, x) {
                encode_cell(buf, level, index, alpha, bv, vm, x / (level.max_part_size as int))
            } else {
                buf[x]
            },
    )
}

/// The rows of column `index`, each with `alpha` added.
pub open spec fn unmasked_column(buf: Seq<u128>, level: LevelParams, index: int, alpha: u128) -> Seq<
    u128,
> {
    Seq::new(
        column_rows(level, index),
        |i: int| gf_add(buf[i * level.max_part_size + index], alpha),
    )
}

/// Row `i` of column `index` after decoding: the unmasked column multiplied
/// by row `i` of the matrix, then by the inverse power of beta, with `alpha` added.
pub open spec fn decode_cell(
    buf: Seq<u128>,
    level: LevelParams,
    index: int,
    alpha: u128,
    ibv: Seq<u128>,
    m: Seq<Seq<u128>>,
    i: int,
) -> u128 {
    gf_add(
        gf_mul(
            dot(m[i], unmasked_column(buf, level, index, alpha), column_rows(level, index)),
            ibv[i],
        ),
        alpha,
    )
}

/// The buffer after decoding column `index`; other blocks stay.
pub open spec fn decode_column(
    buf: Seq<u128>,
    level: LevelParams,
    index: int,
    alpha: u128,
    ibv: Seq<u128>,
    m: Seq<Seq<u128>>,
) -> Seq<u128> {
    Seq::new(
        buf.len(),
        |x: int|
            if in_column(level, index, x) {
                decode_cell(buf, level, index, alpha, ibv, m, x / (level.max_part_size as int))
            } else {
                buf[x]
            },
    )
}

/// The vector with its first `n` items squared `c` times over.
pub open spec fn squared_items(v: Seq<u128>, n: nat, c: nat) -> Seq<u128> {
    Seq::new(
        v.len(),
        |k: int|
            if k < n {
                squared(v[k], c)
            } else {
                v[k]
            },
    )
}

/// The buffer after encoding the first `cols` columns of a level: column
/// `c` works with the masks squared `c` times over.
pub open spec fn encode_columns(
    buf: Seq<u128>,
    level: LevelParams,
    alpha: u128,
    bv: Seq<u128>,
    vm: Seq<Seq<u128>>,
    cols: nat,
) -> Seq<u128>
    decreases cols,
{
    if cols == 0 {
        buf
    } else {
        let c = (cols - 1) as nat;
        encode_column(
            encode_columns(buf, level, alpha, bv, vm, c),
            level,
            c as int,
            squared(alpha, c),
            squared_items(bv, level.threshold as nat, c),
            vm,
        )
    }
}

/// The buffer after decoding the first `cols` columns of a level: full
/// columns with the principal matrix, the others with the secondary one.
pub open spec fn decode_columns(
    buf: Seq<u128>,
    level: LevelParams,
    alpha: u128,
    ibv: Seq<u128>,
    principal: Seq<Seq<u128>>,
    secondary: Seq<Seq<u128>>,
    cols: nat,
) -> Seq<u128>
    decreases cols,
{
    if cols == 0 {
        buf
    } else {
        let c = (cols - 1) as nat;
        decode_column(
            decode_columns(buf, level, alpha, ibv, principal, secondary, c),
            level,
            c as int,
            squared(alpha, c),
            squared_items(ibv, level.threshold as nat, c),
            if c < level.last_part_size {
                principal
            } else {
                secondary
            },
        )
    }
}

/// The level below `level`: its columns are the blocks of the next.
pub open spec fn next_level(level: LevelParams, t_min: nat) -> LevelParams {
    let fitted = fit_thresholds_spec(level.max_part_size as nat, t_min);
    LevelParams {
        start: level.start,
        end: (fitted.1 - 1) as usize,
        blocks_count: level.max_part_size,
        threshold: fitted.0 as usize,
        max_part_size: fitted.1 as usize,
        last_part_size: ((level.max_part_size as nat) % fitted.1) as usize,
    }
}

/// The level that `n` blocks start with.
pub open spec fn top_level(n: nat, t_min: nat) -> LevelParams {
    let fitted = fit_thresholds_spec(n, t_min);
    LevelParams {
        start: 0,
        end: (n - 1) as usize,
        blocks_count: n as usize,
        threshold: fitted.0 as usize,
        max_part_size: fitted.1 as usize,
        last_part_size: (n % fitted.1) as usize,
    }
}

/// A level with more than one column has fewer columns below it, and the
/// level below fits wherever this one does.
pub proof fn lemma_next_level(level: LevelParams, t_min: nat, len: nat)
    requires
        2 <= t_min <= usize::MAX / 2,
        level.max_part_size > 1,
        level_fits(level, len),
    ensures
        next_level(level, t_min).max_part_size < level.max_part_size,
        level_fits(next_level(level, t_min), len),
        next_level(level, t_min).threshold <= 2 * t_min - 2,
        next_level(level, t_min).max_part_size > 1 ==> next_level(level, t_min).threshold
            >= t_min,
{
    let n = level.max_part_size as nat;
    lemma_fit_thresholds(n, t_min);
    let t = level.threshold as int;
    let p = level.max_part_size as int;
    assert(p <= level.blocks_count) by (nonlinear_arith)
        requires
            level.blocks_count == (t - 1) * p + full_columns(
                level.blocks_count as nat,
                p as nat,
            ),
            full_columns(level.blocks_count as nat, p as nat) >= 1,
            full_columns(level.blocks_count as nat, p as nat) <= p,
            t >= 2,
            p >= 1,
            level.blocks_count >= 1,
    ;
}

/// The decoding matrix of full columns at threshold `t`: the inverse of the
/// leading block of order `t` of the Vandermonde matrix.
pub open spec fn principal_of(vm: Seq<Seq<u128>>, t: nat) -> Seq<Seq<u128>> {
    inverse_after(vm, vm.len(), (t - 1) as nat)
}

/// The decoding matrix of short columns at threshold `t`: the inverse of the
/// leading block of order `t - 1`.
pub open spec fn secondary_of(vm: Seq<Seq<u128>>, t: nat) -> Seq<Seq<u128>> {
    if t == 1 {
        zero_table(vm.len())
    } else {
        leading_block(inverse_after(vm, vm.len(), (t - 2) as nat), (t - 1) as nat)
    }
}

/// Whether the level transform descends from this level: it has more than
/// one column, and the level and the minimum threshold are in order.
pub open spec fn descends(level: LevelParams, t_min: nat, len: nat) -> bool {
    &&& level.max_part_size > 1
    &&& 2 <= t_min <= usize::MAX / 2
    &&& level_fits(level, len)
}

/// The buffer after encoding this level and every level below it.
pub open spec fn encode_levels(
    buf: Seq<u128>,
    level: LevelParams,
    alpha: u128,
    bv: Seq<u128>,
    vm: Seq<Seq<u128>>,
    t_min: nat,
) -> Seq<u128>
    decreases level.max_part_size,
{
    if descends(level, t_min, buf.len()) {
        proof {
            lemma_next_level(level, t_min, buf.len());
        }
        encode_levels(
            encode_columns(buf, level, alpha, bv, vm, level.max_part_size as nat),
            next_level(level, t_min),
            alpha,
            bv,
            vm,
            t_min,
        )
    } else {
        buf
    }
}

/// The buffer after decoding every level below this one, deepest first, and
/// then this level, each with the inverses that fit its threshold.
pub open spec fn decode_levels(
    buf: Seq<u128>,
    level: LevelParams,
    alpha: u128,
    ibv: Seq<u128>,
    vm: Seq<Seq<u128>>,
    t_min: nat,
) -> Seq<u128>
    decreases level.max_part_size,
{
    if descends(level, t_min, buf.len()) {
        proof {
            lemma_next_level(level, t_min, buf.len());
        }
        decode_columns(
            decode_levels(buf, next_level(level, t_min), alpha, ibv, vm, t_min),
            level,
            alpha,
            ibv,
            principal_of(vm, level.threshold as nat),
            secondary_of(vm, level.threshold as nat),
            level.max_part_size as nat,
        )
    } else {
        buf
    }
}

/// Whether the Vandermonde matrix can be inverted up to the threshold of
/// this level and of every level below it.
pub open spec fn levels_invertible(
    vm: Seq<Seq<u128>>,
    level: LevelParams,
    t_min: nat,
    len: nat,
) -> bool
    decreases level.max_part_size,
{
    if descends(level, t_min, len) {
        proof {
            lemma_next_level(level, t_min, len);
        }
        extensible(vm, vm.len(), (level.threshold - 1) as nat) && levels_invertible(
            vm,
            next_level(level, t_min),
            t_min,
            len,
        )
    } else {
        true
    }
}

/// Encoding a column keeps the length of the buffer.
pub proof fn lemma_encode_columns_len(
    buf: Seq<u128>,
    level: LevelParams,
    alpha: u128,
    bv: Seq<u128>,
    vm: Seq<Seq<u128>>,
    cols: nat,
)
    ensures
        encode_columns(buf, level, alpha, bv, vm, cols).len() == buf.len(),
    decreases cols,
{
    if cols > 0 {
        lemma_encode_columns_len(buf, level, alpha, bv, vm, (cols - 1) as nat);
    }
}

/// Decoding a column keeps the length of the buffer.
pub proof fn lemma_decode_columns_len(
    buf: Seq<u128>,
    level: LevelParams,
    alpha: u128,
    ibv: Seq<u128>,
    principal: Seq<Seq<u128>>,
    secondary: Seq<Seq<u128>>,
    cols: nat,
)
    ensures
        decode_columns(buf, level, alpha, ibv, principal, secondary, cols).len() == buf.len(),
    decreases cols,
{
    if cols > 0 {
        lemma_decode_columns_len(buf, level, alpha, ibv, principal, secondary, (cols - 1) as nat);
    }
}

/// The level that `n` blocks start with fits them.
pub proof fn lemma_top_level(n: nat, t_min: nat)
    requires
        2 <= t_min <= usize::MAX / 2,
        1 <= n <= usize::MAX,
    ensures
        level_fits(top_level(n, t_min), n),
        top_level(n, t_min).threshold <= 2 * t_min - 2 || top_level(n, t_min).max_part_size == 1,
        top_level(n, t_min).max_part_size > 1 ==> top_level(n, t_min).threshold >= t_min,
{
    lemma_fit_thresholds(n, t_min);
    let fitted = fit_thresholds_spec(n, t_min);
    assert(fitted.1 <= n) by {
        if n >= t_min {
        } else {
        }
    }
    assert(fitted.0 <= n || fitted.0 <= 2 * t_min - 2);
}

/// The level `depth` steps below `top`.
pub open spec fn level_at(top: LevelParams, t_min: nat, depth: nat) -> LevelParams
    decreases depth,
{
    if depth == 0 {
        top
    } else {
        next_level(level_at(top, t_min, (depth - 1) as nat), t_min)
    }
}

} // verus!
