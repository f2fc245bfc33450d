//! Decomposition levels: how a run of blocks is cut into columns.

use vstd::prelude::*;

verus! {

/// The threshold and the number of columns for `n` blocks under the minimum
/// threshold `t_min`.
///
/// Fewer than `t_min` blocks form a single column. Otherwise the blocks are
/// cut into columns of `t_min - 1` rows; the remainder, or one whole column
/// when nothing remains, is dealt over the others as one further row, raising
/// the threshold where a column gets more than one.
pub open spec fn fit_thresholds_spec(n: nat, t_min: nat) -> (nat, nat) {
    if n < t_min {
        (n, 1)
    } else {
        let a = n / ((t_min - 1) as nat);
        let b = n % ((t_min - 1) as nat);
        if b == 0 {
            let p = (a - 1) as nat;
            if t_min < a {
                (t_min, p)
            } else if ((t_min - 1) as nat) % p == 0 {
                ((t_min + ((t_min - 1) as nat) / p - 1) as nat, p)
            } else {
                (t_min + ((t_min - 1) as nat) / p, p)
            }
        } else if b <= a {
            (t_min, a)
        } else if b % a == 0 {
            ((t_min + b / a - 1) as nat, a)
        } else {
            (t_min + b / a, a)
        }
    }
}

/// The number of full columns when `n` blocks lie in `p` columns: the
/// remainder of `n` by `p`, or all `p` where nothing remains.
pub open spec fn full_columns(n: nat, p: nat) -> nat {
    if n % p == 0 {
        p
    } else {
        n % p
    }
}

/// What holds of every fitted level: there is at least one column; below the
/// minimum threshold all blocks form one column; from the minimum threshold
/// on the threshold is at least the minimum and less than twice it, and the
/// blocks are exactly the full columns of `t` rows and the others of `t - 1`.
pub proof fn lemma_fit_thresholds(n: nat, t_min: nat)
    requires
        t_min >= 2,
    ensures
        fit_thresholds_spec(n, t_min).1 >= 1,
        n < t_min ==> fit_thresholds_spec(n, t_min) == (n, 1nat),
        n >= t_min ==> t_min <= fit_thresholds_spec(n, t_min).0 <= 2 * t_min - 2,
        n >= t_min ==> fit_thresholds_spec(n, t_min).1 < n,
        n >= 1 ==> n == (fit_thresholds_spec(n, t_min).0 - 1) * fit_thresholds_spec(n, t_min).1
            + full_columns(n, fit_thresholds_spec(n, t_min).1),
        n >= 2 ==> fit_thresholds_spec(n, t_min).0 >= 2,
        n >= t_min ==> n / ((t_min - 1) as nat) >= 1,
        n >= t_min && n % ((t_min - 1) as nat) == 0 ==> n / ((t_min - 1) as nat) >= 2,
{
    let (t, p) = fit_thresholds_spec(n, t_min);
    if n < t_min {
        assert(n % 1 == 0);
        assert((n - 1) * 1 + 1 == n);
    } else {
        let m = (t_min - 1) as nat;
        let a = n / m;
        let b = n % m;
        assert(n == m * a + b && b < m) by {
            vstd::arithmetic::div_mod::lemma_fundamental_div_mod(n as int, m as int);
        }
        assert(a >= 1) by (nonlinear_arith)
            requires
                n == m * a + b,
                b < m,
                n > m,
                a >= 0,
        ;
        if b == 0 {
            assert(a >= 2) by (nonlinear_arith)
                requires
                    n == m * a,
                    n > m,
                    m >= 1,
            ;
            let d = (a - 1) as nat;
            let q = m / d;
            let r = m % d;
            assert(m == d * q + r && r < d) by {
                vstd::arithmetic::div_mod::lemma_fundamental_div_mod(m as int, d as int);
            }
            assert(n == m * d + m) by (nonlinear_arith)
                requires
                    n == m * a,
                    d == a - 1,
            ;
            if t_min < a {
                assert(n % d == m) by {
                    vstd::arithmetic::div_mod::lemma_fundamental_div_mod_converse(
                        n as int,
                        d as int,
                        m as int,
                        m as int,
                    );
                }
                assert(n == (t_min - 1) * d + m) by (nonlinear_arith)
                    requires
                        n == m * d + m,
                        m == t_min - 1,
                ;
            } else {
                assert(q <= m) by (nonlinear_arith)
                    requires
                        m == d * q + r,
                        d >= 1,
                        r >= 0,
                        q >= 0,
                ;
                assert(q >= 1) by (nonlinear_arith)
                    requires
                        m == d * q + r,
                        r < d,
                        d <= m,
                        q >= 0,
                ;
                assert(n == (m + q) * d + r) by (nonlinear_arith)
                    requires
                        n == m * d + m,
                        m == d * q + r,
                ;
                assert(n % d == r) by {
                    vstd::arithmetic::div_mod::lemma_fundamental_div_mod_converse(
                        n as int,
                        d as int,
                        (m + q) as int,
                        r as int,
                    );
                }
                if r == 0 {
                    assert(n == (m + q - 1) * d + d) by (nonlinear_arith)
                        requires
                            n == (m + q) * d + r,
                            r == 0,
                    ;
                    assert(d < n) by (nonlinear_arith)
                        requires
                            n == m * d + m,
                            m >= 1,
                    ;
                } else {
                    assert(d >= 2);
                    assert(2 * q <= m) by (nonlinear_arith)
                        requires
                            m == d * q + r,
                            d >= 2,
                            r >= 0,
                            q >= 0,
                    ;
                    assert(d < n) by (nonlinear_arith)
                        requires
                            n == m * d + m,
                            m >= 1,
                    ;
                }
            }
        } else {
            let q = b / a;
            let r = b % a;
            assert(b == a * q + r && r < a) by {
                vstd::arithmetic::div_mod::lemma_fundamental_div_mod(b as int, a as int);
            }
            assert(a < n) by (nonlinear_arith)
                requires
                    n == m * a + b,
                    b >= 1,
                    m >= 1,
                    a >= 0,
            ;
            if b <= a {
                if b == a {
                    assert(n == (m + 1) * a + 0) by (nonlinear_arith)
                        requires
                            n == m * a + b,
                            b == a,
                    ;
                    assert(n % a == 0) by {
                        vstd::arithmetic::div_mod::lemma_fundamental_div_mod_converse(
                            n as int,
                            a as int,
                            (m + 1) as int,
                            0,
                        );
                    }
                    assert(n == (t_min - 1) * a + a) by (nonlinear_arith)
                        requires
                            n == m * a + b,
                            b == a,
                            m == t_min - 1,
                    ;
                } else {
                    assert(n % a == b) by {
                        vstd::arithmetic::div_mod::lemma_fundamental_div_mod_converse(
                            n as int,
                            a as int,
                            m as int,
                            b as int,
                        );
                    }
                    assert(n == (t_min - 1) * a + b) by (nonlinear_arith)
                        requires
                            n == m * a + b,
                            m == t_min - 1,
                    ;
                }
            } else {
                assert(q >= 1) by (nonlinear_arith)
                    requires
                        b == a * q + r,
                        r < a,
                        b > a,
                        q >= 0,
                ;
                assert(q <= b) by (nonlinear_arith)
                    requires
                        b == a * q + r,
                        a >= 1,
                        r >= 0,
                        q >= 0,
                ;
                assert(n == (m + q) * a + r) by (nonlinear_arith)
                    requires
                        n == m * a + b,
                        b == a * q + r,
                ;
                assert(n % a == r) by {
                    vstd::arithmetic::div_mod::lemma_fundamental_div_mod_converse(
                        n as int,
                        a as int,
                        (m + q) as int,
                        r as int,
                    );
                }
                if r == 0 {
                    assert(n == (m + q - 1) * a + a) by (nonlinear_arith)
                        requires
                            n == (m + q) * a + r,
                            r == 0,
                    ;
                }
            }
        }
    }
}

/// Fits a level to `blocks_count` blocks: the threshold and the number of columns.
pub fn fit_thresholds(blocks_count: usize, min_desired_threshold: usize) -> (r: (usize, usize))
    requires
        min_desired_threshold >= 2,
        min_desired_threshold <= usize::MAX / 2,
    ensures
        (r.0 as nat, r.1 as nat) == fit_thresholds_spec(
            blocks_count as nat,
            min_desired_threshold as nat,
        ),
        r.1 >= 1,
        blocks_count >= 1 ==> blocks_count == (r.0 - 1) * r.1 + full_columns(
            blocks_count as nat,
            r.1 as nat,
        ),
        blocks_count >= 2 ==> r.0 >= 2,
        blocks_count >= min_desired_threshold ==> min_desired_threshold <= r.0 <= 2
            * min_desired_threshold - 2 && r.1 < blocks_count,
{
    proof {
        lemma_fit_thresholds(blocks_count as nat, min_desired_threshold as nat);
    }
    if blocks_count < min_desired_threshold {
        (blocks_count, 1)
    } else {
        let a = blocks_count / (min_desired_threshold - 1);
        let b = blocks_count % (min_desired_threshold - 1);
        if b == 0 {
            if min_desired_threshold < a {
                (min_desired_threshold, a - 1)
            } else {
                let mut threshold = min_desired_threshold + (min_desired_threshold - 1) / (a - 1);
                if (min_desired_threshold - 1) % (a - 1) == 0 {
                    threshold = threshold - 1;
                }
                (threshold, a - 1)
            }
        } else if b <= a {
            (min_desired_threshold, a)
        } else {
            let mut threshold = min_desired_threshold + b / a;
            if b % a == 0 {
                threshold = threshold - 1;
            }
            (threshold, a)
        }
    }
}

/// One decomposition level of the block buffer.
#[derive(Clone, Copy, Debug)]
pub struct LevelParams {
    pub start: usize,
    pub end: usize,
    pub blocks_count: usize,
    pub threshold: usize,
    pub max_part_size: usize,
    pub last_part_size: usize,
}

impl LevelParams {
    /// The level that `fit_thresholds` gives to `blocks_count` blocks.
    pub open spec fn fitted(self, blocks_count: nat, min_threshold: nat) -> bool {
        &&& self.blocks_count == blocks_count
        &&& (self.threshold as nat, self.max_part_size as nat) == fit_thresholds_spec(
            blocks_count,
            min_threshold,
        )
        &&& self.last_part_size == blocks_count % (self.max_part_size as nat)
        &&& self.end == self.max_part_size - 1
    }

    /// Descends one level: the columns of this level are the blocks of the next.
    pub fn go_down(&mut self, min_threshold: usize)
        requires
            min_threshold >= 2,
            min_threshold <= usize::MAX / 2,
        ensures
            final(self).fitted(old(self).max_part_size as nat, min_threshold as nat),
            final(self).start == old(self).start,
            final(self).max_part_size >= 1,
    {
        self.blocks_count = self.max_part_size;
        let new_part = fit_thresholds(self.blocks_count, min_threshold);
        self.threshold = new_part.0;
        self.max_part_size = new_part.1;
        self.last_part_size = self.blocks_count % self.max_part_size;
        self.end = self.max_part_size - 1;
    }
}

} // verus!
