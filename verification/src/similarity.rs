//! Pearson-cosine similarity over the columns of a partially observed
//! rating matrix, in exact integer arithmetic.
//!
//! A zero cell means "missing", so per-column statistics run over the
//! observed (nonzero) cells only. For column `j` with observed count
//! `c_j` and observed sum `s_j`, the centered value at an observed row
//! `r` is `x[r][j] - s_j / c_j`. To stay in integers everything is
//! scaled by the observed count: the scaled deviation is
//! `c_j * x[r][j] - s_j`. The scale factors cancel in the similarity
//! quotient, so for columns `i != j`
//!
//! `S[i][j] = dot_dev(i, j) / sqrt(q_norm(i) * q_norm(j))`
//!
//! where `dot_dev` sums the products of scaled deviations over the rows
//! observed in both columns, and `q_norm(k)` sums the squared scaled
//! deviations of column `k`. When either column is all-missing or has a
//! zero norm, `S[i][j]` is defined as `0`, and `S[i][i] == 0` always.
//! [`SimilarityMatrix`] stores the numerators and the `q_norm` values
//! exactly; a caller that wants the real-valued entry divides by the
//! square roots itself.

use vstd::prelude::*;

use crate::matrix::RatingMatrix;

verus! {

/// Number of observed (nonzero) cells among the first `upto` rows of
/// column `j`.
pub open spec fn col_obs_count(mv: Seq<Seq<u8>>, j: int, upto: int) -> int
    decreases upto,
{
    if upto <= 0 {
        0
    } else {
        col_obs_count(mv, j, upto - 1) + if mv[upto - 1][j] != 0 {
            1int
        } else {
            0int
        }
    }
}

/// Sum of the first `upto` cells of column `j` (missing cells are zero,
/// so this equals the sum over the observed cells).
pub open spec fn col_sum(mv: Seq<Seq<u8>>, j: int, upto: int) -> int
    decreases upto,
{
    if upto <= 0 {
        0
    } else {
        col_sum(mv, j, upto - 1) + mv[upto - 1][j] as int
    }
}

/// The deviation of cell `(r, j)` from its column's observed average,
/// scaled by the observed count to stay integral:
/// `c_j * x[r][j] - s_j == c_j * (x[r][j] - s_j / c_j)`.
pub open spec fn scaled_dev(mv: Seq<Seq<u8>>, j: int, r: int) -> int {
    col_obs_count(mv, j, mv.len() as int) * (mv[r][j] as int) - col_sum(mv, j, mv.len() as int)
}

/// Partial sum of squared scaled deviations of column `j` over the
/// observed rows below `upto`.
pub open spec fn q_partial(mv: Seq<Seq<u8>>, j: int, upto: int) -> int
    decreases upto,
{
    if upto <= 0 {
        0
    } else {
        q_partial(mv, j, upto - 1) + if mv[upto - 1][j] != 0 {
            scaled_dev(mv, j, upto - 1) * scaled_dev(mv, j, upto - 1)
        } else {
            0int
        }
    }
}

/// Squared norm of column `j`'s scaled deviations over its observed
/// rows: the square of `c_j` times the centered column's Euclidean
/// norm.
pub open spec fn q_norm(mv: Seq<Seq<u8>>, j: int) -> int {
    q_partial(mv, j, mv.len() as int)
}

/// Partial dot product of the scaled deviations of columns `i` and `j`
/// over the rows below `upto` that are observed in both columns.
pub open spec fn d_partial(mv: Seq<Seq<u8>>, i: int, j: int, upto: int) -> int
    decreases upto,
{
    if upto <= 0 {
        0
    } else {
        d_partial(mv, i, j, upto - 1) + if mv[upto - 1][i] != 0 && mv[upto - 1][j] != 0 {
            scaled_dev(mv, i, upto - 1) * scaled_dev(mv, j, upto - 1)
        } else {
            0int
        }
    }
}

/// Dot product of the scaled deviations of columns `i` and `j` over the
/// rows observed in both.
pub open spec fn dot_dev(mv: Seq<Seq<u8>>, i: int, j: int) -> int {
    d_partial(mv, i, j, mv.len() as int)
}

/// The exact numerator stored for the similarity entry `(i, j)`:
/// `dot_dev` when both columns have a positive squared norm and
/// `i != j`, and `0` otherwise (all-missing column, zero norm, or the
/// diagonal).
pub open spec fn sim_num(mv: Seq<Seq<u8>>, i: int, j: int) -> int {
    if i != j && q_norm(mv, i) > 0 && q_norm(mv, j) > 0 {
        dot_dev(mv, i, j)
    } else {
        0
    }
}

/// What it means for `s` to be the exact similarity matrix of the
/// `m`-column matrix value `mv`: per-column squared norms and, for
/// every ordered pair, the numerator [`sim_num`].
pub open spec fn similarity_built(s: SimilarityMatrixView, mv: Seq<Seq<u8>>, m: int) -> bool {
    &&& s.num.len() == m
    &&& s.qnorm.len() == m
    &&& forall|a: int| 0 <= a < m ==> (#[trigger] s.num[a]).len() == m
    &&& forall|a: int| 0 <= a < m ==> #[trigger] s.qnorm[a] == q_norm(mv, a)
    &&& forall|a: int, b: int| 0 <= a < m && 0 <= b < m ==> #[trigger] s.num[a][b] == sim_num(mv, a, b)
}

/// The rows below `upto` where column `j` is observed, in increasing
/// order.
pub open spec fn obs_rows(mv: Seq<Seq<u8>>, j: int, upto: int) -> Seq<usize>
    decreases upto,
{
    if upto <= 0 {
        Seq::empty()
    } else {
        let prev = obs_rows(mv, j, upto - 1);
        if mv[upto - 1][j] != 0 {
            prev.push((upto - 1) as usize)
        } else {
            prev
        }
    }
}

/// Shape and bounds of `obs_rows`: it lists exactly the observed rows
/// below `upto`, strictly increasing, one per observed cell.
pub proof fn lemma_obs_rows_props(mv: Seq<Seq<u8>>, j: int, upto: int)
    requires
        0 <= upto <= usize::MAX,
    ensures
        obs_rows(mv, j, upto).len() == col_obs_count(mv, j, upto),
        forall|k: int|
            0 <= k < obs_rows(mv, j, upto).len() ==> (#[trigger] obs_rows(mv, j, upto)[k]) < upto
                && mv[obs_rows(mv, j, upto)[k] as int][j] != 0,
        forall|k1: int, k2: int|
            0 <= k1 < k2 < obs_rows(mv, j, upto).len() ==> obs_rows(mv, j, upto)[k1] < obs_rows(
                mv,
                j,
                upto,
            )[k2],
        forall|r: int|
            0 <= r < upto && mv[r][j] != 0 ==> exists|k: int|
                0 <= k < obs_rows(mv, j, upto).len() && obs_rows(mv, j, upto)[k] == r as usize,
    decreases upto,
{
    if upto > 0 {
        lemma_obs_rows_props(mv, j, upto - 1);
        let prev = obs_rows(mv, j, upto - 1);
        let cur = obs_rows(mv, j, upto);
        if mv[upto - 1][j] != 0 {
            assert(cur == prev.push((upto - 1) as usize));
            assert forall|r: int| 0 <= r < upto && mv[r][j] != 0 implies exists|k: int|
                0 <= k < cur.len() && cur[k] == r as usize by {
                if r < upto - 1 {
                    let k = choose|k: int| 0 <= k < prev.len() && prev[k] == r as usize;
                    assert(cur[k] == r as usize);
                } else {
                    assert(cur[cur.len() - 1] == r as usize);
                }
            }
        } else {
            assert forall|r: int| 0 <= r < upto && mv[r][j] != 0 implies exists|k: int|
                0 <= k < cur.len() && cur[k] == r as usize by {
                let k = choose|k: int| 0 <= k < prev.len() && prev[k] == r as usize;
                assert(cur[k] == r as usize);
            }
        }
    }
}

/// The column statistics lie within the obvious ranges.
pub proof fn lemma_col_stats_bounds(mv: Seq<Seq<u8>>, j: int, upto: int)
    requires
        0 <= upto,
    ensures
        0 <= col_obs_count(mv, j, upto) <= upto,
        0 <= col_sum(mv, j, upto) <= 255 * upto,
    decreases upto,
{
    if upto > 0 {
        lemma_col_stats_bounds(mv, j, upto - 1);
    }
}

/// The scaled deviation of any cell is bounded by `255 * n` in
/// magnitude, where `n` is the row count.
pub proof fn lemma_scaled_dev_bound(mv: Seq<Seq<u8>>, j: int, r: int)
    ensures
        -255 * mv.len() <= scaled_dev(mv, j, r) <= 255 * mv.len(),
{
    let n = mv.len() as int;
    lemma_col_stats_bounds(mv, j, n);
    let c = col_obs_count(mv, j, n);
    let s = col_sum(mv, j, n);
    let x = mv[r][j] as int;
    assert(0 <= c * x <= 255 * n) by (nonlinear_arith)
        requires
            0 <= c <= n,
            0 <= x <= 255,
    ;
}

/// Rows where either column is missing contribute nothing to the dot
/// product: the partial sums at `a` and `b` agree when no row in
/// `[a, b)` is observed in both columns.
pub proof fn lemma_d_partial_skip(mv: Seq<Seq<u8>>, i: int, j: int, a: int, b: int)
    requires
        0 <= a <= b,
        forall|r: int| a <= r < b ==> !(mv[r][i] != 0 && mv[r][j] != 0),
    ensures
        d_partial(mv, i, j, b) == d_partial(mv, i, j, a),
    decreases b - a,
{
    if b > a {
        lemma_d_partial_skip(mv, i, j, a, b - 1);
    }
}

/// Rows where a column is missing contribute nothing to its squared
/// norm.
pub proof fn lemma_q_partial_skip(mv: Seq<Seq<u8>>, j: int, a: int, b: int)
    requires
        0 <= a <= b,
        forall|r: int| a <= r < b ==> mv[r][j] == 0,
    ensures
        q_partial(mv, j, b) == q_partial(mv, j, a),
    decreases b - a,
{
    if b > a {
        lemma_q_partial_skip(mv, j, a, b - 1);
    }
}

/// The partial dot product is bounded by `upto` terms of magnitude at
/// most `(255 n)^2` each.
pub proof fn lemma_d_partial_bound(mv: Seq<Seq<u8>>, i: int, j: int, upto: int)
    requires
        0 <= upto,
    ensures
        -(upto * (255 * mv.len()) * (255 * mv.len())) <= d_partial(mv, i, j, upto) <= upto * (255
            * mv.len()) * (255 * mv.len()),
    decreases upto,
{
    let n = mv.len() as int;
    let bd = 255 * n;
    if upto > 0 {
        lemma_d_partial_bound(mv, i, j, upto - 1);
        lemma_scaled_dev_bound(mv, i, upto - 1);
        lemma_scaled_dev_bound(mv, j, upto - 1);
        let si = scaled_dev(mv, i, upto - 1);
        let sj = scaled_dev(mv, j, upto - 1);
        assert(-(bd * bd) <= si * sj <= bd * bd) by (nonlinear_arith)
            requires
                -bd <= si <= bd,
                -bd <= sj <= bd,
                bd >= 0,
        ;
        assert((upto - 1) * bd * bd + bd * bd == upto * bd * bd) by (nonlinear_arith);
        assert(-(upto * bd * bd) == -((upto - 1) * bd * bd) - bd * bd) by (nonlinear_arith);
    } else {
        assert(upto * bd * bd == 0) by (nonlinear_arith)
            requires
                upto == 0,
        ;
    }
}

/// The partial squared norm is nonnegative and bounded by `upto` terms
/// of magnitude at most `(255 n)^2` each.
pub proof fn lemma_q_partial_bound(mv: Seq<Seq<u8>>, j: int, upto: int)
    requires
        0 <= upto,
    ensures
        0 <= q_partial(mv, j, upto) <= upto * (255 * mv.len()) * (255 * mv.len()),
    decreases upto,
{
    let n = mv.len() as int;
    let bd = 255 * n;
    if upto > 0 {
        lemma_q_partial_bound(mv, j, upto - 1);
        lemma_scaled_dev_bound(mv, j, upto - 1);
        let sj = scaled_dev(mv, j, upto - 1);
        assert(0 <= sj * sj <= bd * bd) by (nonlinear_arith)
            requires
                -bd <= sj <= bd,
                bd >= 0,
        ;
        assert((upto - 1) * bd * bd + bd * bd == upto * bd * bd) by (nonlinear_arith);
    } else {
        assert(upto * bd * bd == 0) by (nonlinear_arith)
            requires
                upto == 0,
        ;
    }
}

/// The dot product of scaled deviations is symmetric in its two
/// columns.
pub proof fn lemma_d_partial_symm(mv: Seq<Seq<u8>>, i: int, j: int, upto: int)
    ensures
        d_partial(mv, i, j, upto) == d_partial(mv, j, i, upto),
    decreases upto,
{
    if upto > 0 {
        lemma_d_partial_symm(mv, i, j, upto - 1);
    }
}

/// An all-missing column has a zero squared norm.
pub proof fn lemma_all_missing_q_zero(mv: Seq<Seq<u8>>, j: int, upto: int)
    requires
        0 <= upto,
        col_obs_count(mv, j, upto) == 0,
    ensures
        q_partial(mv, j, upto) == 0,
    decreases upto,
{
    if upto > 0 {
        lemma_col_stats_bounds(mv, j, upto - 1);
        lemma_all_missing_q_zero(mv, j, upto - 1);
    }
}


/// The bound `(255 n)^2` per term keeps every partial sum of at most
/// `n + 1` terms well inside the `i128` range when `n <= 2^32`.
proof fn lemma_term_sum_fits(n: int, k: int, x: int)
    requires
        0 <= n <= 0x1_0000_0000,
        0 <= k <= n + 1,
        -(k * (255 * n) * (255 * n)) <= x <= k * (255 * n) * (255 * n),
    ensures
        i128::MIN < x < i128::MAX,
{
    let b = 255 * n;
    assert(0 <= k * b * b < 0x7fff_ffff_ffff_ffff_ffff_ffff_ffff_ffff) by (nonlinear_arith)
        requires
            0 <= n <= 0x1_0000_0000,
            0 <= k <= n + 1,
            b == 255 * n,
    ;
    assert(x <= k * b * b);
    assert(-(k * b * b) <= x);
}

/// The frontier of the two-pointer merge: the next row either cursor
/// could still contribute, or the row count when a cursor is spent.
pub open spec fn merge_front(nxs: Seq<usize>, nys: Seq<usize>, p: int, q: int, n: int) -> int {
    if p < nxs.len() && q < nys.len() {
        if nxs[p] <= nys[q] {
            nxs[p] as int
        } else {
            nys[q] as int
        }
    } else {
        n
    }
}

/// The largest row bound below which the merge can skip safely: a row
/// observed in both columns must sit at or past both cursors.
pub open spec fn merge_gap_bound(nxs: Seq<usize>, nys: Seq<usize>, p: int, q: int, n: int) -> int {
    if p < nxs.len() && q < nys.len() {
        if nxs[p] >= nys[q] {
            nxs[p] as int
        } else {
            nys[q] as int
        }
    } else {
        n
    }
}

/// When both merge cursors have passed every observed row below `lo`,
/// and `hi` stays within the merge gap bound, no row in `[lo, hi)` is
/// observed in both columns, so the partial dot product does not change
/// between `lo` and `hi`.
proof fn lemma_dot_gap(mv: Seq<Seq<u8>>, i: int, j: int, p: int, q: int, lo: int, hi: int)
    requires
        mv.len() <= usize::MAX,
        0 <= lo <= hi <= mv.len(),
        0 <= p <= obs_rows(mv, i, mv.len() as int).len(),
        0 <= q <= obs_rows(mv, j, mv.len() as int).len(),
        forall|k: int| 0 <= k < p ==> (#[trigger] obs_rows(mv, i, mv.len() as int)[k]) < lo,
        forall|k: int| 0 <= k < q ==> (#[trigger] obs_rows(mv, j, mv.len() as int)[k]) < lo,
        hi <= merge_gap_bound(
            obs_rows(mv, i, mv.len() as int),
            obs_rows(mv, j, mv.len() as int),
            p,
            q,
            mv.len() as int,
        ),
    ensures
        d_partial(mv, i, j, hi) == d_partial(mv, i, j, lo),
{
    let n = mv.len() as int;
    let nxs = obs_rows(mv, i, n);
    let nys = obs_rows(mv, j, n);
    lemma_obs_rows_props(mv, i, n);
    lemma_obs_rows_props(mv, j, n);
    assert forall|r: int| lo <= r < hi implies !(mv[r][i] != 0 && mv[r][j] != 0) by {
        if mv[r][i] != 0 && mv[r][j] != 0 {
            let kx = choose|k: int| 0 <= k < nxs.len() && nxs[k] == r as usize;
            let ky = choose|k: int| 0 <= k < nys.len() && nys[k] == r as usize;
            assert(nxs[kx] as int == r);
            assert(nys[ky] as int == r);
            assert(kx >= p);
            assert(ky >= q);
            assert(p < nxs.len() && q < nys.len());
            if kx > p {
                assert(nxs[p] < nxs[kx]);
            }
            if ky > q {
                assert(nys[q] < nys[ky]);
            }
            assert(nxs[p] as int <= r && nys[q] as int <= r);
            assert(false);
        }
    }
    lemma_d_partial_skip(mv, i, j, lo, hi);
}

/// The similarity numerators form a symmetric matrix with a zero
/// diagonal: `S[i][j] == S[j][i]` for all `i`, `j`, and `S[i][i] == 0`.
pub proof fn lemma_similarity_symmetric(mv: Seq<Seq<u8>>, i: int, j: int)
    ensures
        sim_num(mv, i, j) == sim_num(mv, j, i),
        sim_num(mv, i, i) == 0,
{
    lemma_d_partial_symm(mv, i, j, mv.len() as int);
}

/// A similarity entry touching an all-missing column is exactly zero,
/// and so is that column's squared norm.
pub proof fn lemma_all_missing_entry_zero(mv: Seq<Seq<u8>>, i: int, j: int)
    requires
        col_obs_count(mv, j, mv.len() as int) == 0,
    ensures
        q_norm(mv, j) == 0,
        sim_num(mv, i, j) == 0,
        sim_num(mv, j, i) == 0,
{
    lemma_all_missing_q_zero(mv, j, mv.len() as int);
}


/// The observed-average statistics of one matrix column: the sum and
/// the count of its nonzero cells. The average over observed cells is
/// `sum / count`, defined as `0` when the column is all-missing
/// (`count == 0`).
#[derive(Clone, Copy, Debug, PartialEq, Eq, Structural)]
pub struct ColumnAverage {
    pub sum: u64,
    pub count: usize,
}

impl RatingMatrix {
    /// For every column, its observed-average statistics and the
    /// increasing list of rows where it is observed (nonzero).
    pub fn get_avg_and_non_zero_idx(&self) -> (r: (Vec<ColumnAverage>, Vec<Vec<usize>>))
        requires
            self@.len() <= 0xFFFF_FFFF,
        ensures
            r.0@.len() == self.spec_cols(),
            r.1@.len() == self.spec_cols(),
            forall|j: int|
                0 <= j < self.spec_cols() ==> (#[trigger] r.0@[j]).count == col_obs_count(
                    self@,
                    j,
                    self@.len() as int,
                ) && r.0@[j].sum == col_sum(self@, j, self@.len() as int),
            forall|j: int|
                0 <= j < self.spec_cols() ==> (#[trigger] r.1@[j])@ == obs_rows(
                    self@,
                    j,
                    self@.len() as int,
                ),
    {
        let n = self.rows();
        let m = self.cols();
        let ghost mv = self@;
        let mut avgs: Vec<ColumnAverage> = Vec::new();
        let mut nz: Vec<Vec<usize>> = Vec::new();
        for j in 0..m
            invariant
                mv == self@,
                n == mv.len(),
                n <= 0xFFFF_FFFF,
                m == self.spec_cols(),
                forall|rr: int| 0 <= rr < n ==> (#[trigger] mv[rr]).len() == m,
                avgs@.len() == j,
                nz@.len() == j,
                forall|jj: int|
                    0 <= jj < j ==> (#[trigger] avgs@[jj]).count == col_obs_count(mv, jj, n as int)
                        && avgs@[jj].sum == col_sum(mv, jj, n as int),
                forall|jj: int| 0 <= jj < j ==> (#[trigger] nz@[jj])@ == obs_rows(mv, jj, n as int),
        {
            let mut sum: u64 = 0;
            let mut count: usize = 0;
            let mut rows_j: Vec<usize> = Vec::new();
            for r in 0..n
                invariant
                    mv == self@,
                    n == mv.len(),
                    n <= 0xFFFF_FFFF,
                    m == self.spec_cols(),
                    j < m,
                    forall|rr: int| 0 <= rr < n ==> (#[trigger] mv[rr]).len() == m,
                    sum == col_sum(mv, j as int, r as int),
                    count == col_obs_count(mv, j as int, r as int),
                    rows_j@ == obs_rows(mv, j as int, r as int),
            {
                proof {
                    lemma_col_stats_bounds(mv, j as int, r as int);
                }
                let v = self.get(r, j);
                if v != 0 {
                    sum = sum + v as u64;
                    count = count + 1;
                    rows_j.push(r);
                }
            }
            avgs.push(ColumnAverage { sum, count });
            nz.push(rows_j);
        }
        (avgs, nz)
    }
}


/// The exact form of a Pearson-cosine similarity matrix over the
/// columns of a rating matrix.
///
/// Entry `(i, j)` of the real-valued matrix is
/// `num[i][j] / sqrt(qnorm[i] * qnorm[j])` when that entry's numerator
/// was computed (`i != j` and both norms positive), and exactly `0`
/// otherwise: `num[i][j]` is `0` in every such case, so a caller can
/// divide whenever both `qnorm` values are positive and take `0`
/// otherwise. The numerators are symmetric with a zero diagonal.
#[derive(Debug)]
pub struct SimilarityMatrix {
    dim: usize,
    num: Vec<Vec<i128>>,
    qnorm: Vec<i128>,
}

/// Mathematical image of a [`SimilarityMatrix`]: the numerator matrix
/// and the per-column squared norms.
pub struct SimilarityMatrixView {
    pub num: Seq<Seq<i128>>,
    pub qnorm: Seq<i128>,
}

impl View for SimilarityMatrix {
    type V = SimilarityMatrixView;

    closed spec fn view(&self) -> SimilarityMatrixView {
        SimilarityMatrixView {
            num: Seq::new(self.num@.len(), |a: int| self.num@[a]@),
            qnorm: self.qnorm@,
        }
    }
}

impl SimilarityMatrix {
    #[verifier::type_invariant]
    spec fn shape_inv(self) -> bool {
        &&& self.num@.len() == self.dim
        &&& forall|a: int| 0 <= a < self.num@.len() ==> (#[trigger] self.num@[a])@.len() == self.dim
        &&& self.qnorm@.len() == self.dim
    }

    /// The number of compared entities (matrix is `dim` by `dim`).
    pub fn dim(&self) -> (d: usize)
        ensures
            d == self@.num.len(),
            self@.qnorm.len() == d,
            forall|a: int| 0 <= a < d ==> (#[trigger] self@.num[a]).len() == d,
    {
        proof {
            use_type_invariant(&*self);
        }
        self.dim
    }

    /// The exact numerator of entry `(i, j)`.
    pub fn entry_num(&self, i: usize, j: usize) -> (v: i128)
        requires
            i < self@.num.len(),
            j < self@.num[i as int].len(),
        ensures
            v == self@.num[i as int][j as int],
    {
        proof {
            use_type_invariant(&*self);
        }
        self.num[i][j]
    }

    /// A similarity matrix over zero columns, the state of a model
    /// before initialization.
    pub fn empty() -> (s: Self)
        ensures
            s@.num.len() == 0,
            s@.qnorm.len() == 0,
    {
        SimilarityMatrix { dim: 0, num: Vec::new(), qnorm: Vec::new() }
    }

    /// The squared norm of column `j`'s scaled deviations.
    pub fn col_qnorm(&self, j: usize) -> (v: i128)
        requires
            j < self@.qnorm.len(),
        ensures
            v == self@.qnorm[j as int],
    {
        proof {
            use_type_invariant(&*self);
        }
        self.qnorm[j]
    }
}

/// Center every observed cell by its column's observed average (scaled
/// by the observed count to stay integral) and accumulate each column's
/// squared norm.
fn center_scaled(mat: &RatingMatrix, avgs: &Vec<ColumnAverage>) -> (res: (
    Vec<Vec<i128>>,
    Vec<i128>,
))
    requires
        mat@.len() <= 0xFFFF_FFFF,
        avgs@.len() == mat.spec_cols(),
        forall|rr: int| 0 <= rr < mat@.len() ==> (#[trigger] mat@[rr]).len() == mat.spec_cols(),
        forall|j: int|
            0 <= j < mat.spec_cols() ==> (#[trigger] avgs@[j]).count == col_obs_count(
                mat@,
                j,
                mat@.len() as int,
            ) && avgs@[j].sum == col_sum(mat@, j, mat@.len() as int),
    ensures
        res.0@.len() == mat@.len(),
        forall|rr: int|
            0 <= rr < mat@.len() ==> (#[trigger] res.0@[rr])@.len() == mat.spec_cols(),
        forall|rr: int, j: int|
            0 <= rr < mat@.len() && 0 <= j < mat.spec_cols() && mat@[rr][j] != 0
                ==> #[trigger] res.0@[rr]@[j] == scaled_dev(mat@, j, rr),
        res.1@.len() == mat.spec_cols(),
        forall|j: int| 0 <= j < mat.spec_cols() ==> #[trigger] res.1@[j] == q_norm(mat@, j),
{
    let n = mat.rows();
    let m = mat.cols();
    let ghost mv = mat@;
    let mut scaled: Vec<Vec<i128>> = Vec::new();
    for r in 0..n
        invariant
            scaled@.len() == r,
            forall|k: int| 0 <= k < r ==> (#[trigger] scaled@[k])@.len() == m,
    {
        let row: Vec<i128> = vec![0i128; m];
        scaled.push(row);
    }
    let mut qnorm: Vec<i128> = Vec::new();
    for j in 0..m
        invariant
            mv == mat@,
            n == mv.len(),
            n <= 0xFFFF_FFFF,
            m == mat.spec_cols(),
            forall|rr: int| 0 <= rr < n ==> (#[trigger] mv[rr]).len() == m,
            forall|jj: int|
                0 <= jj < m ==> (#[trigger] avgs@[jj]).count == col_obs_count(mv, jj, n as int)
                    && avgs@[jj].sum == col_sum(mv, jj, n as int),
            avgs@.len() == m,
            scaled@.len() == n,
            forall|rr: int| 0 <= rr < n ==> (#[trigger] scaled@[rr])@.len() == m,
            qnorm@.len() == j,
            forall|jj: int| 0 <= jj < j ==> #[trigger] qnorm@[jj] == q_norm(mv, jj),
            forall|rr: int, jj: int|
                0 <= rr < n && 0 <= jj < j && mv[rr][jj] != 0 ==> #[trigger] scaled@[rr]@[jj]
                    == scaled_dev(mv, jj, rr),
    {
        let c = avgs[j].count;
        let sm = avgs[j].sum;
        let mut q: i128 = 0;
        for r in 0..n
            invariant
                mv == mat@,
                n == mv.len(),
                n <= 0xFFFF_FFFF,
                m == mat.spec_cols(),
                j < m,
                forall|rr: int| 0 <= rr < n ==> (#[trigger] mv[rr]).len() == m,
                c == col_obs_count(mv, j as int, n as int),
                sm == col_sum(mv, j as int, n as int),
                scaled@.len() == n,
                forall|rr: int| 0 <= rr < n ==> (#[trigger] scaled@[rr])@.len() == m,
                q == q_partial(mv, j as int, r as int),
                forall|rr: int|
                    0 <= rr < r && mv[rr][j as int] != 0 ==> #[trigger] scaled@[rr]@[j as int]
                        == scaled_dev(mv, j as int, rr),
                forall|rr: int, jj: int|
                    0 <= rr < n && 0 <= jj < j && mv[rr][jj] != 0 ==> #[trigger] scaled@[rr]@[jj]
                        == scaled_dev(mv, jj, rr),
        {
            let v = mat.get(r, j);
            proof {
                lemma_col_stats_bounds(mv, j as int, n as int);
                lemma_scaled_dev_bound(mv, j as int, r as int);
                lemma_q_partial_bound(mv, j as int, r as int);
                lemma_term_sum_fits(n as int, r as int, q_partial(mv, j as int, r as int));
                assert(0 <= c * (v as int) <= 255 * (n as int)) by (nonlinear_arith)
                    requires
                        0 <= c <= n <= 0xFFFF_FFFF,
                        0 <= v <= 255,
                ;
            }
            if v != 0 {
                let sd: i128 = (c as i128) * (v as i128) - (sm as i128);
                assert(sd == scaled_dev(mv, j as int, r as int));
                let ghost prev = scaled@;
                scaled[r][j] = sd;
                proof {
                    let b = 255 * (n as int);
                    assert(0 <= sd * sd <= b * b) by (nonlinear_arith)
                        requires
                            -b <= sd <= b,
                            0 <= b,
                    ;
                    assert((r as int) * b * b + b * b == (r + 1) as int * b * b)
                        by (nonlinear_arith);
                    lemma_term_sum_fits(
                        n as int,
                        r + 1 as int,
                        q_partial(mv, j as int, r as int) + sd * sd,
                    );
                    assert forall|rr: int, jj: int|
                        0 <= rr < n && 0 <= jj < m && !(rr == r && jj == j) implies scaled@[rr]@[jj]
                        == prev[rr]@[jj] by {}
                }
                q = q + sd * sd;
            }
        }
        qnorm.push(q);
    }
    (scaled, qnorm)
}


/// The sparsity-aware dot product of two centered columns: a two-pointer
/// merge over their sorted observed-row lists that touches only rows
/// observed in at least one of the two columns.
fn merge_dot(
    scaled: &Vec<Vec<i128>>,
    nx: &Vec<usize>,
    ny: &Vec<usize>,
    i: usize,
    j: usize,
    Ghost(mv): Ghost<Seq<Seq<u8>>>,
) -> (acc: i128)
    requires
        mv.len() <= 0xFFFF_FFFF,
        scaled@.len() == mv.len(),
        forall|rr: int|
            0 <= rr < mv.len() ==> i < (#[trigger] scaled@[rr])@.len() && j < scaled@[rr]@.len(),
        forall|rr: int|
            0 <= rr < mv.len() && mv[rr][i as int] != 0 ==> #[trigger] scaled@[rr]@[i as int]
                == scaled_dev(mv, i as int, rr),
        forall|rr: int|
            0 <= rr < mv.len() && mv[rr][j as int] != 0 ==> #[trigger] scaled@[rr]@[j as int]
                == scaled_dev(mv, j as int, rr),
        nx@ == obs_rows(mv, i as int, mv.len() as int),
        ny@ == obs_rows(mv, j as int, mv.len() as int),
    ensures
        acc == dot_dev(mv, i as int, j as int),
{
    let ghost n = mv.len() as int;
    let ghost nxs = nx@;
    let ghost nys = ny@;
    let mut p: usize = 0;
    let mut q: usize = 0;
    let mut acc: i128 = 0;
    proof {
        lemma_obs_rows_props(mv, i as int, n);
        lemma_obs_rows_props(mv, j as int, n);
        lemma_dot_gap(mv, i as int, j as int, 0, 0, 0, merge_front(nxs, nys, 0, 0, n));
    }
    while p < nx.len() && q < ny.len()
        invariant
            n == mv.len(),
            mv.len() <= 0xFFFF_FFFF,
            nxs == nx@,
            nys == ny@,
            nxs == obs_rows(mv, i as int, n),
            nys == obs_rows(mv, j as int, n),
            p <= nxs.len(),
            q <= nys.len(),
            scaled@.len() == mv.len(),
            forall|rr: int|
                0 <= rr < mv.len() ==> i < (#[trigger] scaled@[rr])@.len() && j
                    < scaled@[rr]@.len(),
            forall|rr: int|
                0 <= rr < mv.len() && mv[rr][i as int] != 0 ==> #[trigger] scaled@[rr]@[i as int]
                    == scaled_dev(mv, i as int, rr),
            forall|rr: int|
                0 <= rr < mv.len() && mv[rr][j as int] != 0 ==> #[trigger] scaled@[rr]@[j as int]
                    == scaled_dev(mv, j as int, rr),
            acc == d_partial(mv, i as int, j as int, merge_front(nxs, nys, p as int, q as int, n)),
            forall|k: int|
                0 <= k < p ==> (#[trigger] nxs[k]) < merge_front(nxs, nys, p as int, q as int, n),
            forall|k: int|
                0 <= k < q ==> (#[trigger] nys[k]) < merge_front(nxs, nys, p as int, q as int, n),
        decreases nxs.len() - p + nys.len() - q,
    {
        let rx = nx[p];
        let ry = ny[q];
        proof {
            lemma_obs_rows_props(mv, i as int, n);
            lemma_obs_rows_props(mv, j as int, n);
        }
        if rx == ry {
            let a = scaled[rx][i];
            let b = scaled[ry][j];
            proof {
                let ghost front = merge_front(nxs, nys, p as int, q as int, n);
                assert(front == rx as int);
                assert(mv[rx as int][i as int] != 0 && mv[rx as int][j as int] != 0);
                assert(a == scaled_dev(mv, i as int, rx as int));
                assert(b == scaled_dev(mv, j as int, rx as int));
                let bd = 255 * n;
                lemma_scaled_dev_bound(mv, i as int, rx as int);
                lemma_scaled_dev_bound(mv, j as int, rx as int);
                assert(-(bd * bd) <= a * b <= bd * bd) by (nonlinear_arith)
                    requires
                        -bd <= a <= bd,
                        -bd <= b <= bd,
                        0 <= bd,
                ;
                assert(1 * (255 * n) * (255 * n) == bd * bd) by (nonlinear_arith)
                    requires
                        bd == 255 * n,
                ;
                lemma_term_sum_fits(n, 1, a * b);
                lemma_d_partial_bound(mv, i as int, j as int, rx as int);
                assert((rx as int) * bd * bd + bd * bd == (rx as int + 1) * bd * bd)
                    by (nonlinear_arith);
                lemma_term_sum_fits(n, rx as int + 1, acc + a * b);
                assert(d_partial(mv, i as int, j as int, rx as int + 1) == acc + a * b);
            }
            acc = acc + a * b;
            p = p + 1;
            q = q + 1;
            proof {
                let ghost front2 = merge_front(nxs, nys, p as int, q as int, n);
                if p < nxs.len() && q < nys.len() {
                    assert(nxs[p - 1] < nxs[p as int]);
                    assert(nys[q - 1] < nys[q as int]);
                }
                assert(rx as int + 1 <= front2);
                lemma_dot_gap(mv, i as int, j as int, p as int, q as int, rx as int + 1, front2);
            }
        } else if rx < ry {
            p = p + 1;
            proof {
                let ghost front = merge_front(nxs, nys, p - 1, q as int, n);
                assert(front == rx as int);
                assert(mv[rx as int][j as int] == 0) by {
                    if mv[rx as int][j as int] != 0 {
                        let ky = choose|k: int| 0 <= k < nys.len() && nys[k] == rx;
                        if ky >= q {
                            assert(nys[q as int] <= nys[ky]);
                        }
                        assert(false);
                    }
                }
                assert(d_partial(mv, i as int, j as int, rx as int + 1) == acc);
                let ghost front2 = merge_front(nxs, nys, p as int, q as int, n);
                if p < nxs.len() {
                    assert(nxs[p - 1] < nxs[p as int]);
                }
                assert(rx as int + 1 <= front2);
                lemma_dot_gap(mv, i as int, j as int, p as int, q as int, rx as int + 1, front2);
            }
        } else {
            q = q + 1;
            proof {
                let ghost front = merge_front(nxs, nys, p as int, q - 1, n);
                assert(front == ry as int);
                assert(mv[ry as int][i as int] == 0) by {
                    if mv[ry as int][i as int] != 0 {
                        let kx = choose|k: int| 0 <= k < nxs.len() && nxs[k] == ry;
                        if kx >= p {
                            assert(nxs[p as int] <= nxs[kx]);
                        }
                        assert(false);
                    }
                }
                assert(d_partial(mv, i as int, j as int, ry as int + 1) == acc);
                let ghost front2 = merge_front(nxs, nys, p as int, q as int, n);
                if q < nys.len() {
                    assert(nys[q - 1] < nys[q as int]);
                }
                assert(ry as int + 1 <= front2);
                lemma_dot_gap(mv, i as int, j as int, p as int, q as int, ry as int + 1, front2);
            }
        }
    }
    acc
}



/// Partial sum of column `i`'s squared scaled deviations over the rows
/// below `upto` observed in both columns `i` and `j`: the part of
/// `q_partial` that the dot product with column `j` can draw on.
spec fn q_joint(mv: Seq<Seq<u8>>, i: int, j: int, upto: int) -> int
    decreases upto,
{
    if upto <= 0 {
        0
    } else {
        q_joint(mv, i, j, upto - 1) + if mv[upto - 1][i] != 0 && mv[upto - 1][j] != 0 {
            scaled_dev(mv, i, upto - 1) * scaled_dev(mv, i, upto - 1)
        } else {
            0int
        }
    }
}

/// The joint squared norm is nonnegative and no larger than the
/// column's full squared norm: it sums a subset of the same
/// nonnegative terms.
proof fn lemma_q_joint_le(mv: Seq<Seq<u8>>, i: int, j: int, upto: int)
    requires
        0 <= upto,
    ensures
        0 <= q_joint(mv, i, j, upto) <= q_partial(mv, i, upto),
    decreases upto,
{
    if upto > 0 {
        lemma_q_joint_le(mv, i, j, upto - 1);
        let a = scaled_dev(mv, i, upto - 1);
        assert(a * a >= 0) by (nonlinear_arith);
    }
}

/// The two-sequence Cauchy-Schwarz step: extending a dot product and
/// the two squared norms by one row keeps the square of the dot
/// product below the product of the norms.
#[verifier::rlimit(60)]
proof fn lemma_cs_step(dd: int, aa: int, bb: int, a: int, b: int)
    requires
        0 <= aa,
        0 <= bb,
        dd * dd <= aa * bb,
    ensures
        (dd + a * b) * (dd + a * b) <= (aa + a * a) * (bb + b * b),
{
    let x = aa * (b * b) + bb * (a * a);
    let y = 2 * dd * (a * b);
    assert(x * x >= 4 * (aa * bb) * ((a * a) * (b * b))) by (nonlinear_arith)
        requires
            x == aa * (b * b) + bb * (a * a),
    ;
    assert(4 * (aa * bb) * ((a * a) * (b * b)) >= 4 * (dd * dd) * ((a * a) * (b * b)))
        by (nonlinear_arith)
        requires
            dd * dd <= aa * bb,
    ;
    assert(y * y == 4 * (dd * dd) * ((a * a) * (b * b))) by (nonlinear_arith)
        requires
            y == 2 * dd * (a * b),
    ;
    assert(x >= 0) by (nonlinear_arith)
        requires
            x == aa * (b * b) + bb * (a * a),
            0 <= aa,
            0 <= bb,
    ;
    assert(x >= y) by (nonlinear_arith)
        requires
            x * x >= y * y,
            x >= 0,
    ;
    assert((dd + a * b) * (dd + a * b) <= (aa + a * a) * (bb + b * b)) by (nonlinear_arith)
        requires
            dd * dd <= aa * bb,
            x == aa * (b * b) + bb * (a * a),
            y == 2 * dd * (a * b),
            x >= y,
    ;
}

/// Cauchy-Schwarz over the jointly observed rows: the squared dot
/// product of two centered columns never exceeds the product of their
/// joint squared norms.
proof fn lemma_cs_partial(mv: Seq<Seq<u8>>, i: int, j: int, upto: int)
    requires
        0 <= upto,
    ensures
        d_partial(mv, i, j, upto) * d_partial(mv, i, j, upto) <= q_joint(mv, i, j, upto) * q_joint(
            mv,
            j,
            i,
            upto,
        ),
    decreases upto,
{
    if upto == 0 {
    } else {
        lemma_cs_partial(mv, i, j, upto - 1);
        lemma_q_joint_le(mv, i, j, upto - 1);
        lemma_q_joint_le(mv, j, i, upto - 1);
        if mv[upto - 1][i] != 0 && mv[upto - 1][j] != 0 {
            lemma_cs_step(
                d_partial(mv, i, j, upto - 1),
                q_joint(mv, i, j, upto - 1),
                q_joint(mv, j, i, upto - 1),
                scaled_dev(mv, i, upto - 1),
                scaled_dev(mv, j, upto - 1),
            );
        }
    }
}

/// Every similarity entry lies in `[-1, 1]`: the squared numerator
/// never exceeds the product of the two squared norms, so dividing by
/// `sqrt(q_norm(i) * q_norm(j))` yields a magnitude of at most one.
pub proof fn lemma_similarity_entry_bounded(mv: Seq<Seq<u8>>, i: int, j: int)
    ensures
        sim_num(mv, i, j) * sim_num(mv, i, j) <= q_norm(mv, i) * q_norm(mv, j),
{
    let n = mv.len() as int;
    lemma_q_partial_bound(mv, i, n);
    lemma_q_partial_bound(mv, j, n);
    if i != j && q_norm(mv, i) > 0 && q_norm(mv, j) > 0 {
        lemma_cs_partial(mv, i, j, n);
        lemma_q_joint_le(mv, i, j, n);
        lemma_q_joint_le(mv, j, i, n);
        assert(q_joint(mv, i, j, n) * q_joint(mv, j, i, n) <= q_partial(mv, i, n) * q_partial(
            mv,
            j,
            n,
        )) by (nonlinear_arith)
            requires
                0 <= q_joint(mv, i, j, n) <= q_partial(mv, i, n),
                0 <= q_joint(mv, j, i, n) <= q_partial(mv, j, n),
        ;
    } else {
        assert(q_norm(mv, i) * q_norm(mv, j) >= 0) by (nonlinear_arith)
            requires
                q_norm(mv, i) >= 0,
                q_norm(mv, j) >= 0,
        ;
    }
}

/// Whether the pair `(a, b)` has been filled when the pair loops stand
/// at outer column `j` and inner column `i`: pairs are visited with the
/// smaller column outermost, the larger strictly after it.
spec fn pair_done(a: int, b: int, j: int, i: int) -> bool {
    let lo = if a < b {
        a
    } else {
        b
    };
    let hi = if a < b {
        b
    } else {
        a
    };
    a != b && (lo < j || (lo == j && hi < i))
}

impl RatingMatrix {
    /// The exact Pearson-cosine similarity matrix over this matrix's
    /// columns: for each unordered pair of columns the dot product of
    /// their centered observed cells (via a sorted-merge over the two
    /// observed-row lists), with a zero numerator whenever a column is
    /// all-missing or has a zero norm, a zero diagonal, and symmetric
    /// entries.
    pub fn get_similarity_matrix(&self) -> (s: SimilarityMatrix)
        requires
            self@.len() <= 0xFFFF_FFFF,
        ensures
            similarity_built(s@, self@, self.spec_cols() as int),
    {
        let n = self.rows();
        let m = self.cols();
        let ghost mv = self@;
        let (avgs, nzidx) = self.get_avg_and_non_zero_idx();
        let (scaled, qnorm) = center_scaled(self, &avgs);
        let mut num: Vec<Vec<i128>> = Vec::new();
        for a in 0..m
            invariant
                num@.len() == a,
                forall|k: int| 0 <= k < a ==> (#[trigger] num@[k])@.len() == m,
                forall|k: int, b: int| 0 <= k < a && 0 <= b < m ==> #[trigger] num@[k]@[b] == 0i128,
        {
            let row: Vec<i128> = vec![0i128; m];
            num.push(row);
        }
        for j in 0..m
            invariant
                mv == self@,
                n == mv.len(),
                n <= 0xFFFF_FFFF,
                m == self.spec_cols(),
                forall|rr: int| 0 <= rr < n ==> (#[trigger] mv[rr]).len() == m,
                nzidx@.len() == m,
                forall|jj: int|
                    0 <= jj < m ==> (#[trigger] nzidx@[jj])@ == obs_rows(mv, jj, n as int),
                scaled@.len() == n,
                forall|rr: int| 0 <= rr < n ==> (#[trigger] scaled@[rr])@.len() == m,
                forall|rr: int, jj: int|
                    0 <= rr < n && 0 <= jj < m && mv[rr][jj] != 0 ==> #[trigger] scaled@[rr]@[jj]
                        == scaled_dev(mv, jj, rr),
                qnorm@.len() == m,
                forall|jj: int| 0 <= jj < m ==> #[trigger] qnorm@[jj] == q_norm(mv, jj),
                num@.len() == m,
                forall|k: int| 0 <= k < m ==> (#[trigger] num@[k])@.len() == m,
                forall|a: int, b: int|
                    0 <= a < m && 0 <= b < m ==> #[trigger] num@[a]@[b] == (if pair_done(
                        a,
                        b,
                        j as int,
                        j as int + 1,
                    ) {
                        sim_num(mv, a, b)
                    } else {
                        0
                    }),
        {
            for i in (j + 1)..m
                invariant
                    mv == self@,
                    n == mv.len(),
                    n <= 0xFFFF_FFFF,
                    m == self.spec_cols(),
                    j < m,
                    j + 1 <= i <= m,
                    forall|rr: int| 0 <= rr < n ==> (#[trigger] mv[rr]).len() == m,
                    nzidx@.len() == m,
                    forall|jj: int|
                        0 <= jj < m ==> (#[trigger] nzidx@[jj])@ == obs_rows(mv, jj, n as int),
                    scaled@.len() == n,
                    forall|rr: int| 0 <= rr < n ==> (#[trigger] scaled@[rr])@.len() == m,
                    forall|rr: int, jj: int|
                        0 <= rr < n && 0 <= jj < m && mv[rr][jj] != 0 ==> #[trigger] scaled@[rr]@[jj]
                            == scaled_dev(mv, jj, rr),
                    qnorm@.len() == m,
                    forall|jj: int| 0 <= jj < m ==> #[trigger] qnorm@[jj] == q_norm(mv, jj),
                    num@.len() == m,
                    forall|k: int| 0 <= k < m ==> (#[trigger] num@[k])@.len() == m,
                    forall|a: int, b: int|
                        0 <= a < m && 0 <= b < m ==> #[trigger] num@[a]@[b] == (if pair_done(
                            a,
                            b,
                            j as int,
                            i as int,
                        ) {
                            sim_num(mv, a, b)
                        } else {
                            0
                        }),
            {
                let qi = qnorm[i];
                let qj = qnorm[j];
                proof {
                    lemma_q_partial_bound(mv, i as int, n as int);
                    lemma_q_partial_bound(mv, j as int, n as int);
                }
                let ghost prev = num@;
                if qi != 0 && qj != 0 {
                    let acc = merge_dot(&scaled, &nzidx[i], &nzidx[j], i, j, Ghost(mv));
                    num[i][j] = acc;
                    num[j][i] = acc;
                    proof {
                        lemma_d_partial_symm(mv, i as int, j as int, n as int);
                        assert(acc == sim_num(mv, i as int, j as int));
                        assert(acc == sim_num(mv, j as int, i as int));
                        assert forall|a: int, b: int|
                            0 <= a < m && 0 <= b < m && !(a == i && b == j) && !(a == j && b
                                == i) implies num@[a]@[b] == prev[a]@[b] by {}
                    }
                } else {
                    proof {
                        assert(sim_num(mv, i as int, j as int) == 0);
                        assert(sim_num(mv, j as int, i as int) == 0);
                    }
                }
                proof {
                    assert forall|a: int, b: int| 0 <= a < m && 0 <= b < m implies num@[a]@[b] == (
                    if pair_done(a, b, j as int, i as int + 1) {
                        sim_num(mv, a, b)
                    } else {
                        0
                    }) by {}
                }
            }
        }
        let s = SimilarityMatrix { dim: m, num, qnorm };
        proof {
            assert forall|a: int| 0 <= a < m implies (#[trigger] s@.num[a]) == s.num@[a]@ by {}
            assert forall|a: int, b: int| 0 <= a < m && 0 <= b < m implies #[trigger] s@.num[a][b]
                == sim_num(mv, a, b) by {
                assert(pair_done(a, b, m as int, m as int + 1) <==> a != b);
                if a == b {
                    lemma_similarity_symmetric(mv, a, a);
                }
            }
        }
        s
    }
}

} // verus!
