//! Dense customer-by-movie rating matrix, materialized from a
//! transaction list. A cell holds the rating of the last transaction
//! for that (customer, movie) pair, or `0` when the pair never occurs
//! (`0` means "missing", not "rated zero").

use vstd::prelude::*;

use crate::data::Data;
use crate::data::Transaction;

verus! {

/// The rating that a transaction list leaves at cell `(c, i)`:
/// the rating of the last transaction for that pair in input order,
/// or `0` when no transaction touches the pair (last write wins).
pub open spec fn last_rating(ts: Seq<Transaction>, c: int, i: int) -> u8
    decreases ts.len(),
{
    if ts.len() == 0 {
        0u8
    } else if ts.last().customer_id == c && ts.last().movie_id == i {
        ts.last().rating
    } else {
        last_rating(ts.drop_last(), c, i)
    }
}

/// What it means for an `n` by `m` matrix value to be the rating matrix
/// of a transaction list.
pub open spec fn matrix_built(mv: Seq<Seq<u8>>, ts: Seq<Transaction>, n: int, m: int) -> bool {
    &&& mv.len() == n
    &&& forall|r: int| 0 <= r < n ==> (#[trigger] mv[r]).len() == m
    &&& forall|c: int, i: int|
        0 <= c < n && 0 <= i < m ==> #[trigger] mv[c][i] == last_rating(ts, c, i)
}

/// A dense matrix of ratings, one row per virtual customer and one
/// column per movie. Viewed as a sequence of rows.
pub struct RatingMatrix {
    rows: usize,
    cols: usize,
    data: Vec<Vec<u8>>,
}

impl View for RatingMatrix {
    type V = Seq<Seq<u8>>;

    closed spec fn view(&self) -> Seq<Seq<u8>> {
        Seq::new(self.data@.len(), |r: int| self.data@[r]@)
    }
}

impl RatingMatrix {
    #[verifier::type_invariant]
    spec fn shape_inv(self) -> bool {
        &&& self.data@.len() == self.rows
        &&& forall|r: int| 0 <= r < self.data@.len() ==> (#[trigger] self.data@[r])@.len() == self.cols
    }

    /// The column count, also meaningful when the matrix has no rows.
    pub closed spec fn spec_cols(self) -> usize {
        self.cols
    }

    /// An all-zero matrix of the given shape.
    pub fn zeros(rows: usize, cols: usize) -> (mat: Self)
        ensures
            mat@.len() == rows,
            mat.spec_cols() == cols,
            forall|r: int| 0 <= r < rows ==> (#[trigger] mat@[r]).len() == cols,
            forall|r: int, c: int| 0 <= r < rows && 0 <= c < cols ==> #[trigger] mat@[r][c] == 0u8,
    {
        let mut data: Vec<Vec<u8>> = Vec::new();
        for r in 0..rows
            invariant
                data@.len() == r,
                forall|k: int| 0 <= k < r ==> (#[trigger] data@[k])@.len() == cols,
                forall|k: int, c: int|
                    0 <= k < r && 0 <= c < cols ==> #[trigger] data@[k]@[c] == 0u8,
        {
            let row: Vec<u8> = vec![0u8; cols];
            data.push(row);
        }
        RatingMatrix { rows, cols, data }
    }

    /// Number of rows (virtual customers).
    pub fn rows(&self) -> (r: usize)
        ensures
            r == self@.len(),
    {
        proof {
            use_type_invariant(&*self);
        }
        self.rows
    }

    /// Number of columns (movies).
    pub fn cols(&self) -> (c: usize)
        ensures
            c == self.spec_cols(),
            forall|r: int| 0 <= r < self@.len() ==> (#[trigger] self@[r]).len() == c,
    {
        proof {
            use_type_invariant(&*self);
        }
        self.cols
    }

    /// Read one cell.
    pub fn get(&self, r: usize, c: usize) -> (v: u8)
        requires
            r < self@.len(),
            c < self@[r as int].len(),
        ensures
            v == self@[r as int][c as int],
    {
        proof {
            use_type_invariant(&*self);
        }
        self.data[r][c]
    }

    /// Build the rating matrix of a transaction list: start from zeros,
    /// then write each transaction's rating at its (customer, movie)
    /// cell, in input order, so a later transaction for the same pair
    /// overwrites an earlier one.
    pub fn from_transactions(ts: &Vec<Transaction>, n: usize, m: usize) -> (mat: Self)
        requires
            forall|k: int|
                0 <= k < ts@.len() ==> (#[trigger] ts@[k]).customer_id < n && ts@[k].movie_id < m,
        ensures
            matrix_built(mat@, ts@, n as int, m as int),
            mat.spec_cols() == m,
    {
        let mut data: Vec<Vec<u8>> = Vec::new();
        for r in 0..n
            invariant
                data@.len() == r,
                forall|k: int| 0 <= k < r ==> (#[trigger] data@[k])@.len() == m,
                forall|k: int, c: int| 0 <= k < r && 0 <= c < m ==> #[trigger] data@[k]@[c] == 0u8,
        {
            let row: Vec<u8> = vec![0u8; m];
            data.push(row);
        }
        proof {
            assert(ts@.take(0) =~= Seq::<Transaction>::empty());
        }
        let ghost full = ts@;
        for k in 0..ts.len()
            invariant
                data@.len() == n,
                forall|r: int| 0 <= r < n ==> (#[trigger] data@[r])@.len() == m,
                forall|c: int, i: int|
                    0 <= c < n && 0 <= i < m ==> #[trigger] data@[c]@[i] == last_rating(
                        full.take(k as int),
                        c,
                        i,
                    ),
                full == ts@,
                forall|j: int|
                    0 <= j < full.len() ==> (#[trigger] full[j]).customer_id < n
                        && full[j].movie_id < m,
        {
            let t = &ts[k];
            let ghost prev = data@;
            data[t.customer_id][t.movie_id] = t.rating;
            proof {
                assert(full.take(k + 1).drop_last() =~= full.take(k as int));
                assert(full.take(k + 1).last() == full[k as int]);
                assert forall|c: int, i: int| 0 <= c < n && 0 <= i < m implies #[trigger] data@[c]@[i]
                    == last_rating(full.take(k + 1), c, i) by {
                    if !(c == full[k as int].customer_id && i == full[k as int].movie_id) {
                        assert(data@[c]@[i] == prev[c]@[i]);
                    }
                }
            }
        }
        proof {
            assert(full.take(ts@.len() as int) =~= ts@);
        }
        let mat = RatingMatrix { rows: n, cols: m, data };
        proof {
            assert(mat@ =~= Seq::new(mat.data@.len(), |r: int| mat.data@[r]@));
            assert forall|r: int| 0 <= r < n implies #[trigger] mat@[r] == mat.data@[r]@ by {}
        }
        mat
    }
}

/// Rebuilding the rating matrix from the same transaction list always
/// yields an identical matrix: the build relation determines every
/// cell, so two matrices built from the same list are equal.
pub proof fn lemma_rating_matrix_unique(
    m1: Seq<Seq<u8>>,
    m2: Seq<Seq<u8>>,
    ts: Seq<Transaction>,
    n: int,
    m: int,
)
    requires
        matrix_built(m1, ts, n, m),
        matrix_built(m2, ts, n, m),
    ensures
        m1 == m2,
{
    assert forall|r: int| 0 <= r < n implies m1[r] =~= m2[r] by {
        assert(forall|c: int| 0 <= c < m ==> m1[r][c] == last_rating(ts, r, c));
    }
    assert(m1 =~= m2);
}

/// Last write wins: when index `k` holds a transaction for pair
/// `(c, i)` and no later transaction touches that pair, the built
/// matrix holds that transaction's rating at `(c, i)`.
pub proof fn lemma_last_write_wins(ts: Seq<Transaction>, c: int, i: int, k: int)
    requires
        0 <= k < ts.len(),
        ts[k].customer_id == c && ts[k].movie_id == i,
        forall|j: int| k < j < ts.len() ==> !((#[trigger] ts[j]).customer_id == c && ts[j].movie_id == i),
    ensures
        last_rating(ts, c, i) == ts[k].rating,
    decreases ts.len(),
{
    if k == ts.len() - 1 {
    } else {
        assert(ts.drop_last()[k] == ts[k]);
        lemma_last_write_wins(ts.drop_last(), c, i, k);
    }
}


impl Data {
    /// The dense rating matrix of this dataset's training split: one
    /// row per virtual customer, one column per movie, each cell the
    /// last written rating for its pair or `0`.
    pub fn training_data_to_matrix(&self) -> (mat: RatingMatrix)
        requires
            forall|k: int|
                0 <= k < self.train@.len() ==> (#[trigger] self.train@[k]).customer_id
                    < self.metadata.num_customers && self.train@[k].movie_id
                    < self.metadata.num_movies,
        ensures
            matrix_built(
                mat@,
                self.train@,
                self.metadata.num_customers as int,
                self.metadata.num_movies as int,
            ),
            mat.spec_cols() == self.metadata.num_movies,
    {
        RatingMatrix::from_transactions(
            &self.train,
            self.metadata.num_customers,
            self.metadata.num_movies,
        )
    }
}

} // verus!
