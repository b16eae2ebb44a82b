//! The model facade: a uniform init → train → predict lifecycle over
//! the closed set of model kinds. `init` builds the rating matrix (and,
//! for the spectral-clustering kind, the movie similarity matrix);
//! `train` moves the lifecycle on (the spectral kind's eigen-analysis
//! is a floating-point diagnostic that an unverified caller runs on the
//! exact similarity matrix); `predict` is a stub that returns the
//! "no prediction" sentinel `0` for every transaction.

use vstd::prelude::*;

use crate::data::Data;
use crate::data::Rating;
use crate::data::Transaction;
use crate::matrix::matrix_built;
use crate::matrix::RatingMatrix;
use crate::similarity::similarity_built;
use crate::similarity::SimilarityMatrix;

verus! {

/// The closed set of model variants.
#[derive(Clone, Copy, Debug, PartialEq, Eq, Structural)]
pub enum ModelKind {
    MatrixCompletion,
    SpectralClustering,
}

/// Where a model stands in its lifecycle: `init` moves it to
/// `Initialized`, `train` from `Initialized` to `Trained`; `predict`
/// is valid from `Initialized` on.
#[derive(Clone, Copy, Debug, PartialEq, Eq, Structural)]
pub enum LifecycleState {
    Uninitialized,
    Initialized,
    Trained,
}

/// One model instance: its kind, its lifecycle state, and the matrices
/// its kind builds on `init`. A matrix-completion model owns only the
/// rating matrix; a spectral-clustering model also owns the movie
/// similarity matrix derived from it.
pub struct Model {
    pub kind: ModelKind,
    pub state: LifecycleState,
    pub customer_movie: RatingMatrix,
    pub movie_similarity: SimilarityMatrix,
}

impl Model {
    /// The model's display name.
    pub fn get_name(&self) -> (name: &'static str)
        ensures
            self.kind == ModelKind::MatrixCompletion ==> name@ == "MatrixCompletion"@,
            self.kind == ModelKind::SpectralClustering ==> name@ == "SpectralClustering"@,
    {
        match self.kind {
            ModelKind::MatrixCompletion => "MatrixCompletion",
            ModelKind::SpectralClustering => "SpectralClustering",
        }
    }

    /// Initialize the model with a dataset: build the dense rating
    /// matrix from the training split and, for the spectral-clustering
    /// kind, the exact movie similarity matrix over its columns.
    pub fn init(&mut self, data: &Data)
        requires
            forall|k: int|
                0 <= k < data.train@.len() ==> (#[trigger] data.train@[k]).customer_id
                    < data.metadata.num_customers && data.train@[k].movie_id
                    < data.metadata.num_movies,
            data.metadata.num_customers <= 0xFFFF_FFFF,
        ensures
            final(self).kind == old(self).kind,
            final(self).state == LifecycleState::Initialized,
            matrix_built(
                final(self).customer_movie@,
                data.train@,
                data.metadata.num_customers as int,
                data.metadata.num_movies as int,
            ),
            final(self).customer_movie.spec_cols() == data.metadata.num_movies,
            old(self).kind == ModelKind::SpectralClustering ==> similarity_built(
                final(self).movie_similarity@,
                final(self).customer_movie@,
                data.metadata.num_movies as int,
            ),
            old(self).kind == ModelKind::MatrixCompletion ==> final(self).movie_similarity
                == old(self).movie_similarity,
    {
        self.customer_movie = data.training_data_to_matrix();
        match self.kind {
            ModelKind::MatrixCompletion => {},
            ModelKind::SpectralClustering => {
                self.movie_similarity = self.customer_movie.get_similarity_matrix();
            },
        }
        self.state = LifecycleState::Initialized;
    }

    /// Train an initialized model. The verified core records the
    /// lifecycle transition; the matrices are untouched. For the
    /// spectral-clustering kind the caller may then eigendecompose the
    /// similarity matrix for diagnostics.
    pub fn train(&mut self)
        requires
            old(self).state == LifecycleState::Initialized,
        ensures
            final(self).state == LifecycleState::Trained,
            final(self).kind == old(self).kind,
            final(self).customer_movie == old(self).customer_movie,
            final(self).movie_similarity == old(self).movie_similarity,
    {
        self.state = LifecycleState::Trained;
    }

    /// Predict the rating of one transaction. Both model kinds are
    /// prediction stubs: they return the "no prediction" sentinel `0`.
    pub fn predict(&self, _trans: &Transaction) -> (r: Rating)
        requires
            self.state != LifecycleState::Uninitialized,
        ensures
            r == 0,
    {
        0
    }

    /// Predict a rating for every transaction of a test set, aligned
    /// one to one with the input order.
    pub fn predict_all(&self, test_data: &Vec<Transaction>) -> (rs: Vec<Rating>)
        requires
            self.state != LifecycleState::Uninitialized,
        ensures
            rs@.len() == test_data@.len(),
            forall|i: int| 0 <= i < rs@.len() ==> #[trigger] rs@[i] == 0,
    {
        let mut rs: Vec<Rating> = Vec::new();
        let n = test_data.len();
        for k in 0..n
            invariant
                n == test_data@.len(),
                self.state != LifecycleState::Uninitialized,
                rs@.len() == k,
                forall|i: int| 0 <= i < k ==> #[trigger] rs@[i] == 0,
        {
            let r = self.predict(&test_data[k]);
            rs.push(r);
        }
        rs
    }
}

/// Holds an uninitialized model of one kind, handing out fresh default
/// instances on demand.
pub struct ModelHolder {
    pub kind: ModelKind,
}

impl ModelHolder {
    /// A holder for the given model kind.
    pub fn new(kind: ModelKind) -> (h: Self)
        ensures
            h.kind == kind,
    {
        ModelHolder { kind }
    }

    /// A fresh, uninitialized model of this holder's kind, with a
    /// one-by-one zero rating matrix as a placeholder.
    pub fn get_model(&self) -> (m: Model)
        ensures
            m.kind == self.kind,
            m.state == LifecycleState::Uninitialized,
            m.customer_movie@.len() == 1,
            m.customer_movie.spec_cols() == 1,
            m.movie_similarity@.num.len() == 0,
    {
        Model {
            kind: self.kind,
            state: LifecycleState::Uninitialized,
            customer_movie: RatingMatrix::zeros(1, 1),
            movie_similarity: SimilarityMatrix::empty(),
        }
    }

    /// The display name of this holder's model kind.
    pub fn get_name(&self) -> (name: &'static str)
        ensures
            self.kind == ModelKind::MatrixCompletion ==> name@ == "MatrixCompletion"@,
            self.kind == ModelKind::SpectralClustering ==> name@ == "SpectralClustering"@,
    {
        match self.kind {
            ModelKind::MatrixCompletion => "MatrixCompletion",
            ModelKind::SpectralClustering => "SpectralClustering",
        }
    }
}

} // verus!
