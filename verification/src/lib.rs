//! A collaborative-filtering data pipeline: it densifies sparse
//! customer identifiers into a contiguous virtual index space, builds a
//! dense customer-by-movie rating matrix from transaction records, and
//! derives a symmetric Pearson-cosine similarity matrix over the matrix
//! columns in exact integer arithmetic, handling missing (zero) cells.

pub mod data;
pub mod densify;
pub mod dump;
pub mod matrix;
pub mod models;
pub mod records;
pub mod similarity;

pub use data::Data;
pub use data::MetaData;
pub use data::Movie;
pub use data::Rating;
pub use data::Transaction;
pub use matrix::RatingMatrix;
pub use models::Model;
pub use models::ModelHolder;
pub use similarity::SimilarityMatrix;
