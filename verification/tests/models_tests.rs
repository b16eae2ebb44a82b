//! Tests of the model lifecycle facade and the dump rendering.

use recommend::data::Data;
use recommend::data::Movie;
use recommend::data::Transaction;
use recommend::dump::DumpToFile;
use recommend::models::LifecycleState;
use recommend::models::Model;
use recommend::models::ModelHolder;
use recommend::models::ModelKind;

fn txn(movie_id: usize, customer_id: usize, rating: u8, date: &str) -> Transaction {
    Transaction {
        movie_id,
        customer_id,
        rating,
        date: date.to_string(),
    }
}

fn small_data() -> Data {
    let train = vec![
        txn(0, 7, 5, "a"),
        txn(1, 3, 4, "b"),
        txn(0, 3, 3, "c"),
        txn(1, 9, 1, "d"),
        txn(0, 9, 2, "e"),
    ];
    let movies = vec![
        Movie {
            movie_id: 0,
            year_produced: 1999,
            title: "first".to_string(),
        },
        Movie {
            movie_id: 1,
            year_produced: 2001,
            title: "second".to_string(),
        },
    ];
    let test = vec![txn(1, 7, 0, "f"), txn(0, 5, 0, "g")];
    Data::new(train, movies, test)
}

#[test]
fn holders_hand_out_uninitialized_models() {
    let holders = vec![
        ModelHolder::new(ModelKind::MatrixCompletion),
        ModelHolder::new(ModelKind::SpectralClustering),
    ];
    assert_eq!(holders[0].get_name(), "MatrixCompletion");
    assert_eq!(holders[1].get_name(), "SpectralClustering");
    for h in &holders {
        let m = h.get_model();
        assert!(m.state == LifecycleState::Uninitialized);
        assert!(m.kind == h.kind);
        assert_eq!(m.get_name(), h.get_name());
    }
}

fn run_lifecycle(kind: ModelKind) -> Model {
    let data = small_data();
    let holder = ModelHolder::new(kind);
    let mut model = holder.get_model();
    model.init(&data);
    assert!(model.state == LifecycleState::Initialized);
    // predict is already valid once initialized.
    assert_eq!(model.predict(&data.test_data[0]), 0);
    model.train();
    assert!(model.state == LifecycleState::Trained);
    let predictions = model.predict_all(&data.test_data);
    assert_eq!(predictions.len(), data.test_data.len());
    assert!(predictions.iter().all(|&p| p == 0));
    model
}

#[test]
fn matrix_completion_lifecycle() {
    let model = run_lifecycle(ModelKind::MatrixCompletion);
    // The rating matrix covers every (customer, movie) cell.
    assert_eq!(model.customer_movie.rows(), 4);
    assert_eq!(model.customer_movie.cols(), 2);
    assert_eq!(model.customer_movie.get(0, 0), 5);
    assert_eq!(model.customer_movie.get(1, 1), 4);
    assert_eq!(model.customer_movie.get(1, 0), 3);
    // num_train is 4, so the last training transaction was held out
    // for cross-validation and its cell stays missing.
    assert_eq!(model.customer_movie.get(2, 0), 0);
    assert_eq!(model.customer_movie.get(2, 1), 1);
}

#[test]
fn spectral_clustering_lifecycle_builds_similarity() {
    let model = run_lifecycle(ModelKind::SpectralClustering);
    let s = &model.movie_similarity;
    assert_eq!(s.dim(), 2);
    assert_eq!(s.entry_num(0, 0), 0);
    assert_eq!(s.entry_num(1, 1), 0);
    assert_eq!(s.entry_num(0, 1), s.entry_num(1, 0));
    // The same similarity matrix the engine yields directly.
    let direct = model.customer_movie.get_similarity_matrix();
    assert_eq!(direct.entry_num(0, 1), s.entry_num(0, 1));
    assert_eq!(direct.col_qnorm(0), s.col_qnorm(0));
    assert_eq!(direct.col_qnorm(1), s.col_qnorm(1));
}

#[test]
fn dump_renders_one_rating_per_line() {
    let rs: Vec<u8> = vec![0, 5, 3];
    assert_eq!(rs.dump_to_file(), "0\n5\n3\n");
    let empty: Vec<u8> = Vec::new();
    assert_eq!(empty.dump_to_file(), "");
    let wide: Vec<u8> = vec![255, 42, 100, 9, 10];
    assert_eq!(wide.dump_to_file(), "255\n42\n100\n9\n10\n");
}

#[test]
fn predictions_dump_like_the_original_artifact() {
    let data = small_data();
    let holder = ModelHolder::new(ModelKind::MatrixCompletion);
    let mut model = holder.get_model();
    model.init(&data);
    model.train();
    let text = model.predict_all(&data.test_data).dump_to_file();
    assert_eq!(text, "0\n0\n");
}
