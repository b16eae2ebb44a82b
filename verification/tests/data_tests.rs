//! Tests of dataset loading: identifier densification, frequency
//! vectors, anomaly reporting, and the train/cross-validation split.

use recommend::data::Data;
use recommend::data::Movie;
use recommend::data::Transaction;

fn txn(movie_id: usize, customer_id: usize, rating: u8, date: &str) -> Transaction {
    Transaction {
        movie_id,
        customer_id,
        rating,
        date: date.to_string(),
    }
}

fn movies(n: usize) -> Vec<Movie> {
    (0..n)
        .map(|k| Movie {
            movie_id: k,
            year_produced: 2000,
            title: format!("movie {}", k),
        })
        .collect()
}

#[test]
fn densifier_assigns_first_seen_order_and_reports_anomalies() {
    // Training customers 7, 3, 3, 9; test contains customer 5, never
    // seen in training.
    let train = vec![
        txn(0, 7, 5, "2005-01-01"),
        txn(1, 3, 4, "2005-01-02"),
        txn(2, 3, 3, "2005-01-03"),
        txn(0, 9, 1, "2005-01-04"),
    ];
    let test = vec![txn(1, 5, 0, "2005-02-01")];
    let data = Data::new(train, Vec::new(), test);

    assert_eq!(data.metadata.num_customers, 4);
    assert_eq!(data.metadata.trans_freq.len(), 4);
    assert_eq!(data.metadata.tests_freq.len(), 4);
    // First-seen order: 7 -> 0, 3 -> 1, 9 -> 2, then the test-phase
    // straggler 5 -> 3.
    assert_eq!(data.metadata.trans_freq, vec![1, 2, 1, 0]);
    assert_eq!(data.metadata.tests_freq, vec![0, 0, 0, 1]);
    assert_eq!(data.metadata.anomalies, vec![5]);
    assert_eq!(data.test_data[0].customer_id, 3);
    // The identity map is a bijection between the raw identifiers and
    // the virtual indices 0..4.
    assert_eq!(data.virtual_id_map.len(), 4);
    assert_eq!(data.virtual_id_map.get(&7), Some(&0));
    assert_eq!(data.virtual_id_map.get(&3), Some(&1));
    assert_eq!(data.virtual_id_map.get(&9), Some(&2));
    assert_eq!(data.virtual_id_map.get(&5), Some(&3));
}

#[test]
fn frequency_vectors_sum_to_transaction_counts() {
    let train = vec![
        txn(0, 42, 5, "a"),
        txn(1, 42, 4, "b"),
        txn(2, 17, 3, "c"),
        txn(3, 42, 2, "d"),
        txn(4, 99, 1, "e"),
    ];
    let test = vec![txn(0, 17, 0, "f"), txn(1, 1000, 0, "g")];
    let data = Data::new(train, Vec::new(), test);
    let total_train: u32 = data.metadata.trans_freq.iter().sum();
    let total_test: u32 = data.metadata.tests_freq.iter().sum();
    assert_eq!(total_train, 5);
    assert_eq!(total_test, 2);
    // Distinct ids over both phases: 42, 17, 99, 1000.
    assert_eq!(data.metadata.num_customers, 4);
    assert_eq!(data.metadata.trans_freq.len(), 4);
    assert_eq!(data.metadata.tests_freq.len(), 4);
}

#[test]
fn training_list_splits_eighty_twenty() {
    let train = vec![
        txn(0, 1, 5, "a"),
        txn(1, 2, 4, "b"),
        txn(2, 3, 3, "c"),
        txn(3, 4, 2, "d"),
        txn(4, 5, 1, "e"),
    ];
    let data = Data::new(train, Vec::new(), Vec::new());
    assert_eq!(data.metadata.num_train, 4);
    assert_eq!(data.metadata.num_cross_valid, 1);
    assert_eq!(data.train.len(), 4);
    assert_eq!(data.cross_valid.len(), 1);
    // The split keeps input order: customers 1..=4 train, 5 held out,
    // remapped in first-seen order.
    let train_ids: Vec<usize> = data.train.iter().map(|t| t.customer_id).collect();
    assert_eq!(train_ids, vec![0, 1, 2, 3]);
    assert_eq!(data.cross_valid[0].customer_id, 4);
    assert_eq!(data.cross_valid[0].movie_id, 4);
    assert_eq!(data.cross_valid[0].rating, 1);
}

#[test]
fn remapping_keeps_all_other_fields() {
    let train = vec![txn(6, 12345, 4, "2004-12-31")];
    let data = Data::new(train, Vec::new(), Vec::new());
    assert_eq!(data.metadata.num_train, 1);
    assert_eq!(data.train[0].movie_id, 6);
    assert_eq!(data.train[0].customer_id, 0);
    assert_eq!(data.train[0].rating, 4);
    assert_eq!(data.train[0].date, "2004-12-31");
}

#[test]
fn rebuilding_rating_matrix_is_idempotent() {
    let train = vec![
        txn(0, 10, 5, "a"),
        txn(1, 20, 4, "b"),
        txn(2, 10, 3, "c"),
        txn(0, 20, 2, "d"),
        txn(1, 30, 1, "e"),
    ];
    let data = Data::new(train, movies(3), Vec::new());
    let m1 = data.training_data_to_matrix();
    let m2 = data.training_data_to_matrix();
    assert_eq!(m1.rows(), m2.rows());
    assert_eq!(m1.cols(), m2.cols());
    for r in 0..m1.rows() {
        for c in 0..m1.cols() {
            assert_eq!(m1.get(r, c), m2.get(r, c));
        }
    }
}

#[test]
fn last_write_wins_in_rating_matrix() {
    // Two transactions for the same (customer, movie) pair: the later
    // one in input order leaves its rating in the matrix.
    let train = vec![
        txn(2, 8, 1, "a"),
        txn(2, 8, 5, "b"),
        txn(0, 8, 3, "c"),
        txn(0, 8, 2, "d"),
        txn(1, 8, 4, "e"),
    ];
    let data = Data::new(train, movies(3), Vec::new());
    let m = data.training_data_to_matrix();
    // num_train is 4, so only the first four transactions are written.
    assert_eq!(m.get(0, 2), 5);
    assert_eq!(m.get(0, 0), 2);
    assert_eq!(m.get(0, 1), 0);
}
