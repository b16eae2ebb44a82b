//! Tests of the Pearson-cosine similarity engine on concrete matrices.

use recommend::data::Transaction;
use recommend::matrix::RatingMatrix;
use recommend::similarity::SimilarityMatrix;

/// Build a rating matrix from a dense row-major table of cells.
fn matrix_from_rows(rows: usize, cols: usize, cells: &[u8]) -> RatingMatrix {
    assert_eq!(cells.len(), rows * cols);
    let mut ts: Vec<Transaction> = Vec::new();
    for r in 0..rows {
        for c in 0..cols {
            let v = cells[r * cols + c];
            if v != 0 {
                ts.push(Transaction {
                    movie_id: c,
                    customer_id: r,
                    rating: v,
                    date: String::new(),
                });
            }
        }
    }
    RatingMatrix::from_transactions(&ts, rows, cols)
}

/// The real-valued similarity entry encoded by the exact matrix.
fn sim_value(s: &SimilarityMatrix, i: usize, j: usize) -> f64 {
    let qi = s.col_qnorm(i);
    let qj = s.col_qnorm(j);
    if i != j && qi > 0 && qj > 0 {
        s.entry_num(i, j) as f64 / (f64::sqrt(qi as f64) * f64::sqrt(qj as f64))
    } else {
        0f64
    }
}

#[test]
fn test_pearson_cosine_similarity() {
    let matrix = matrix_from_rows(
        3,
        6,
        &[
            1, 2, 0, 0, 1, 0, //
            0, 1, 2, 0, 3, 0, //
            2, 2, 4, 0, 2, 0,
        ],
    );
    assert!(matrix.rows() == 3 && matrix.cols() == 6);
    let (avg, non_zero_idx) = matrix.get_avg_and_non_zero_idx();
    let avg_values: Vec<f64> = avg
        .iter()
        .map(|a| {
            if a.count != 0 {
                a.sum as f64 / a.count as f64
            } else {
                0f64
            }
        })
        .collect();
    assert!(avg_values == vec![1.5f64, 5f64 / 3f64, 3f64, 0f64, 2f64, 0f64]);
    assert!(
        non_zero_idx
            == vec![
                vec![0, 2],
                vec![0, 1, 2],
                vec![1, 2],
                vec![],
                vec![0, 1, 2],
                vec![],
            ]
    );
    let similarity = matrix.get_similarity_matrix();
    for i in 0..6 {
        for j in 0..6 {
            assert!(sim_value(&similarity, i, j) == sim_value(&similarity, j, i));
        }
    }
    assert!(sim_value(&similarity, 0, 0) == 0f64);
    assert!(sim_value(&similarity, 5, 3) == 0f64);
    assert!(sim_value(&similarity, 0, 1) == 0f64);
    assert!(sim_value(&similarity, 3, 0) == 0f64);
    assert!(sim_value(&similarity, 4, 0) - 0.5f64 < 1e-10);
    assert!((sim_value(&similarity, 1, 4) - -f64::sqrt(3f64) / 2f64).abs() < 1e-10);
}

#[test]
fn similarity_numerators_symmetric_zero_diagonal() {
    let matrix = matrix_from_rows(
        3,
        6,
        &[
            1, 2, 0, 0, 1, 0, //
            0, 1, 2, 0, 3, 0, //
            2, 2, 4, 0, 2, 0,
        ],
    );
    let s = matrix.get_similarity_matrix();
    assert_eq!(s.dim(), 6);
    for i in 0..6 {
        assert_eq!(s.entry_num(i, i), 0);
        for j in 0..6 {
            assert_eq!(s.entry_num(i, j), s.entry_num(j, i));
        }
    }
}

#[test]
fn similarity_entries_of_all_missing_column_are_zero() {
    let matrix = matrix_from_rows(
        3,
        6,
        &[
            1, 2, 0, 0, 1, 0, //
            0, 1, 2, 0, 3, 0, //
            2, 2, 4, 0, 2, 0,
        ],
    );
    let s = matrix.get_similarity_matrix();
    // Columns 3 and 5 have no observed cell.
    for missing in [3usize, 5usize] {
        assert_eq!(s.col_qnorm(missing), 0);
        for k in 0..6 {
            assert_eq!(s.entry_num(k, missing), 0);
            assert_eq!(s.entry_num(missing, k), 0);
            assert!(sim_value(&s, k, missing) == 0f64);
            assert!(sim_value(&s, missing, k) == 0f64);
        }
    }
}

#[test]
fn similarity_exact_values_on_small_example() {
    // Columns 1 and 4 of the shared example: scaled deviations
    // [1, -2, 1] and [-3, 3, 0], so the numerator is -9 and the
    // squared norms are 6 and 18: -9 / sqrt(6 * 18) == -sqrt(3)/2.
    let matrix = matrix_from_rows(
        3,
        6,
        &[
            1, 2, 0, 0, 1, 0, //
            0, 1, 2, 0, 3, 0, //
            2, 2, 4, 0, 2, 0,
        ],
    );
    let s = matrix.get_similarity_matrix();
    assert_eq!(s.col_qnorm(1), 6);
    assert_eq!(s.col_qnorm(4), 18);
    assert_eq!(s.entry_num(1, 4), -9);
    // Columns 0 and 4: scaled deviations of column 0 over rows {0, 2}
    // are [-1, 1] (with norm 2); the shared rows give 3 / sqrt(2 * 18).
    assert_eq!(s.col_qnorm(0), 2);
    assert_eq!(s.entry_num(0, 4), 3);
    assert!((sim_value(&s, 0, 4) - 0.5f64).abs() < 1e-10);
}

#[test]
fn column_statistics_on_empty_matrix() {
    let matrix = matrix_from_rows(0, 3, &[]);
    let (avg, idx) = matrix.get_avg_and_non_zero_idx();
    assert_eq!(avg.len(), 3);
    assert_eq!(idx.len(), 3);
    for j in 0..3 {
        assert_eq!(avg[j].count, 0);
        assert_eq!(avg[j].sum, 0);
        assert!(idx[j].is_empty());
    }
    let s = matrix.get_similarity_matrix();
    assert_eq!(s.dim(), 3);
    for i in 0..3 {
        assert_eq!(s.col_qnorm(i), 0);
        for j in 0..3 {
            assert_eq!(s.entry_num(i, j), 0);
        }
    }
}
