//! Tests of record parsing: numeric fields, fallbacks, and the error
//! reported for each kind of malformed record.

use recommend::data::Movie;
use recommend::data::Transaction;
use recommend::records::parse_rating;
use recommend::records::parse_usize;
use recommend::records::parse_year;
use recommend::records::ParseError;

fn fields(xs: &[&str]) -> Vec<String> {
    xs.iter().map(|x| x.to_string()).collect()
}

#[test]
fn parse_usize_accepts_decimal_numbers() {
    assert_eq!(parse_usize("0"), Some(0));
    assert_eq!(parse_usize("123"), Some(123));
    assert_eq!(parse_usize("+7"), Some(7));
    assert_eq!(parse_usize("007"), Some(7));
}

#[test]
fn parse_usize_rejects_non_numbers() {
    assert_eq!(parse_usize(""), None);
    assert_eq!(parse_usize("+"), None);
    assert_eq!(parse_usize("12a"), None);
    assert_eq!(parse_usize("-3"), None);
    assert_eq!(parse_usize(" 5"), None);
    assert_eq!(parse_usize("1.5"), None);
    assert_eq!(parse_usize("99999999999999999999999999999999"), None);
}

#[test]
fn rating_and_year_fall_back_to_zero() {
    assert_eq!(parse_rating("4"), 4);
    assert_eq!(parse_rating("255"), 255);
    assert_eq!(parse_rating("256"), 0);
    assert_eq!(parse_rating("abc"), 0);
    assert_eq!(parse_rating(""), 0);
    assert_eq!(parse_year("1999"), 1999);
    assert_eq!(parse_year("70000"), 0);
    assert_eq!(parse_year("NULL"), 0);
}

#[test]
fn movie_record_parses_and_shifts_id() {
    let m = Movie::from_string_record(&fields(&["3", "1999", "A Title"])).unwrap();
    assert_eq!(m.movie_id, 2);
    assert_eq!(m.year_produced, 1999);
    assert_eq!(m.title, "A Title");
}

#[test]
fn movie_record_errors() {
    assert_eq!(
        Movie::from_string_record(&fields(&["1", "1999"])).unwrap_err(),
        ParseError::MissingField
    );
    assert_eq!(
        Movie::from_string_record(&fields(&["zero", "1999", "T"])).unwrap_err(),
        ParseError::InvalidNumber
    );
    assert_eq!(
        Movie::from_string_record(&fields(&["0", "1999", "T"])).unwrap_err(),
        ParseError::InvalidMovieId
    );
    // An unparsable year is not fatal: it falls back to zero.
    let m = Movie::from_string_record(&fields(&["2", "NULL", "T"])).unwrap();
    assert_eq!(m.year_produced, 0);
}

#[test]
fn transaction_record_parses_and_shifts_movie_id() {
    let t = Transaction::from_string_record(&fields(&["10", "55", "4", "2005-09-06"])).unwrap();
    assert_eq!(t.movie_id, 9);
    assert_eq!(t.customer_id, 55);
    assert_eq!(t.rating, 4);
    assert_eq!(t.date, "2005-09-06");
}

#[test]
fn transaction_record_errors() {
    assert_eq!(
        Transaction::from_string_record(&fields(&["10", "55", "4"])).unwrap_err(),
        ParseError::MissingField
    );
    assert_eq!(
        Transaction::from_string_record(&fields(&["ten", "55", "4", "d"])).unwrap_err(),
        ParseError::InvalidNumber
    );
    assert_eq!(
        Transaction::from_string_record(&fields(&["0", "55", "4", "d"])).unwrap_err(),
        ParseError::InvalidMovieId
    );
    assert_eq!(
        Transaction::from_string_record(&fields(&["10", "fiftyfive", "4", "d"])).unwrap_err(),
        ParseError::InvalidNumber
    );
    // An unparsable rating marks the transaction as unrated instead.
    let t = Transaction::from_string_record(&fields(&["10", "55", "bad", "d"])).unwrap();
    assert_eq!(t.rating, 0);
}

#[test]
fn tables_parse_in_order_and_stop_at_first_error() {
    let good = vec![
        fields(&["1", "7", "5", "a"]),
        fields(&["2", "8", "4", "b"]),
    ];
    let ts = Transaction::from_records(&good).unwrap();
    assert_eq!(ts.len(), 2);
    assert_eq!(ts[0].movie_id, 0);
    assert_eq!(ts[1].customer_id, 8);

    let bad = vec![
        fields(&["1", "7", "5", "a"]),
        fields(&["0", "8", "4", "b"]),
        fields(&["nan", "9", "3", "c"]),
    ];
    assert_eq!(
        Transaction::from_records(&bad).unwrap_err(),
        ParseError::InvalidMovieId
    );

    let movies = vec![fields(&["1", "1999", "T"]), fields(&["2", "2001", "U"])];
    let ms = Movie::from_records(&movies).unwrap();
    assert_eq!(ms.len(), 2);
    assert_eq!(ms[1].movie_id, 1);
    let bad_movies = vec![fields(&["1", "1999", "T"]), fields(&["2"])];
    assert_eq!(
        Movie::from_records(&bad_movies).unwrap_err(),
        ParseError::MissingField
    );
}
