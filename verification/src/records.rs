//! Parsing of raw tabular records into typed [`Movie`] and
//! [`Transaction`] values.
//!
//! A record is a sequence of text fields in fixed column order:
//! `(movie id, customer id, rating, date)` for transactions and
//! `(movie id, year, title)` for movies. Identifiers are 1-based in
//! the raw data and shifted to 0-based here; a rating or year that
//! does not parse falls back to `0`; a malformed identifier is a fatal
//! input error, reported as a [`ParseError`] and never as a partial
//! result.

use vstd::prelude::*;

use crate::data::Movie;
use crate::data::Transaction;

verus! {

/// Why a record was rejected: a column is missing, a numeric field is
/// not a number (or does not fit), or a movie identifier is `0` where
/// the raw data is 1-based.
#[derive(Clone, Copy, Debug, PartialEq, Eq, Structural)]
pub enum ParseError {
    MissingField,
    InvalidNumber,
    InvalidMovieId,
}

/// Whether `c` is a decimal digit.
pub open spec fn is_dec_digit(c: char) -> bool {
    48 <= c as u32 <= 57
}

/// The value of a digit string, most significant digit first.
pub open spec fn dec_digits_value(s: Seq<char>) -> int
    decreases s.len(),
{
    if s.len() == 0 {
        0
    } else {
        dec_digits_value(s.drop_last()) * 10 + (s.last() as u32 - 48)
    }
}

/// Whether every character of `s` is a decimal digit.
pub open spec fn all_dec_digits(s: Seq<char>) -> bool {
    forall|i: int| 0 <= i < s.len() ==> is_dec_digit(#[trigger] s[i])
}

/// The digits of an unsigned decimal number string: an optional
/// leading plus sign is dropped.
pub open spec fn dec_body(s: Seq<char>) -> Seq<char> {
    if s.len() > 0 && s[0] == '+' {
        s.skip(1)
    } else {
        s
    }
}

/// What `usize` value a string denotes: after the optional plus sign
/// there must be at least one character, all characters must be
/// digits, and the value must fit; otherwise the string denotes
/// nothing.
pub open spec fn usize_dec_parse(s: Seq<char>) -> Option<usize> {
    let body = dec_body(s);
    if body.len() > 0 && all_dec_digits(body) && dec_digits_value(body) <= usize::MAX {
        Some(dec_digits_value(body) as usize)
    } else {
        None
    }
}

/// The rating a text field denotes: its numeric value when it parses
/// and fits in a rating byte, and `0` otherwise.
pub open spec fn rating_or_zero(s: Seq<char>) -> u8 {
    match usize_dec_parse(s) {
        Some(v) => if v <= 255 {
            v as u8
        } else {
            0u8
        },
        None => 0u8,
    }
}

/// The year a text field denotes: its numeric value when it parses and
/// fits in sixteen bits, and `0` otherwise.
pub open spec fn year_or_zero(s: Seq<char>) -> u16 {
    match usize_dec_parse(s) {
        Some(v) => if v <= 65535 {
            v as u16
        } else {
            0u16
        },
        None => 0u16,
    }
}

/// A digit string's value never goes down when the string is extended:
/// each digit multiplies the prefix value by ten and adds a
/// nonnegative amount.
proof fn lemma_dec_prefix_le(s: Seq<char>, t: int)
    requires
        0 <= t <= s.len(),
        all_dec_digits(s),
    ensures
        0 <= dec_digits_value(s.take(t)) <= dec_digits_value(s),
    decreases s.len() - t,
{
    lemma_dec_value_nonneg(s.take(t));
    if t == s.len() {
        assert(s.take(t) =~= s);
    } else {
        assert(s.take(t + 1).drop_last() =~= s.take(t));
        assert(s.take(t + 1).last() == s[t]);
        lemma_dec_value_nonneg(s.take(t));
        assert(dec_digits_value(s.take(t + 1)) >= dec_digits_value(s.take(t)));
        lemma_dec_prefix_le(s, t + 1);
    }
}

/// The value of a digit string is nonnegative.
proof fn lemma_dec_value_nonneg(s: Seq<char>)
    requires
        all_dec_digits(s),
    ensures
        dec_digits_value(s) >= 0,
    decreases s.len(),
{
    if s.len() > 0 {
        assert(all_dec_digits(s.drop_last())) by {
            assert(forall|i: int| 0 <= i < s.len() - 1 ==> s.drop_last()[i] == #[trigger] s[i]);
        }
        lemma_dec_value_nonneg(s.drop_last());
    }
}

/// Parse an unsigned decimal number, exactly accepting the strings
/// that denote a `usize` value: an optional leading plus sign, then
/// one or more digits, with a value that fits.
pub fn parse_usize(s: &str) -> (r: Option<usize>)
    ensures
        r == usize_dec_parse(s@),
{
    let len = s.unicode_len();
    let ghost body = dec_body(s@);
    let mut i: usize = 0;
    if len > 0 {
        let c0 = s.get_char(0);
        if c0 == '+' {
            i = 1;
        }
    }
    proof {
        assert(body =~= s@.skip(i as int));
    }
    if i >= len {
        proof {
            assert(body.len() == 0);
        }
        return None;
    }
    let mut val: usize = 0;
    let mut k: usize = i;
    proof {
        assert(s@.subrange(i as int, k as int) =~= body.take(0));
    }
    while k < len
        invariant
            i <= k <= len,
            len == s@.len(),
            i <= 1,
            body == dec_body(s@),
            body =~= s@.skip(i as int),
            all_dec_digits(body.take(k - i)),
            val == dec_digits_value(body.take(k - i)),
        decreases len - k,
    {
        let c = s.get_char(k);
        proof {
            assert(body[k - i] == s@[k as int]);
        }
        let cu = c as u32;
        if cu < 48 || cu > 57 {
            proof {
                assert(!is_dec_digit(body[k - i]));
            }
            return None;
        }
        let d = (cu - 48) as usize;
        if val > (usize::MAX - d) / 10 {
            proof {
                assert(body.take(k - i + 1).drop_last() =~= body.take(k - i));
                assert(body.take(k - i + 1).last() == body[k - i]);
                assert(dec_digits_value(body.take(k - i + 1)) == val * 10 + d);
                assert(val * 10 + d > usize::MAX) by (nonlinear_arith)
                    requires
                        val > (usize::MAX - d) / 10,
                        0 <= d <= 9,
                ;
                if all_dec_digits(body) {
                    lemma_dec_prefix_le(body, k - i + 1);
                }
            }
            return None;
        }
        proof {
            assert(val * 10 + d <= usize::MAX) by (nonlinear_arith)
                requires
                    val <= (usize::MAX - d) / 10,
                    0 <= d <= 9,
            ;
            assert(body.take(k - i + 1).drop_last() =~= body.take(k - i));
            assert(body.take(k - i + 1).last() == body[k - i]);
        }
        val = val * 10 + d;
        k = k + 1;
    }
    proof {
        assert(body.take(k - i) =~= body);
    }
    Some(val)
}

/// The rating a text field denotes, with `0` for anything unparsable.
pub fn parse_rating(s: &str) -> (r: u8)
    ensures
        r == rating_or_zero(s@),
{
    match parse_usize(s) {
        Some(v) => if v <= 255 {
            v as u8
        } else {
            0
        },
        None => 0,
    }
}

/// The year a text field denotes, with `0` for anything unparsable.
pub fn parse_year(s: &str) -> (r: u16)
    ensures
        r == year_or_zero(s@),
{
    match parse_usize(s) {
        Some(v) => if v <= 65535 {
            v as u16
        } else {
            0
        },
        None => 0,
    }
}

/// Whether a movie record parses: at least three fields, and a movie
/// identifier that is a number of at least `1`.
pub open spec fn movie_fields_ok(fs: Seq<Seq<char>>) -> bool {
    &&& fs.len() >= 3
    &&& (match usize_dec_parse(fs[0]) {
        Some(v) => v >= 1,
        None => false,
    })
}

/// The error a rejected movie record is reported with.
pub open spec fn movie_err(fs: Seq<Seq<char>>) -> ParseError {
    if fs.len() < 3 {
        ParseError::MissingField
    } else {
        match usize_dec_parse(fs[0]) {
            Some(v) => ParseError::InvalidMovieId,
            None => ParseError::InvalidNumber,
        }
    }
}

/// What movie a record denotes: the identifier shifted to 0-based, the
/// year with a `0` fallback, and the title text.
pub open spec fn movie_parsed(fs: Seq<Seq<char>>, m: Movie) -> bool {
    &&& (match usize_dec_parse(fs[0]) {
        Some(v) => m.movie_id + 1 == v,
        None => false,
    })
    &&& m.year_produced == year_or_zero(fs[1])
    &&& m.title@ == fs[2]
}

/// Whether a transaction record parses: at least four fields, a movie
/// identifier that is a number of at least `1`, and a customer
/// identifier that is a number.
pub open spec fn txn_fields_ok(fs: Seq<Seq<char>>) -> bool {
    &&& fs.len() >= 4
    &&& (match usize_dec_parse(fs[0]) {
        Some(v) => v >= 1,
        None => false,
    })
    &&& (usize_dec_parse(fs[1]) is Some)
}

/// The error a rejected transaction record is reported with: a missing
/// column first, then the movie identifier, then the customer
/// identifier.
pub open spec fn txn_err(fs: Seq<Seq<char>>) -> ParseError {
    if fs.len() < 4 {
        ParseError::MissingField
    } else {
        match usize_dec_parse(fs[0]) {
            Some(v) => if v == 0 {
                ParseError::InvalidMovieId
            } else {
                ParseError::InvalidNumber
            },
            None => ParseError::InvalidNumber,
        }
    }
}

/// What transaction a record denotes: the movie identifier shifted to
/// 0-based, the customer identifier as is, the rating with a `0`
/// fallback, and the date text.
pub open spec fn txn_parsed(fs: Seq<Seq<char>>, t: Transaction) -> bool {
    &&& (match usize_dec_parse(fs[0]) {
        Some(v) => t.movie_id + 1 == v,
        None => false,
    })
    &&& (match usize_dec_parse(fs[1]) {
        Some(c) => t.customer_id == c,
        None => false,
    })
    &&& t.rating == rating_or_zero(fs[2])
    &&& t.date@ == fs[3]
}

impl Movie {
    /// Parse one movie record, given as its text fields in column
    /// order `(movie id, year, title)`.
    pub fn from_string_record(fields: &Vec<String>) -> (r: Result<Movie, ParseError>)
        ensures
            (match r {
                Ok(m) => movie_fields_ok(fields.deep_view()) && movie_parsed(
                    fields.deep_view(),
                    m,
                ),
                Err(e) => !movie_fields_ok(fields.deep_view()) && e == movie_err(
                    fields.deep_view(),
                ),
            }),
    {
        let ghost fs = fields.deep_view();
        if fields.len() < 3 {
            return Err(ParseError::MissingField);
        }
        proof {
            assert(fs[0] == fields@[0]@);
            assert(fs[1] == fields@[1]@);
            assert(fs[2] == fields@[2]@);
        }
        let id = match parse_usize(fields[0].as_str()) {
            Some(v) => v,
            None => {
                return Err(ParseError::InvalidNumber);
            },
        };
        if id == 0 {
            return Err(ParseError::InvalidMovieId);
        }
        let year = parse_year(fields[1].as_str());
        Ok(Movie { movie_id: id - 1, year_produced: year, title: fields[2].clone() })
    }
}

impl Transaction {
    /// Parse one transaction record, given as its text fields in
    /// column order `(movie id, customer id, rating, date)`.
    pub fn from_string_record(fields: &Vec<String>) -> (r: Result<Transaction, ParseError>)
        ensures
            (match r {
                Ok(t) => txn_fields_ok(fields.deep_view()) && txn_parsed(fields.deep_view(), t),
                Err(e) => !txn_fields_ok(fields.deep_view()) && e == txn_err(fields.deep_view()),
            }),
    {
        let ghost fs = fields.deep_view();
        if fields.len() < 4 {
            return Err(ParseError::MissingField);
        }
        proof {
            assert(fs[0] == fields@[0]@);
            assert(fs[1] == fields@[1]@);
            assert(fs[2] == fields@[2]@);
            assert(fs[3] == fields@[3]@);
        }
        let movie_id = match parse_usize(fields[0].as_str()) {
            Some(v) => v,
            None => {
                return Err(ParseError::InvalidNumber);
            },
        };
        if movie_id == 0 {
            return Err(ParseError::InvalidMovieId);
        }
        let customer_id = match parse_usize(fields[1].as_str()) {
            Some(v) => v,
            None => {
                return Err(ParseError::InvalidNumber);
            },
        };
        let rating = parse_rating(fields[2].as_str());
        Ok(
            Transaction {
                movie_id: movie_id - 1,
                customer_id,
                rating,
                date: fields[3].clone(),
            },
        )
    }
}


impl Movie {
    /// Parse a whole table of movie records, in order, stopping at the
    /// first malformed record: either every record parses and the
    /// result lists them all, or the error of the first bad record is
    /// returned and no partial list.
    pub fn from_records(records: &Vec<Vec<String>>) -> (r: Result<Vec<Movie>, ParseError>)
        ensures
            (match r {
                Ok(v) => v@.len() == records@.len() && forall|i: int|
                    0 <= i < records@.len() ==> movie_fields_ok(
                        #[trigger] records.deep_view()[i],
                    ) && movie_parsed(records.deep_view()[i], v@[i]),
                Err(e) => exists|i: int|
                    0 <= i < records@.len() && !movie_fields_ok(#[trigger] records.deep_view()[i])
                        && e == movie_err(records.deep_view()[i]) && (forall|j: int|
                        0 <= j < i ==> movie_fields_ok(#[trigger] records.deep_view()[j])),
            }),
    {
        let mut out: Vec<Movie> = Vec::new();
        let n = records.len();
        let mut k: usize = 0;
        while k < n
            invariant
                n == records@.len(),
                0 <= k <= n,
                out@.len() == k,
                forall|i: int|
                    0 <= i < k ==> movie_fields_ok(#[trigger] records.deep_view()[i])
                        && movie_parsed(records.deep_view()[i], out@[i]),
            decreases n - k,
        {
            proof {
                assert(records.deep_view()[k as int] == records@[k as int].deep_view());
            }
            match Movie::from_string_record(&records[k]) {
                Ok(m) => {
                    out.push(m);
                },
                Err(e) => {
                    return Err(e);
                },
            }
            k = k + 1;
        }
        Ok(out)
    }
}

impl Transaction {
    /// Parse a whole table of transaction records, in order, stopping
    /// at the first malformed record: either every record parses and
    /// the result lists them all, or the error of the first bad record
    /// is returned and no partial list.
    pub fn from_records(records: &Vec<Vec<String>>) -> (r: Result<Vec<Transaction>, ParseError>)
        ensures
            (match r {
                Ok(v) => v@.len() == records@.len() && forall|i: int|
                    0 <= i < records@.len() ==> txn_fields_ok(#[trigger] records.deep_view()[i])
                        && txn_parsed(records.deep_view()[i], v@[i]),
                Err(e) => exists|i: int|
                    0 <= i < records@.len() && !txn_fields_ok(#[trigger] records.deep_view()[i])
                        && e == txn_err(records.deep_view()[i]) && (forall|j: int|
                        0 <= j < i ==> txn_fields_ok(#[trigger] records.deep_view()[j])),
            }),
    {
        let mut out: Vec<Transaction> = Vec::new();
        let n = records.len();
        let mut k: usize = 0;
        while k < n
            invariant
                n == records@.len(),
                0 <= k <= n,
                out@.len() == k,
                forall|i: int|
                    0 <= i < k ==> txn_fields_ok(#[trigger] records.deep_view()[i]) && txn_parsed(
                        records.deep_view()[i],
                        out@[i],
                    ),
            decreases n - k,
        {
            proof {
                assert(records.deep_view()[k as int] == records@[k as int].deep_view());
            }
            match Transaction::from_string_record(&records[k]) {
                Ok(t) => {
                    out.push(t);
                },
                Err(e) => {
                    return Err(e);
                },
            }
            k = k + 1;
        }
        Ok(out)
    }
}

} // verus!
