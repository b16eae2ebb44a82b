//! Rendering predicted ratings as the text a caller writes to a
//! model-named output file: one decimal value per line.

use vstd::prelude::*;

verus! {

/// The character of a single decimal digit.
pub open spec fn digit_char(d: int) -> char {
    if d == 0 {
        '0'
    } else if d == 1 {
        '1'
    } else if d == 2 {
        '2'
    } else if d == 3 {
        '3'
    } else if d == 4 {
        '4'
    } else if d == 5 {
        '5'
    } else if d == 6 {
        '6'
    } else if d == 7 {
        '7'
    } else if d == 8 {
        '8'
    } else {
        '9'
    }
}

/// The decimal representation of a nonnegative number, without leading
/// zeros (a plain `"0"` for zero).
pub open spec fn dec_rep(n: int) -> Seq<char>
    decreases n,
{
    if n < 10 {
        seq![digit_char(n)]
    } else {
        dec_rep(n / 10) + seq![digit_char(n % 10)]
    }
}

/// The dump text of a rating list: each value's decimal representation
/// followed by a line break.
pub open spec fn ratings_text(rs: Seq<u8>) -> Seq<char>
    decreases rs.len(),
{
    if rs.len() == 0 {
        Seq::empty()
    } else {
        ratings_text(rs.drop_last()) + dec_rep(rs.last() as int) + seq!['\n']
    }
}

/// A value that can render itself as the text of an output file. The
/// caller owns the file handling; this only fixes the bytes.
pub trait DumpToFile {
    /// The text the value dumps to.
    spec fn dump_text(&self) -> Seq<char>;

    /// Render the value as its dump text.
    fn dump_to_file(&self) -> (s: String)
        ensures
            s@ == self.dump_text(),
    ;
}

/// The string of one decimal digit.
fn digit_str(d: u8) -> (s: &'static str)
    requires
        d < 10,
    ensures
        s@ == seq![digit_char(d as int)],
{
    proof {
        reveal_strlit("0");
        reveal_strlit("1");
        reveal_strlit("2");
        reveal_strlit("3");
        reveal_strlit("4");
        reveal_strlit("5");
        reveal_strlit("6");
        reveal_strlit("7");
        reveal_strlit("8");
        reveal_strlit("9");
    }
    let s = match d {
        0 => "0",
        1 => "1",
        2 => "2",
        3 => "3",
        4 => "4",
        5 => "5",
        6 => "6",
        7 => "7",
        8 => "8",
        _ => "9",
    };
    proof {
        assert(s@ =~= seq![digit_char(d as int)]);
    }
    s
}

/// The decimal representation of one byte.
pub fn u8_to_decimal(v: u8) -> (s: String)
    ensures
        s@ == dec_rep(v as int),
{
    let mut s = String::new();
    if v >= 100 {
        s.append(digit_str(v / 100));
        s.append(digit_str((v / 10) % 10));
        s.append(digit_str(v % 10));
        proof {
            assert(v as int / 10 / 10 == v as int / 100) by (nonlinear_arith);
            assert(10 <= v as int / 10 && v as int / 10 < 100) by (nonlinear_arith)
                requires
                    100 <= v as int <= 255,
            ;
            assert(dec_rep(v as int / 100) == seq![digit_char(v as int / 100)]);
            assert(dec_rep(v as int / 10) == dec_rep(v as int / 10 / 10) + seq![
                digit_char(v as int / 10 % 10),
            ]);
            assert(dec_rep(v as int) == dec_rep(v as int / 10) + seq![digit_char(v as int % 10)]);
            assert(s@ =~= dec_rep(v as int));
        }
    } else if v >= 10 {
        s.append(digit_str(v / 10));
        s.append(digit_str(v % 10));
        proof {
            assert(1 <= v as int / 10 && v as int / 10 < 10) by (nonlinear_arith)
                requires
                    10 <= v as int && (v as int) < 100,
            ;
            assert(dec_rep(v as int / 10) == seq![digit_char(v as int / 10)]);
            assert(dec_rep(v as int) == dec_rep(v as int / 10) + seq![digit_char(v as int % 10)]);
            assert(s@ =~= dec_rep(v as int));
        }
    } else {
        s.append(digit_str(v));
        proof {
            assert(dec_rep(v as int) == seq![digit_char(v as int)]);
            assert(s@ =~= dec_rep(v as int));
        }
    }
    s
}

impl DumpToFile for Vec<u8> {
    /// One decimal rating per line, in input order.
    open spec fn dump_text(&self) -> Seq<char> {
        ratings_text(self@)
    }

    fn dump_to_file(&self) -> (s: String) {
        let mut s = String::new();
        let n = self.len();
        let mut k: usize = 0;
        proof {
            reveal_strlit("\n");
            assert(s@ =~= ratings_text(self@.take(0)));
        }
        while k < n
            invariant
                n == self@.len(),
                0 <= k <= n,
                s@ == ratings_text(self@.take(k as int)),
            decreases n - k,
        {
            let d = u8_to_decimal(self[k]);
            s.append(d.as_str());
            s.append("\n");
            proof {
                reveal_strlit("\n");
                assert("\n"@ =~= seq!['\n']);
                assert(self@.take(k + 1).drop_last() =~= self@.take(k as int));
                assert(self@.take(k + 1).last() == self@[k as int]);
            }
            k = k + 1;
        }
        proof {
            assert(self@.take(n as int) =~= self@);
        }
        s
    }
}

} // verus!
