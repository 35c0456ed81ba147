//! Numbers and matrices written down as strings.

use crate::math::mat_zq::MatZq;
use crate::math::model::{is_proper, width};
use crate::value::Encode;
use vstd::prelude::*;
use vstd::string::StringExecFns;

verus! {

/// The character of the decimal digit `d`.
pub open spec fn digit_char(d: int) -> char {
    if d == 0 {
        '0'
    } else if d == 1 {
        '1'
    } else if d == 2 {
        '2'
    } else if d == 3 {
        '3'
    } else if d == 4 {
        '4'
    } else if d == 5 {
        '5'
    } else if d == 6 {
        '6'
    } else if d == 7 {
        '7'
    } else if d == 8 {
        '8'
    } else {
        '9'
    }
}

/// The decimal digits of `n`, without leading zeros.
pub open spec fn decimal_text(n: nat) -> Seq<char>
    decreases n,
{
    if n < 10 {
        seq![digit_char(n as int)]
    } else {
        decimal_text(n / 10).push(digit_char((n % 10) as int))
    }
}

/// The first `count` entries of `row`, separated by a comma and a space.
pub open spec fn entries_text(row: Seq<int>, count: int) -> Seq<char>
    decreases count,
{
    if count <= 0 {
        Seq::empty()
    } else if count == 1 {
        decimal_text(row[0] as nat)
    } else {
        entries_text(row, count - 1) + seq![',', ' '] + decimal_text(row[count - 1] as nat)
    }
}

/// The first `count` rows of `m`, each in square brackets, separated by commas.
pub open spec fn rows_text(m: Seq<Seq<int>>, count: int) -> Seq<char>
    decreases count,
{
    if count <= 0 {
        Seq::empty()
    } else if count == 1 {
        seq!['['] + entries_text(m[0], m[0].len() as int) + seq![']']
    } else {
        rows_text(m, count - 1) + seq![',', '['] + entries_text(
            m[count - 1],
            m[count - 1].len() as int,
        ) + seq![']']
    }
}

/// A matrix of residues written down: its rows in square brackets, then the
/// modulus, as in `[[1, 2],[3, 4]] mod 7`.
pub open spec fn residues_text(q: int, m: Seq<Seq<int>>) -> Seq<char> {
    seq!['['] + rows_text(m, m.len() as int) + seq![']', ' ', 'm', 'o', 'd', ' '] + decimal_text(
        q as nat,
    )
}

/// The decimal digit `d` as a string.
fn digit_string(d: u64) -> (out: &'static str)
    requires
        d < 10,
    ensures
        out@ == seq![digit_char(d as int)],
{
    proof {
        reveal_strlit("0");
        reveal_strlit("1");
        reveal_strlit("2");
        reveal_strlit("3");
        reveal_strlit("4");
        reveal_strlit("5");
        reveal_strlit("6");
        reveal_strlit("7");
        reveal_strlit("8");
        reveal_strlit("9");
    }
    let out = if d == 0 {
        "0"
    } else if d == 1 {
        "1"
    } else if d == 2 {
        "2"
    } else if d == 3 {
        "3"
    } else if d == 4 {
        "4"
    } else if d == 5 {
        "5"
    } else if d == 6 {
        "6"
    } else if d == 7 {
        "7"
    } else if d == 8 {
        "8"
    } else {
        "9"
    };
    out
}

/// Appends the decimal digits of `n` to `text`.
pub fn append_decimal(text: String, n: u64) -> (out: String)
    ensures
        out@ == text@ + decimal_text(n as nat),
    decreases n,
{
    if n < 10 {
        text.concat(digit_string(n))
    } else {
        let out = append_decimal(text, n / 10).concat(digit_string(n % 10));
        out
    }
}

impl Encode for MatZq {
    /// The rows in square brackets, then the modulus.
    open spec fn text(&self) -> Seq<char> {
        residues_text(self.q(), self@)
    }

    fn encode(&self) -> (out: String) {
        proof {
            reveal_strlit("[");
            reveal_strlit("]");
            reveal_strlit(",[");
            reveal_strlit("] mod ");
        }
        let rows: usize = self.num_rows();
        let cols: usize = self.num_cols();
        let mut out: String = String::from_str("[");
        let ghost m = self@;
        let mut i: usize = 0;
        while i < rows
            invariant
                i <= rows,
                m == self@,
                rows == m.len(),
                cols == width(m),
                is_proper(m),
                out@ == seq!['['] + rows_text(m, i as int),
            decreases rows - i,
        {
            out = out.concat(if i == 0 {
                "["
            } else {
                ",["
            });
            let ghost opened = out@;
            proof {
                reveal_strlit("[");
                reveal_strlit(",[");
                reveal_strlit("]");
            }
            let mut j: usize = 0;
            while j < cols
                invariant
                    j <= cols,
                    i < rows,
                    m == self@,
                    rows == m.len(),
                    cols == width(m),
                    is_proper(m),
                    out@ == opened + entries_text(m[i as int], j as int),
                decreases cols - j,
            {
                if j > 0 {
                    out = out.concat(", ");
                    proof {
                        reveal_strlit(", ");
                    }
                }
                out = append_decimal(out, self.get(i, j));
                j += 1;
            }
            out = out.concat("]");
            i += 1;
        }
        out = out.concat("] mod ");
        out = append_decimal(out, self.modulus());
        out
    }
}

} // verus!
