//! The output table's column naming.
//!
//! One leading `time_sec` column, then per channel, in channel order, one
//! column per scalar sub-feature, named `chan{N}_{column}` with 1-based
//! channel numbers.

use vstd::prelude::*;
use vstd::arithmetic::div_mod::{
    lemma_fundamental_div_mod_converse_div, lemma_fundamental_div_mod_converse_mod,
};

verus! {

/// The character of one decimal digit.
pub open spec fn spec_digit_char(d: nat) -> char {
    if d == 0 {
        '0'
    } else if d == 1 {
        '1'
    } else if d == 2 {
        '2'
    } else if d == 3 {
        '3'
    } else if d == 4 {
        '4'
    } else if d == 5 {
        '5'
    } else if d == 6 {
        '6'
    } else if d == 7 {
        '7'
    } else if d == 8 {
        '8'
    } else {
        '9'
    }
}

/// The decimal digits of `n`, most significant first.
pub open spec fn spec_decimal_digits(n: nat) -> Seq<char>
    decreases n,
{
    if n < 10 {
        seq![spec_digit_char(n)]
    } else {
        spec_decimal_digits(n / 10) + seq![spec_digit_char(n % 10)]
    }
}

/// The header of one channel's column for one scalar sub-feature.
pub open spec fn spec_header(chan_1based: nat, column: Seq<char>) -> Seq<char> {
    "chan"@ + spec_decimal_digits(chan_1based) + "_"@ + column
}

/// Relies on `format!` with std's `Display` for `usize`, which renders the
/// number as its decimal digits, most significant first.
#[verifier::external_body]
fn chan_header(chan_1based: usize, column: &str) -> (r: String)
    ensures
        r@ == spec_header(chan_1based as nat, column@),
{
    format!("chan{}_{}", chan_1based, column)
}

/// Builds the header row: `time_sec`, then `chan{N}_{column}` for every
/// channel and every sub-feature column, channels outermost.
pub fn feature_headers(channel_count: usize, columns: &Vec<String>) -> (r: Vec<String>)
    requires
        columns@.len() > 0,
    ensures
        r@.len() == 1 + channel_count * columns@.len(),
        r@[0]@ == "time_sec"@,
        forall|j: int|
            1 <= j < r@.len() ==> (#[trigger] r@[j])@ == spec_header(
                ((j - 1) / (columns@.len() as int) + 1) as nat,
                columns@[(j - 1) % (columns@.len() as int)]@,
            ),
{
    let arity = columns.len();
    let time_col: &str = "time_sec";
    let mut headers: Vec<String> = Vec::new();
    headers.push(time_col.to_owned());
    let mut c: usize = 0;
    proof {
        assert(0 * arity == 0) by (nonlinear_arith);
    }
    while c < channel_count
        invariant
            c <= channel_count,
            arity == columns@.len(),
            arity > 0,
            headers@.len() == 1 + c * arity,
            headers@[0]@ == "time_sec"@,
            forall|j: int|
                1 <= j < headers@.len() ==> (#[trigger] headers@[j])@ == spec_header(
                    ((j - 1) / (arity as int) + 1) as nat,
                    columns@[(j - 1) % (arity as int)]@,
                ),
        decreases channel_count - c,
    {
        let ghost base = headers@.len() as int;
        proof {
            assert((c + 1) * arity == c * arity + arity) by (nonlinear_arith);
        }
        let mut t: usize = 0;
        while t < arity
            invariant
                t <= arity,
                arity == columns@.len(),
                arity > 0,
                c < channel_count,
                base == 1 + c * arity,
                headers@.len() == base + t,
                headers@[0]@ == "time_sec"@,
                forall|j: int|
                    1 <= j < headers@.len() ==> (#[trigger] headers@[j])@ == spec_header(
                        ((j - 1) / (arity as int) + 1) as nat,
                        columns@[(j - 1) % (arity as int)]@,
                    ),
            decreases arity - t,
        {
            proof {
                lemma_fundamental_div_mod_converse_div(
                    c as int * arity + t as int,
                    arity as int,
                    c as int,
                    t as int,
                );
                lemma_fundamental_div_mod_converse_mod(
                    c as int * arity + t as int,
                    arity as int,
                    c as int,
                    t as int,
                );
            }
            headers.push(chan_header(c + 1, columns[t].as_str()));
            t = t + 1;
        }
        c = c + 1;
    }
    headers
}

} // verus!
