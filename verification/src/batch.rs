use vstd::prelude::*;

use vstd::string::StringExecFns;

use crate::compare::Comparison;

verus! {

/// Whether any page of a document verdict list came out different: only
/// such documents get an annotated copy written.
pub fn has_difference(comparisons: &Vec<Comparison>) -> (r: bool)
    ensures
        r == exists|i: int|
            0 <= i < comparisons@.len() && (#[trigger] comparisons@[i]) is Different,
{
    let mut i: usize = 0;
    while i < comparisons.len()
        invariant
            0 <= i <= comparisons@.len(),
            forall|t: int| 0 <= t < i ==> !((#[trigger] comparisons@[t]) is Different),
        decreases comparisons@.len() - i,
    {
        match &comparisons[i] {
            Comparison::Different(_) => {
                return true;
            },
            Comparison::Identical => {},
        }
        i = i + 1;
    }
    false
}

/// The decimal digit character for one digit value.
pub open spec fn digit_char(d: nat) -> char {
    if d == 0 {
        '0'
    } else if d == 1 {
        '1'
    } else if d == 2 {
        '2'
    } else if d == 3 {
        '3'
    } else if d == 4 {
        '4'
    } else if d == 5 {
        '5'
    } else if d == 6 {
        '6'
    } else if d == 7 {
        '7'
    } else if d == 8 {
        '8'
    } else {
        '9'
    }
}

/// The decimal digits of `n`, most significant first, no leading zeros
/// (a lone zero for zero).
pub open spec fn dec_digits(n: nat) -> Seq<char>
    decreases n,
{
    if n < 10 {
        seq![digit_char(n)]
    } else {
        dec_digits(n / 10).push(digit_char(n % 10))
    }
}

/// The characters of a timestamp, with a leading minus for negative ones.
pub open spec fn timestamp_chars(ts: int) -> Seq<char> {
    if ts < 0 {
        "-"@ + dec_digits((-ts) as nat)
    } else {
        dec_digits(ts as nat)
    }
}

/// The name of the annotated copy of a document: the original file name
/// suffixed with a literal diff marker, the Unix timestamp of the pass,
/// and the document extension.
pub open spec fn diff_name_chars(name: Seq<char>, ts: int) -> Seq<char> {
    name + ".diff."@ + timestamp_chars(ts) + ".pdf"@
}

/// Appends one decimal digit character.
fn append_digit(s: &mut String, d: u64)
    requires
        d < 10,
    ensures
        final(s)@ == old(s)@ + seq![digit_char(d as nat)],
{
    if d == 0 {
        s.append("0");
        proof {
            reveal_strlit("0");
            assert(s@ =~= old(s)@ + seq![digit_char(d as nat)]);
        }
    } else if d == 1 {
        s.append("1");
        proof {
            reveal_strlit("1");
            assert(s@ =~= old(s)@ + seq![digit_char(d as nat)]);
        }
    } else if d == 2 {
        s.append("2");
        proof {
            reveal_strlit("2");
            assert(s@ =~= old(s)@ + seq![digit_char(d as nat)]);
        }
    } else if d == 3 {
        s.append("3");
        proof {
            reveal_strlit("3");
            assert(s@ =~= old(s)@ + seq![digit_char(d as nat)]);
        }
    } else if d == 4 {
        s.append("4");
        proof {
            reveal_strlit("4");
            assert(s@ =~= old(s)@ + seq![digit_char(d as nat)]);
        }
    } else if d == 5 {
        s.append("5");
        proof {
            reveal_strlit("5");
            assert(s@ =~= old(s)@ + seq![digit_char(d as nat)]);
        }
    } else if d == 6 {
        s.append("6");
        proof {
            reveal_strlit("6");
            assert(s@ =~= old(s)@ + seq![digit_char(d as nat)]);
        }
    } else if d == 7 {
        s.append("7");
        proof {
            reveal_strlit("7");
            assert(s@ =~= old(s)@ + seq![digit_char(d as nat)]);
        }
    } else if d == 8 {
        s.append("8");
        proof {
            reveal_strlit("8");
            assert(s@ =~= old(s)@ + seq![digit_char(d as nat)]);
        }
    } else {
        s.append("9");
        proof {
            reveal_strlit("9");
            assert(s@ =~= old(s)@ + seq![digit_char(d as nat)]);
        }
    }
}

/// Appends the decimal rendering of `m`, most significant digit first.
fn append_decimal(s: &mut String, m: u64)
    ensures
        final(s)@ == old(s)@ + dec_digits(m as nat),
    decreases m,
{
    if m < 10 {
        append_digit(s, m);
    } else {
        append_decimal(s, m / 10);
        append_digit(s, m % 10);
    }
}

/// Builds the output file name of one annotated document from the original
/// file name and the Unix timestamp of the pass.
pub fn diff_file_name(file_name: &str, timestamp: i64) -> (r: String)
    ensures
        r@ == diff_name_chars(file_name@, timestamp as int),
{
    let mut r = file_name.to_owned();
    r.append(".diff.");
    if timestamp < 0 {
        r.append("-");
        let mag: u64 = ((-(timestamp + 1)) as u64) + 1;
        append_decimal(&mut r, mag);
    } else {
        append_decimal(&mut r, timestamp as u64);
    }
    r.append(".pdf");
    proof {
        assert(r@ =~= diff_name_chars(file_name@, timestamp as int));
    }
    r
}

/// Relies on chrono::Utc::now().timestamp(): the wall clock as whole
/// seconds since the Unix epoch. The value depends on the moment of the
/// call, so nothing is promised about it.
#[verifier::external_body]
fn current_unix_timestamp() -> i64 {
    chrono::Utc::now().timestamp()
}

/// Builds the output file name of one annotated document, stamped with the
/// wall-clock time of the call: the original name, the diff marker, some
/// timestamp, and the document extension.
pub fn fresh_diff_file_name(file_name: &str) -> (r: String)
    ensures
        exists|ts: int| r@ == diff_name_chars(file_name@, ts),
{
    let ts = current_unix_timestamp();
    let r = diff_file_name(file_name, ts);
    proof {
        assert(r@ == diff_name_chars(file_name@, ts as int));
    }
    r
}

} // verus!
