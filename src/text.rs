//! The texts that jobs and results carry.

use vstd::prelude::*;
use vstd::string::*;

verus! {

/// The character of a decimal digit.
pub open spec fn digit_char(d: nat) -> char {
    seq!['0', '1', '2', '3', '4', '5', '6', '7', '8', '9'][d as int]
}

/// The decimal writing of `n`, most significant digit first, with no
/// leading zeros.
pub open spec fn decimal(n: nat) -> Seq<char>
    decreases n,
{
    if n < 10 {
        seq![digit_char(n)]
    } else {
        decimal(n / 10).push(digit_char(n % 10))
    }
}

/// The payload of the job numbered `i`: `Job #<i> data`.
pub open spec fn job_text(i: nat) -> Seq<char> {
    "Job #"@ + decimal(i) + " data"@
}

/// The record of worker `id` completing a job with payload `data`:
/// `Worker <id> completed job with data '<data>'`.
pub open spec fn completion_line(id: nat, data: Seq<char>) -> Seq<char> {
    "Worker "@ + decimal(id) + " completed job with data '"@ + data + "'"@
}

fn digit_str(d: usize) -> (r: &'static str)
    requires
        d < 10,
    ensures
        r@ == seq![digit_char(d as nat)],
{
    proof {
        reveal_strlit("0");
        reveal_strlit("1");
        reveal_strlit("2");
        reveal_strlit("3");
        reveal_strlit("4");
        reveal_strlit("5");
        reveal_strlit("6");
        reveal_strlit("7");
        reveal_strlit("8");
        reveal_strlit("9");
    }
    match d {
        0 => "0",
        1 => "1",
        2 => "2",
        3 => "3",
        4 => "4",
        5 => "5",
        6 => "6",
        7 => "7",
        8 => "8",
        _ => "9",
    }
}

/// Writes `n` in decimal.
pub fn decimal_string(n: usize) -> (r: String)
    ensures
        r@ == decimal(n as nat),
    decreases n,
{
    if n < 10 {
        String::from_str(digit_str(n))
    } else {
        let mut s = decimal_string(n / 10);
        s.append(digit_str(n % 10));
        s
    }
}

/// The payload of the job numbered `i`.
pub fn job_data(i: usize) -> (r: String)
    ensures
        r@ == job_text(i as nat),
{
    let mut s = String::from_str("Job #");
    let digits = decimal_string(i);
    s.append(digits.as_str());
    s.append(" data");
    proof {
        reveal_strlit("Job #");
        reveal_strlit(" data");
    }
    s
}

/// The record of worker `id` completing a job with payload `data`.
pub fn completion_text(id: usize, data: &str) -> (r: String)
    ensures
        r@ == completion_line(id as nat, data@),
{
    let mut s = String::from_str("Worker ");
    let digits = decimal_string(id);
    s.append(digits.as_str());
    s.append(" completed job with data '");
    s.append(data);
    s.append("'");
    proof {
        reveal_strlit("Worker ");
        reveal_strlit(" completed job with data '");
        reveal_strlit("'");
    }
    s
}

} // verus!
