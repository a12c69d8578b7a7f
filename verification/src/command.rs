//! The one operation offered to callers: a number as text in, a sentence
//! about its primality out.

use vstd::prelude::*;
use vstd::string::*;
use crate::decimal::{
    decimal_digits, decimal_string, lemma_parse_of_decimal_digits, parse_u64, parse_u64_spec,
};
use crate::prime::{is_prime, is_prime_number};

verus! {

/// The sentence for a candidate that was read: its decimal numeral,
/// followed by the verdict.
pub open spec fn verdict_text(n: u64, prime: bool) -> Seq<char> {
    if prime {
        decimal_digits(n as nat) + " is prime ✅"@
    } else {
        decimal_digits(n as nat) + " is not prime ❌"@
    }
}

/// The sentence for a text that is no numeral of a 64-bit value: the text
/// itself in single quotes, followed by the reason.
pub open spec fn rejection_text(input: Seq<char>) -> Seq<char> {
    "'"@ + input + "' is not a valid positive integer."@
}

/// The answer to a query: the verdict on the number that the text denotes,
/// or the rejection of a text that denotes none.
pub open spec fn answer_text(input: Seq<char>) -> Seq<char> {
    match parse_u64_spec(input) {
        Some(n) => verdict_text(n, is_prime_number(n as nat)),
        None => rejection_text(input),
    }
}

/// A query written as the plain decimal numeral of `n` is answered with the
/// verdict on `n`.
pub proof fn lemma_answer_to_numeral(n: u64)
    ensures
        answer_text(decimal_digits(n as nat)) == verdict_text(n, is_prime_number(n as nat)),
{
    lemma_parse_of_decimal_digits(n);
}

/// Writes the sentence that reports `prime` as the verdict on `n`.
pub fn verdict_message(n: u64, prime: bool) -> (r: String)
    ensures
        r@ == verdict_text(n, prime),
{
    let mut out = decimal_string(n);
    if prime {
        out.append(" is prime ✅");
    } else {
        out.append(" is not prime ❌");
    }
    out
}

/// Writes the sentence that rejects `input`.
pub fn rejection_message(input: &str) -> (r: String)
    ensures
        r@ == rejection_text(input@),
{
    let mut out = String::new();
    out.append("'");
    out.append(input);
    out.append("' is not a valid positive integer.");
    out
}

/// Answers whether the number written in `number_to_check` is prime.
///
/// A text that is not the decimal numeral of a 64-bit unsigned integer is
/// rejected with a sentence that quotes it; the primality test is then not
/// run.
pub fn check_prime(number_to_check: String) -> (r: String)
    ensures
        r@ == answer_text(number_to_check@),
{
    match parse_u64(number_to_check.as_str()) {
        Some(num) => verdict_message(num, is_prime(num)),
        None => rejection_message(number_to_check.as_str()),
    }
}

} // verus!
