//! The caller's source of randomness and the draws that generators make.
//!
//! Nothing is known of a drawn value but the range it was drawn from, so every
//! generator is proved correct for whatever values the source hands out.

use vstd::prelude::*;
use rand::rngs::StdRng;
use rand::Rng;
use crate::text::{is_digit, is_upper, is_alnum, digits_ok};

verus! {

/// The standard generator of the `rand` crate. Its state is opaque here.
#[verifier::external_type_specification]
#[verifier::external_body]
pub struct ExStdRng(rand::rngs::StdRng);

/// Calls `Rng::gen_range` of the `rand` crate on the inclusive range
/// `low..=high`. Claimed and not proved: for a range that is not empty the
/// call returns, and what it returns lies in the range.
#[verifier::external_body]
pub(crate) fn draw_in(rng: &mut StdRng, low: usize, high: usize) -> (r: usize)
    requires
        low <= high,
    ensures
        low <= r <= high,
{
    rng.gen_range(low..=high)
}

/// Calls `Rng::gen_ratio` of the `rand` crate, which is true with chance
/// `numerator / denominator`. Claimed and not proved: for a ratio between zero
/// and one the call returns; a ratio of one gives `true` and a ratio of zero
/// gives `false`.
#[verifier::external_body]
pub(crate) fn draw_ratio(rng: &mut StdRng, numerator: u32, denominator: u32) -> (r: bool)
    requires
        denominator > 0,
        numerator <= denominator,
    ensures
        numerator == denominator ==> r,
        numerator == 0 ==> !r,
{
    rng.gen_ratio(numerator, denominator)
}

/// Draws one decimal digit value.
pub fn draw_digit(rng: &mut StdRng) -> (d: u8)
    ensures
        d < 10,
{
    draw_in(rng, 0, 9) as u8
}

/// Draws one capital letter.
pub fn draw_upper(rng: &mut StdRng) -> (c: char)
    ensures
        is_upper(c),
{
    (draw_in(rng, 65, 90) as u8) as char
}

/// Draws one character that is a digit three times out of five and a capital
/// letter otherwise.
pub fn draw_alnum(rng: &mut StdRng) -> (c: char)
    ensures
        is_digit(c) || is_upper(c),
        is_alnum(c),
{
    if draw_ratio(rng, 3, 5) {
        (draw_digit(rng) + 48) as char
    } else {
        draw_upper(rng)
    }
}

/// Draws `n` decimal digit values.
pub fn draw_digits(rng: &mut StdRng, n: usize) -> (out: Vec<u8>)
    ensures
        out@.len() == n,
        digits_ok(out@),
{
    let mut out: Vec<u8> = Vec::new();
    let mut i: usize = 0;
    while i < n
        invariant
            i <= n,
            out@.len() == i,
            digits_ok(out@),
        decreases n - i,
    {
        let d = draw_digit(rng);
        out.push(d);
        i += 1;
    }
    out
}

/// Draws `n` capital letters.
pub fn draw_uppers(rng: &mut StdRng, n: usize) -> (out: Vec<char>)
    ensures
        out@.len() == n,
        forall|i: int| 0 <= i < n ==> is_upper(#[trigger] out@[i]),
{
    let mut out: Vec<char> = Vec::new();
    let mut i: usize = 0;
    while i < n
        invariant
            i <= n,
            out@.len() == i,
            forall|k: int| 0 <= k < i ==> is_upper(#[trigger] out@[k]),
        decreases n - i,
    {
        let c = draw_upper(rng);
        out.push(c);
        i += 1;
    }
    out
}

/// Draws a place in a list of `len` items.
pub fn draw_index(rng: &mut StdRng, len: usize) -> (i: usize)
    requires
        len > 0,
    ensures
        i < len,
{
    draw_in(rng, 0, len - 1)
}

} // verus!
