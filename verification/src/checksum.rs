//! The check-digit algorithms shared by every identifier domain.
//!
//! Each algorithm is given twice: as a spec function that says what the check
//! value is, and as an executable function proved to compute it.

use vstd::prelude::*;
use crate::text::{is_digit, is_upper, is_alnum, all_alnum, digit_value, digits_ok};

verus! {

/// What one digit adds to a Luhn sum: the digit itself, or, where it is
/// doubled, twice the digit with nine taken off if that exceeds nine.
pub open spec fn luhn_term(d: int, doubled: bool) -> int {
    if doubled {
        if 2 * d > 9 {
            2 * d - 9
        } else {
            2 * d
        }
    } else {
        d
    }
}

/// The Luhn sum of a payload: counting from the right, the first, third,
/// fifth, ... digits are doubled.
pub open spec fn luhn_sum(s: Seq<u8>) -> int
    decreases s.len(),
{
    if s.len() == 0 {
        0
    } else {
        luhn_term(s[0] as int, (s.len() - 1) % 2 == 0) + luhn_sum(s.drop_first())
    }
}

/// The Luhn check digit of a payload.
pub open spec fn luhn_digit(s: Seq<u8>) -> int {
    (10 - luhn_sum(s) % 10) % 10
}

/// The Luhn sum of any payload is not negative.
pub proof fn lemma_luhn_sum_nonneg(s: Seq<u8>)
    ensures
        luhn_sum(s) >= 0,
    decreases s.len(),
{
    if s.len() > 0 {
        lemma_luhn_sum_nonneg(s.drop_first());
    }
}

/// Computes the Luhn check digit of `digits`.
pub fn luhn_check_digit(digits: &[u8]) -> (check: u8)
    ensures
        check == luhn_digit(digits@),
        check < 10,
{
    let n = digits.len();
    let mut sum: u32 = 0;
    let mut i: usize = n;
    let mut double = true;
    proof {
        assert(digits@.subrange(n as int, n as int).len() == 0);
    }
    while i > 0
        invariant
            i <= n,
            n == digits.len(),
            sum < 10,
            sum as int == luhn_sum(digits@.subrange(i as int, n as int)) % 10,
            double == ((n - i) % 2 == 0),
        decreases i,
    {
        i -= 1;
        let d: u32 = digits[i] as u32;
        let term: u32 = if double {
            if 2 * d > 9 {
                2 * d - 9
            } else {
                2 * d
            }
        } else {
            d
        };
        proof {
            let tail = digits@.subrange(i as int, n as int);
            assert(tail.drop_first() =~= digits@.subrange(i + 1, n as int));
            assert(tail[0] == digits@[i as int]);
            lemma_luhn_sum_nonneg(tail.drop_first());
            assert(luhn_sum(tail) == term as int + luhn_sum(tail.drop_first()));
        }
        sum = (sum + term) % 10;
        double = !double;
    }
    proof {
        assert(digits@.subrange(0, n as int) =~= digits@);
    }
    ((10 - sum) % 10) as u8
}

/// One step of ISO 7064 MOD 11,10: the accumulator after the digit `d` has
/// been taken in.
pub open spec fn iso7064_step(acc: int, d: int) -> int {
    let s = (d + acc) % 10;
    ((if s == 0 { 10 } else { s }) * 2) % 11
}

/// The ISO 7064 MOD 11,10 accumulator after all of `s`, starting from ten.
pub open spec fn iso7064_acc(s: Seq<u8>) -> int
    decreases s.len(),
{
    if s.len() == 0 {
        10
    } else {
        iso7064_step(iso7064_acc(s.drop_last()), s.last() as int)
    }
}

/// The ISO 7064 MOD 11,10 check digit of a payload.
pub open spec fn iso7064_digit(s: Seq<u8>) -> int {
    (11 - iso7064_acc(s)) % 10
}

/// The accumulator always lies in `1..=10`.
pub proof fn lemma_iso7064_acc_range(s: Seq<u8>)
    ensures
        1 <= iso7064_acc(s) <= 10,
    decreases s.len(),
{
    if s.len() > 0 {
        lemma_iso7064_acc_range(s.drop_last());
    }
}

/// Computes the ISO 7064 MOD 11,10 check digit of `digits`.
pub fn iso7064_mod11_10(digits: &[u8]) -> (check: u8)
    ensures
        check == iso7064_digit(digits@),
        check < 10,
{
    let n = digits.len();
    let mut acc: u32 = 10;
    let mut i: usize = 0;
    proof {
        assert(digits@.subrange(0, 0).len() == 0);
    }
    while i < n
        invariant
            i <= n,
            n == digits.len(),
            1 <= acc <= 10,
            acc as int == iso7064_acc(digits@.subrange(0, i as int)),
        decreases n - i,
    {
        let d: u32 = digits[i] as u32;
        let mut s: u32 = (d + acc) % 10;
        if s == 0 {
            s = 10;
        }
        proof {
            let head = digits@.subrange(0, i + 1);
            assert(head.drop_last() =~= digits@.subrange(0, i as int));
            assert(head.last() == digits@[i as int]);
            lemma_iso7064_acc_range(head);
        }
        acc = (s * 2) % 11;
        i += 1;
    }
    proof {
        assert(digits@.subrange(0, n as int) =~= digits@);
    }
    ((11 - acc) % 10) as u8
}

/// The number that a character stands for in a mod-97 fold: a digit stands
/// for itself, a letter of either case for 10 (`A`) up to 35 (`Z`).
pub open spec fn char_number(c: char) -> int {
    if is_digit(c) {
        digit_value(c)
    } else if is_upper(c) {
        c as int - 55
    } else {
        c as int - 87
    }
}

/// The decimal number written by `s` once every letter has been replaced by
/// the two digits of its number.
pub open spec fn expanded_value(s: Seq<char>) -> int
    decreases s.len(),
{
    if s.len() == 0 {
        0
    } else if is_digit(s.last()) {
        expanded_value(s.drop_last()) * 10 + char_number(s.last())
    } else {
        expanded_value(s.drop_last()) * 100 + char_number(s.last())
    }
}

/// The remainder modulo 97 of the expanded number of `s`.
pub open spec fn mod97(s: Seq<char>) -> int {
    expanded_value(s) % 97
}

/// The expanded number of letters and digits is not negative.
pub proof fn lemma_expanded_nonneg(s: Seq<char>)
    requires
        all_alnum(s),
    ensures
        expanded_value(s) >= 0,
    decreases s.len(),
{
    if s.len() > 0 {
        assert(is_alnum(s.last()));
        assert forall|i: int| 0 <= i < s.drop_last().len() implies is_alnum(
            #[trigger] s.drop_last()[i],
        ) by {
            assert(s.drop_last()[i] == s[i]);
        }
        lemma_expanded_nonneg(s.drop_last());
        assert(expanded_value(s.drop_last()) * 10 >= 0) by (nonlinear_arith)
            requires
                expanded_value(s.drop_last()) >= 0,
        ;
        assert(expanded_value(s.drop_last()) * 100 >= 0) by (nonlinear_arith)
            requires
                expanded_value(s.drop_last()) >= 0,
        ;
    }
}

/// Folds letters and digits into the remainder modulo 97 of their expanded
/// number, one character at a time, never holding more than the remainder.
pub fn mod97_remainder(chars: &[char]) -> (rem: u32)
    requires
        all_alnum(chars@),
    ensures
        rem == mod97(chars@),
        rem < 97,
{
    let n = chars.len();
    let mut rem: u32 = 0;
    let mut i: usize = 0;
    proof {
        assert(chars@.subrange(0, 0).len() == 0);
    }
    while i < n
        invariant
            i <= n,
            n == chars.len(),
            all_alnum(chars@),
            rem < 97,
            rem as int == expanded_value(chars@.subrange(0, i as int)) % 97,
        decreases n - i,
    {
        let c = chars[i];
        proof {
            let head = chars@.subrange(0, i + 1);
            let before = chars@.subrange(0, i as int);
            assert(head.drop_last() =~= before);
            assert(head.last() == c);
            assert(is_alnum(chars@[i as int]));
            let e = expanded_value(before);
            let k = char_number(c);
            assert((e * 10 + k) % 97 == ((e % 97) * 10 + k) % 97) by (nonlinear_arith);
            assert((e * 100 + k) % 97 == ((e % 97) * 100 + k) % 97) by (nonlinear_arith);
        }
        if '0' <= c && c <= '9' {
            rem = (rem * 10 + ((c as u32) - 48)) % 97;
        } else if 'A' <= c && c <= 'Z' {
            rem = (rem * 100 + ((c as u32) - 55)) % 97;
        } else {
            rem = (rem * 100 + ((c as u32) - 87)) % 97;
        }
        i += 1;
    }
    proof {
        assert(chars@.subrange(0, n as int) =~= chars@);
    }
    rem
}

/// The sum of the digits of `d`, each multiplied by the weight at the same
/// place in `w`; digits beyond the weights count for nothing.
pub open spec fn weighted_sum(d: Seq<u8>, w: Seq<u8>) -> int
    decreases d.len(),
{
    if d.len() == 0 {
        0
    } else if d.len() <= w.len() {
        weighted_sum(d.drop_last(), w) + d.last() as int * w[d.len() - 1] as int
    } else {
        weighted_sum(d.drop_last(), w)
    }
}

/// The weights of the United Kingdom VAT scheme, for its seven digits.
pub open spec fn gb_weights() -> Seq<u8> {
    seq![8u8, 7u8, 6u8, 5u8, 4u8, 3u8, 2u8]
}

/// The two-digit check of a United Kingdom VAT number: 97 less the weighted
/// sum of the first seven digits modulo 97, brought into `0..97`.
pub open spec fn gb_check(d: Seq<u8>) -> int {
    weighted_check(d.take(7), gb_weights())
}

/// Computes the check of a United Kingdom VAT number from its first seven
/// digits; further items of `digits` are not read.
pub fn gb_vat_check(digits: &[u8]) -> (check: u8)
    requires
        digits@.len() >= 7,
    ensures
        check == gb_check(digits@),
        check < 97,
{
    let weights: [u8; 7] = [8, 7, 6, 5, 4, 3, 2];
    assert(weights@ =~= gb_weights());
    let head = vstd::slice::slice_subrange(digits, 0, 7);
    assert(head@ =~= digits@.take(7));
    weighted_mod97_check(head, weights.as_slice())
}

/// The number that the digits `d` write in base ten.
pub open spec fn decimal_value(d: Seq<u8>) -> int
    decreases d.len(),
{
    if d.len() == 0 {
        0
    } else {
        decimal_value(d.drop_last()) * 10 + d.last() as int
    }
}

/// The two-digit key of a French VAT number over the company's SIREN number.
pub open spec fn fr_key(siren: int) -> int {
    (12 + 3 * (siren % 97)) % 97
}

/// Computes the key of a French VAT number from the SIREN number.
pub fn fr_vat_key(siren: u64) -> (key: u8)
    ensures
        key == fr_key(siren as int),
        key < 97,
{
    ((12 + 3 * (siren % 97)) % 97) as u8
}

/// The sum of the Spanish company-number scheme: the digits at the first,
/// third, fifth, ... place from the left are doubled as in a Luhn sum.
pub open spec fn es_sum(d: Seq<u8>) -> int
    decreases d.len(),
{
    if d.len() == 0 {
        0
    } else {
        es_sum(d.drop_last()) + luhn_term(d.last() as int, (d.len() - 1) % 2 == 0)
    }
}

/// The check digit of a Spanish company number.
pub open spec fn es_check(d: Seq<u8>) -> int {
    (10 - es_sum(d) % 10) % 10
}

/// The Spanish sum of any digits is not negative.
pub proof fn lemma_es_sum_nonneg(d: Seq<u8>)
    ensures
        es_sum(d) >= 0,
    decreases d.len(),
{
    if d.len() > 0 {
        lemma_es_sum_nonneg(d.drop_last());
    }
}

/// Computes the check digit of a Spanish company number from its digits.
pub fn es_cif_check(digits: &[u8]) -> (check: u8)
    ensures
        check == es_check(digits@),
        check < 10,
{
    let n = digits.len();
    let mut total: u32 = 0;
    let mut i: usize = 0;
    let mut double = true;
    proof {
        assert(digits@.subrange(0, 0).len() == 0);
    }
    while i < n
        invariant
            i <= n,
            n == digits.len(),
            total < 10,
            total as int == es_sum(digits@.subrange(0, i as int)) % 10,
            double == (i % 2 == 0),
        decreases n - i,
    {
        let d: u32 = digits[i] as u32;
        let val: u32 = if double {
            if 2 * d > 9 {
                2 * d - 9
            } else {
                2 * d
            }
        } else {
            d
        };
        proof {
            let head = digits@.subrange(0, i + 1);
            assert(head.drop_last() =~= digits@.subrange(0, i as int));
            assert(head.last() == digits@[i as int]);
            assert(head.len() - 1 == i);
            lemma_es_sum_nonneg(head.drop_last());
            assert(val as int == luhn_term(d as int, double));
            assert(es_sum(head) == es_sum(head.drop_last()) + val as int);
        }
        total = (total + val) % 10;
        double = !double;
        i += 1;
    }
    proof {
        assert(digits@.subrange(0, n as int) =~= digits@);
    }
    ((10 - total) % 10) as u8
}

/// Ten to the power `n`.
pub open spec fn ten_to(n: nat) -> int
    decreases n,
{
    if n == 0 {
        1
    } else {
        10 * ten_to((n - 1) as nat)
    }
}

/// A number of `n` digits is below ten to the power `n`.
pub proof fn lemma_decimal_value_bound(d: Seq<u8>)
    requires
        digits_ok(d),
    ensures
        0 <= decimal_value(d) < ten_to(d.len()),
    decreases d.len(),
{
    if d.len() > 0 {
        assert(digits_ok(d.drop_last())) by {
            assert forall|i: int| 0 <= i < d.drop_last().len() implies #[trigger] d.drop_last()[i]
                < 10 by {
                assert(d.drop_last()[i] == d[i]);
            }
        }
        lemma_decimal_value_bound(d.drop_last());
        assert(d.last() < 10);
    }
}

/// Powers of ten grow with the exponent.
pub proof fn lemma_ten_to_grows(m: nat, n: nat)
    requires
        m <= n,
    ensures
        1 <= ten_to(m) <= ten_to(n),
    decreases n,
{
    if n == 0 {
    } else if m == n {
        lemma_ten_to_grows((m - 1) as nat, (n - 1) as nat);
    } else {
        lemma_ten_to_grows(m, (n - 1) as nat);
    }
}

/// Reads up to eighteen digits as a number in base ten.
pub fn number_of(digits: &[u8]) -> (value: u64)
    requires
        digits_ok(digits@),
        digits@.len() <= 18,
    ensures
        value == decimal_value(digits@),
{
    let n = digits.len();
    let mut value: u64 = 0;
    let mut i: usize = 0;
    proof {
        assert(digits@.subrange(0, 0).len() == 0);
        reveal_with_fuel(ten_to, 19);
        assert(ten_to(18) == 1_000_000_000_000_000_000);
    }
    while i < n
        invariant
            i <= n,
            n == digits.len(),
            n <= 18,
            digits_ok(digits@),
            ten_to(18) == 1_000_000_000_000_000_000,
            value as int == decimal_value(digits@.subrange(0, i as int)),
        decreases n - i,
    {
        proof {
            let head = digits@.subrange(0, i + 1);
            assert(head.drop_last() =~= digits@.subrange(0, i as int));
            assert(head.last() == digits@[i as int]);
            assert(digits_ok(head));
            lemma_decimal_value_bound(head);
            lemma_ten_to_grows(head.len(), 18);
        }
        value = value * 10 + digits[i] as u64;
        i += 1;
    }
    proof {
        assert(digits@.subrange(0, n as int) =~= digits@);
    }
    value
}

/// The two-digit check of a weighted mod-97 scheme: 97 less the weighted
/// sum modulo 97, brought into `0..97`.
pub open spec fn weighted_check(d: Seq<u8>, w: Seq<u8>) -> int {
    (97 - weighted_sum(d, w) % 97) % 97
}

/// A weighted sum is not negative.
pub proof fn lemma_weighted_sum_nonneg(d: Seq<u8>, w: Seq<u8>)
    ensures
        weighted_sum(d, w) >= 0,
    decreases d.len(),
{
    if d.len() > 0 {
        lemma_weighted_sum_nonneg(d.drop_last(), w);
        if d.len() <= w.len() {
            assert(d.last() as int * w[d.len() - 1] as int >= 0) by (nonlinear_arith);
        }
    }
}

/// Computes the check of a weighted mod-97 scheme for any digits and
/// weights.
pub fn weighted_mod97_check(digits: &[u8], weights: &[u8]) -> (check: u8)
    ensures
        check == weighted_check(digits@, weights@),
        check < 97,
{
    let n = digits.len();
    let mut sum: u32 = 0;
    let mut i: usize = 0;
    proof {
        assert(digits@.take(0).len() == 0);
    }
    while i < n
        invariant
            i <= n,
            n == digits.len(),
            sum < 97,
            sum as int == weighted_sum(digits@.take(i as int), weights@) % 97,
        decreases n - i,
    {
        proof {
            let head = digits@.take(i + 1);
            assert(head.drop_last() =~= digits@.take(i as int));
            assert(head.last() == digits@[i as int]);
            assert(head.len() == i + 1);
            lemma_weighted_sum_nonneg(head.drop_last(), weights@);
        }
        if i < weights.len() {
            let digit: u32 = digits[i] as u32;
            let weight: u32 = weights[i] as u32;
            assert(0 <= digit * weight <= 65025) by (nonlinear_arith)
                requires
                    digit <= 255,
                    weight <= 255,
            ;
            proof {
                let before = weighted_sum(digits@.take(i as int), weights@);
                let term = (digit * weight) as int;
                assert((before + term) % 97 == (before % 97 + term) % 97) by (nonlinear_arith)
                    requires
                        before >= 0,
                        term >= 0,
                ;
            }
            sum = (sum + digit * weight) % 97;
        }
        i += 1;
    }
    proof {
        assert(digits@.take(n as int) =~= digits@);
    }
    ((97 - sum) % 97) as u8
}

/// Whether the digit at place `i` of a payload of `len` digits is doubled
/// in its Luhn sum.
pub open spec fn luhn_doubled(len: int, i: int) -> bool {
    (len - 1 - i) % 2 == 0
}

/// Replacing one digit of a payload changes its Luhn sum by the difference
/// of what the two digits add to it.
pub proof fn lemma_luhn_sum_update(p: Seq<u8>, i: int, v: u8)
    requires
        0 <= i < p.len(),
    ensures
        luhn_sum(p.update(i, v)) == luhn_sum(p) - luhn_term(
            p[i] as int,
            luhn_doubled(p.len() as int, i),
        ) + luhn_term(v as int, luhn_doubled(p.len() as int, i)),
    decreases p.len(),
{
    let q = p.update(i, v);
    if i == 0 {
        assert(q.drop_first() =~= p.drop_first());
    } else {
        assert(q.drop_first() =~= p.drop_first().update(i - 1, v));
        assert(p.drop_first()[i - 1] == p[i]);
        lemma_luhn_sum_update(p.drop_first(), i - 1, v);
    }
}

/// The Luhn check digit detects every substitution of one digit by
/// another: a payload in which one digit is replaced has another check
/// digit. (It does not detect every exchange of two neighbours: `09` and
/// `90` add the same to the sum.)
pub proof fn lemma_luhn_detects_substitution(p: Seq<u8>, i: int, v: u8)
    requires
        digits_ok(p),
        0 <= i < p.len(),
        v < 10,
        v != p[i],
    ensures
        luhn_digit(p.update(i, v)) != luhn_digit(p),
{
    lemma_luhn_sum_update(p, i, v);
    lemma_luhn_sum_nonneg(p);
    lemma_luhn_sum_nonneg(p.update(i, v));
    assert(p[i] < 10);
    let doubled = luhn_doubled(p.len() as int, i);
    let a = luhn_term(p[i] as int, doubled);
    let b = luhn_term(v as int, doubled);
    assert(0 <= a <= 9 && 0 <= b <= 9 && a != b);
}

/// Two different digits taken in from the same accumulator give different
/// accumulators, and so does one digit taken in from two different
/// accumulators.
pub proof fn lemma_iso7064_step_injective(acc1: int, d1: int, acc2: int, d2: int)
    requires
        1 <= acc1 <= 10,
        1 <= acc2 <= 10,
        0 <= d1 < 10,
        0 <= d2 < 10,
        (acc1 == acc2 && d1 != d2) || (acc1 != acc2 && d1 == d2),
    ensures
        iso7064_step(acc1, d1) != iso7064_step(acc2, d2),
        1 <= iso7064_step(acc1, d1) <= 10,
{
    let r1 = (d1 + acc1) % 10;
    let r2 = (d2 + acc2) % 10;
    let s1 = if r1 == 0 {
        10
    } else {
        r1
    };
    let s2 = if r2 == 0 {
        10
    } else {
        r2
    };
    let delta = (d1 + acc1) - (d2 + acc2);
    assert(-9 <= delta <= 9 && delta != 0);
    assert(r1 != r2);
    assert(1 <= s1 <= 10 && 1 <= s2 <= 10 && s1 != s2);
    assert(iso7064_step(acc1, d1) == (s1 * 2) % 11);
    assert(iso7064_step(acc2, d2) == (s2 * 2) % 11);
    assert((s1 * 2) % 11 != (s2 * 2) % 11);
    assert(1 <= (s1 * 2) % 11 <= 10);
}

/// Replacing one digit of a payload changes the ISO 7064 accumulator after
/// the payload.
pub proof fn lemma_iso7064_acc_differs(p: Seq<u8>, i: int, v: u8)
    requires
        digits_ok(p),
        0 <= i < p.len(),
        v < 10,
        v != p[i],
    ensures
        iso7064_acc(p.update(i, v)) != iso7064_acc(p),
    decreases p.len(),
{
    let q = p.update(i, v);
    lemma_iso7064_acc_range(p.drop_last());
    lemma_iso7064_acc_range(q.drop_last());
    assert(p[p.len() - 1] < 10);
    assert(p[i] < 10);
    if i == p.len() - 1 {
        assert(q.drop_last() =~= p.drop_last());
        lemma_iso7064_step_injective(
            iso7064_acc(p.drop_last()),
            p.last() as int,
            iso7064_acc(q.drop_last()),
            q.last() as int,
        );
    } else {
        assert(q.drop_last() =~= p.drop_last().update(i, v));
        assert(digits_ok(p.drop_last())) by {
            assert forall|k: int| 0 <= k < p.drop_last().len() implies #[trigger] p.drop_last()[k]
                < 10 by {
                assert(p.drop_last()[k] == p[k]);
            }
        }
        lemma_iso7064_acc_differs(p.drop_last(), i, v);
        lemma_iso7064_step_injective(
            iso7064_acc(p.drop_last()),
            p.last() as int,
            iso7064_acc(q.drop_last()),
            q.last() as int,
        );
    }
}

/// The ISO 7064 MOD 11,10 check digit detects every substitution of one
/// digit by another: a payload in which one digit is replaced has another
/// check digit.
pub proof fn lemma_iso7064_detects_substitution(p: Seq<u8>, i: int, v: u8)
    requires
        digits_ok(p),
        0 <= i < p.len(),
        v < 10,
        v != p[i],
    ensures
        iso7064_digit(p.update(i, v)) != iso7064_digit(p),
{
    lemma_iso7064_acc_differs(p, i, v);
    lemma_iso7064_acc_range(p);
    lemma_iso7064_acc_range(p.update(i, v));
}

/// A number that 97 does not divide is not divided by 97 when it is
/// multiplied by ten or by a hundred.
pub proof fn lemma_97_keeps_apart(x: int)
    requires
        x % 97 != 0,
    ensures
        (x * 10) % 97 != 0,
        (x * 100) % 97 != 0,
{
    assert((x * 10) % 97 == 0 ==> x % 97 == 0) by (nonlinear_arith)
        requires
            true,
    {
        if (x * 10) % 97 == 0 {
            let k = (x * 10) / 97;
            assert(x * 10 == 97 * k);
            assert(x == 97 * (68 * k - 7 * x));
        }
    }
    assert((x * 100) % 97 == 0 ==> x % 97 == 0) by (nonlinear_arith)
        requires
            true,
    {
        if (x * 100) % 97 == 0 {
            let k = (x * 100) / 97;
            assert(x * 100 == 97 * k);
            assert(x == 97 * (65 * k - 67 * x));
        }
    }
}

/// Replacing one digit of a text by another digit changes its expanded
/// number by an amount that 97 does not divide.
pub proof fn lemma_expanded_differs(s: Seq<char>, i: int, c: char)
    requires
        0 <= i < s.len(),
        is_digit(s[i]),
        is_digit(c),
        c != s[i],
    ensures
        (expanded_value(s.update(i, c)) - expanded_value(s)) % 97 != 0,
    decreases s.len(),
{
    let t = s.update(i, c);
    if i == s.len() - 1 {
        assert(t.drop_last() =~= s.drop_last());
        let d = digit_value(c) - digit_value(s[i]);
        assert(expanded_value(t) - expanded_value(s) == d);
        assert(-9 <= d <= 9 && d != 0);
    } else {
        assert(t.drop_last() =~= s.drop_last().update(i, c));
        assert(s.drop_last()[i] == s[i]);
        lemma_expanded_differs(s.drop_last(), i, c);
        let x = expanded_value(t.drop_last()) - expanded_value(s.drop_last());
        lemma_97_keeps_apart(x);
        if is_digit(s.last()) {
            assert(expanded_value(t) - expanded_value(s) == x * 10) by (nonlinear_arith)
                requires
                    expanded_value(t) == expanded_value(t.drop_last()) * 10 + char_number(
                        s.last(),
                    ),
                    expanded_value(s) == expanded_value(s.drop_last()) * 10 + char_number(
                        s.last(),
                    ),
                    x == expanded_value(t.drop_last()) - expanded_value(s.drop_last()),
            ;
        } else {
            assert(expanded_value(t) - expanded_value(s) == x * 100) by (nonlinear_arith)
                requires
                    expanded_value(t) == expanded_value(t.drop_last()) * 100 + char_number(
                        s.last(),
                    ),
                    expanded_value(s) == expanded_value(s.drop_last()) * 100 + char_number(
                        s.last(),
                    ),
                    x == expanded_value(t.drop_last()) - expanded_value(s.drop_last()),
            ;
        }
    }
}

/// The mod-97 remainder detects every substitution of one digit by
/// another: a text in which one digit is replaced by another digit leaves
/// another remainder.
pub proof fn lemma_mod97_detects_substitution(s: Seq<char>, i: int, c: char)
    requires
        0 <= i < s.len(),
        is_digit(s[i]),
        is_digit(c),
        c != s[i],
    ensures
        mod97(s.update(i, c)) != mod97(s),
{
    lemma_expanded_differs(s, i, c);
    let a = expanded_value(s.update(i, c));
    let b = expanded_value(s);
    assert(a % 97 == b % 97 ==> (a - b) % 97 == 0) by (nonlinear_arith);
}

/// Replacing one digit under a weight changes a weighted sum by the
/// difference of the digits times the weight.
pub proof fn lemma_weighted_sum_update(d: Seq<u8>, w: Seq<u8>, i: int, v: u8)
    requires
        0 <= i < d.len(),
        i < w.len(),
    ensures
        weighted_sum(d.update(i, v), w) == weighted_sum(d, w) + (v as int - d[i] as int) * (
        w[i] as int),
    decreases d.len(),
{
    let e = d.update(i, v);
    if i == d.len() - 1 {
        assert(e.drop_last() =~= d.drop_last());
        assert((v as int - d[i] as int) * (w[i] as int) == v as int * w[i] as int - d[i] as int
            * w[i] as int) by (nonlinear_arith);
    } else {
        assert(e.drop_last() =~= d.drop_last().update(i, v));
        assert(d.drop_last()[i] == d[i]);
        lemma_weighted_sum_update(d.drop_last(), w, i, v);
    }
}

/// The check of the United Kingdom VAT scheme detects every substitution
/// of one of the seven digits by another.
pub proof fn lemma_gb_detects_substitution(d: Seq<u8>, i: int, v: u8)
    requires
        d.len() == 7,
        digits_ok(d),
        0 <= i < 7,
        v < 10,
        v != d[i],
    ensures
        gb_check(d.update(i, v)) != gb_check(d),
{
    let w = gb_weights();
    let e = d.update(i, v);
    assert(d.take(7) =~= d);
    assert(e.take(7) =~= e);
    lemma_weighted_sum_update(d, w, i, v);
    lemma_weighted_sum_nonneg(d, w);
    lemma_weighted_sum_nonneg(e, w);
    assert(d[i] < 10);
    assert(1 <= w[i] <= 8);
    let delta = (v as int - d[i] as int) * (w[i] as int);
    assert(-72 <= delta <= 72 && delta != 0) by (nonlinear_arith)
        requires
            delta == (v as int - d[i] as int) * (w[i] as int),
            -9 <= v as int - d[i] as int <= 9,
            v as int - d[i] as int != 0,
            1 <= w[i] as int <= 8,
    ;
    let a = weighted_sum(d, w);
    let b = weighted_sum(e, w);
    assert(a % 97 != b % 97) by (nonlinear_arith)
        requires
            b == a + delta,
            -72 <= delta <= 72,
            delta != 0,
    ;
}

/// Replacing one digit of a number changes it by an amount that 97 does
/// not divide.
pub proof fn lemma_decimal_differs(d: Seq<u8>, i: int, v: u8)
    requires
        digits_ok(d),
        0 <= i < d.len(),
        v < 10,
        v != d[i],
    ensures
        (decimal_value(d.update(i, v)) - decimal_value(d)) % 97 != 0,
    decreases d.len(),
{
    let e = d.update(i, v);
    assert(d[i] < 10);
    if i == d.len() - 1 {
        assert(e.drop_last() =~= d.drop_last());
    } else {
        assert(e.drop_last() =~= d.drop_last().update(i, v));
        assert(d.drop_last()[i] == d[i]);
        assert(digits_ok(d.drop_last())) by {
            assert forall|k: int| 0 <= k < d.drop_last().len() implies #[trigger] d.drop_last()[k]
                < 10 by {
                assert(d.drop_last()[k] == d[k]);
            }
        }
        lemma_decimal_differs(d.drop_last(), i, v);
        let x = decimal_value(e.drop_last()) - decimal_value(d.drop_last());
        lemma_97_keeps_apart(x);
        assert(decimal_value(e) - decimal_value(d) == x * 10) by (nonlinear_arith)
            requires
                decimal_value(e) == decimal_value(e.drop_last()) * 10 + d.last() as int,
                decimal_value(d) == decimal_value(d.drop_last()) * 10 + d.last() as int,
                x == decimal_value(e.drop_last()) - decimal_value(d.drop_last()),
        ;
    }
}

/// The key of a French VAT number detects every substitution of one digit
/// of the SIREN number by another.
pub proof fn lemma_fr_detects_substitution(siren: Seq<u8>, i: int, v: u8)
    requires
        digits_ok(siren),
        0 <= i < siren.len(),
        v < 10,
        v != siren[i],
    ensures
        fr_key(decimal_value(siren.update(i, v))) != fr_key(decimal_value(siren)),
{
    lemma_decimal_differs(siren, i, v);
    let a = decimal_value(siren.update(i, v));
    let b = decimal_value(siren);
    let x = a % 97;
    let y = b % 97;
    assert(x != y) by (nonlinear_arith)
        requires
            (a - b) % 97 != 0,
            x == a % 97,
            y == b % 97,
    ;
    assert((12 + 3 * x) % 97 != (12 + 3 * y) % 97) by (nonlinear_arith)
        requires
            0 <= x < 97,
            0 <= y < 97,
            x != y,
    ;
}

/// Replacing one digit changes the sum of the Spanish scheme by the
/// difference of what the two digits add to it.
pub proof fn lemma_es_sum_update(d: Seq<u8>, i: int, v: u8)
    requires
        0 <= i < d.len(),
    ensures
        es_sum(d.update(i, v)) == es_sum(d) - luhn_term(d[i] as int, i % 2 == 0) + luhn_term(
            v as int,
            i % 2 == 0,
        ),
    decreases d.len(),
{
    let e = d.update(i, v);
    if i == d.len() - 1 {
        assert(e.drop_last() =~= d.drop_last());
    } else {
        assert(e.drop_last() =~= d.drop_last().update(i, v));
        assert(d.drop_last()[i] == d[i]);
        lemma_es_sum_update(d.drop_last(), i, v);
    }
}

/// The check digit of the Spanish scheme detects every substitution of one
/// digit by another.
pub proof fn lemma_es_detects_substitution(d: Seq<u8>, i: int, v: u8)
    requires
        digits_ok(d),
        0 <= i < d.len(),
        v < 10,
        v != d[i],
    ensures
        es_check(d.update(i, v)) != es_check(d),
{
    lemma_es_sum_update(d, i, v);
    lemma_es_sum_nonneg(d);
    lemma_es_sum_nonneg(d.update(i, v));
    assert(d[i] < 10);
    let a = luhn_term(d[i] as int, i % 2 == 0);
    let b = luhn_term(v as int, i % 2 == 0);
    assert(0 <= a <= 9 && 0 <= b <= 9 && a != b);
}

} // verus!
