//! Company and VAT identifiers.

use vstd::prelude::*;
use rand::rngs::StdRng;
use crate::checksum::{
    gb_check, gb_vat_check, iso7064_digit, iso7064_mod11_10, luhn_digit, luhn_check_digit,
    fr_key, fr_vat_key, es_check, es_cif_check, decimal_value, number_of,
    lemma_gb_detects_substitution, lemma_iso7064_detects_substitution,
    lemma_luhn_detects_substitution, lemma_es_detects_substitution,
    lemma_fr_detects_substitution,
};
use crate::company_id::generic::{
    GenericCompanyInfo, generic_table, generic_valid, generic_supported, catalog, validate_in,
    generate_in, find_in_table, country_name_for, shape_for, drawn_suffix,
    lemma_table_codes_capital, lemma_generic_supported,
};
use crate::listing::{Entry, sorted_by_code, has_code, wins, merge_sorted};
use crate::random::{draw_digits, draw_index};
use crate::text::{
    two_letters, is_code, is_ascii, char_is_ascii, all_digits, starts_with, two_capitals, is_two_letters,
    lemma_capitals_stay, digits_ok, digits_of, text_of, digit_values, digit_value, without_prefix,
    two_digits, upper, chars_of, upper_chars, string_of, digits_in, to_digits, strip_prefix,
    push_digits, push_two_digits, digits_between, char_to_digit, lemma_digits_of_text,
    lemma_digit_values_append, lemma_digit_values_none,
};

pub mod generic;

verus! {

/// A generated company identifier with the country it belongs to.
#[derive(Debug, Clone)]
pub struct CompanyResult {
    /// The two-letter country code, in capitals.
    pub country_code: String,
    /// The country's name in English.
    pub country_name: String,
    /// What the identifier is called in that country.
    pub name: String,
    /// The identifier itself.
    pub code: String,
    /// Whether the identifier passes the country's validation.
    pub valid: bool,
}

/// How to generate: for a given country, or for one drawn from the list.
#[derive(Debug, Clone)]
pub struct GenOptions {
    /// The country code, in either case; `None` to have one drawn.
    pub country: Option<String>,
}

impl Default for GenOptions {
    fn default() -> (opts: Self)
        ensures
            opts.country is None,
    {
        GenOptions { country: None }
    }
}

/// The country code of the United Kingdom.
pub open spec fn code_gb() -> Seq<char> {
    seq!['G', 'B']
}

/// The country code of Germany.
pub open spec fn code_de() -> Seq<char> {
    seq!['D', 'E']
}

/// The country code of France.
pub open spec fn code_fr() -> Seq<char> {
    seq!['F', 'R']
}

/// The country code of Italy.
pub open spec fn code_it() -> Seq<char> {
    seq!['I', 'T']
}

/// The country code of Spain.
pub open spec fn code_es() -> Seq<char> {
    seq!['E', 'S']
}

/// A United Kingdom VAT number: the digits of the text, whatever stands
/// between them, are nine, and the last two are the check of the first
/// seven.
pub open spec fn gb_valid(s: Seq<char>) -> bool {
    let d = digit_values(s);
    d.len() == 9 && gb_check(d) == d[7] * 10 + d[8]
}

/// A German VAT number: nine digits, after `DE` or alone, the last being
/// the ISO 7064 MOD 11,10 check digit of the first eight.
pub open spec fn de_valid(s: Seq<char>) -> bool {
    let c = without_prefix(s, code_de());
    c.len() == 9 && all_digits(c) && iso7064_digit(digits_of(c).take(8)) == digits_of(c)[8]
}

/// A French VAT number: eleven digits, after `FR` or alone; the first two
/// are the key of the nine that follow, the SIREN number.
pub open spec fn fr_valid(s: Seq<char>) -> bool {
    let c = without_prefix(s, code_fr());
    c.len() == 11 && all_digits(c) && fr_key(decimal_value(digits_of(c).subrange(2, 11)))
        == decimal_value(digits_of(c).take(2))
}

/// An Italian VAT number: eleven digits, after `IT` or alone, the last
/// being the Luhn check digit of the first ten.
pub open spec fn it_valid(s: Seq<char>) -> bool {
    let c = without_prefix(s, code_it());
    c.len() == 11 && all_digits(c) && luhn_digit(digits_of(c).take(10)) == digits_of(c)[10]
}

/// A Spanish company number: one ASCII character and eight digits, the
/// last being the check digit of the seven before it.
pub open spec fn es_valid(s: Seq<char>) -> bool {
    s.len() == 9 && is_ascii(s[0]) && all_digits(s.subrange(1, 9)) && es_check(
        digits_of(s.subrange(1, 8)),
    ) == digit_value(s[8])
}

/// The verdict on `input` as a company identifier of the country `code`,
/// in capitals: by the country's own scheme where it has one, else by its
/// generic shape; `None` where the country has neither.
pub open spec fn company_valid(code: Seq<char>, input: Seq<char>) -> Option<bool> {
    if code == code_gb() {
        Some(gb_valid(input))
    } else if code == code_de() {
        Some(de_valid(input))
    } else if code == code_fr() {
        Some(fr_valid(input))
    } else if code == code_it() {
        Some(it_valid(input))
    } else if code == code_es() {
        Some(es_valid(input))
    } else {
        generic_valid(code, input)
    }
}

/// Whether company identifiers of the country `code`, in capitals, can be
/// generated and checked.
pub open spec fn company_supported(code: Seq<char>) -> bool {
    code == code_gb() || code == code_de() || code == code_fr() || code == code_it() || code
        == code_es() || generic_supported(code)
}

/// `d` is `n` digit values.
pub open spec fn payload(d: Seq<u8>, n: nat) -> bool {
    d.len() == n && digits_ok(d)
}

/// The United Kingdom VAT number over seven digits: `GB`, the digits, and
/// their two-digit check.
pub open spec fn gb_text(d: Seq<u8>) -> Seq<char> {
    code_gb() + text_of(d) + two_digits(gb_check(d))
}

/// The German VAT number over eight digits: `DE`, the digits, and their
/// check digit.
pub open spec fn de_text(d: Seq<u8>) -> Seq<char> {
    code_de() + text_of(d.push(iso7064_digit(d) as u8))
}

/// The SIREN number over eight digits: the digits and their Luhn check
/// digit.
pub open spec fn siren_of(d: Seq<u8>) -> Seq<u8> {
    d.push(luhn_digit(d) as u8)
}

/// The French VAT number over eight digits: `FR`, the two-digit key of the
/// SIREN number, and the SIREN number.
pub open spec fn fr_text(d: Seq<u8>) -> Seq<char> {
    code_fr() + two_digits(fr_key(decimal_value(siren_of(d)))) + text_of(siren_of(d))
}

/// The Italian VAT number over ten digits: `IT`, the digits, and their
/// Luhn check digit.
pub open spec fn it_text(d: Seq<u8>) -> Seq<char> {
    code_it() + text_of(d.push(luhn_digit(d) as u8))
}

/// The letters that a generated Spanish company number may begin with.
pub open spec fn es_letters() -> Seq<char> {
    seq![
        'A', 'B', 'C', 'D', 'E', 'F', 'G', 'H', 'J', 'P', 'Q', 'R', 'S', 'U', 'V', 'N', 'W',
    ]
}

/// The Spanish company number over a letter and seven digits: the letter,
/// the digits, and their check digit.
pub open spec fn es_text(letter: char, d: Seq<u8>) -> Seq<char> {
    seq![letter] + text_of(d.push(es_check(d) as u8))
}

/// A United Kingdom VAT number built over seven digits is valid.
pub proof fn lemma_gb_text_valid(d: Seq<u8>)
    requires
        payload(d, 7),
    ensures
        gb_valid(gb_text(d)),
        gb_text(d).len() == 11,
{
    let c = gb_check(d);
    let tail = text_of(d) + two_digits(c);
    let all = d + seq![(c / 10) as u8, (c % 10) as u8];
    assert(digits_ok(all));
    lemma_digits_of_text(all);
    assert(text_of(all) =~= tail);
    assert(gb_text(d) =~= code_gb() + tail);
    lemma_digit_values_none(code_gb());
    lemma_digit_values_append(code_gb(), tail);
    assert(digit_values(gb_text(d)) =~= all);
    assert(all.take(7) =~= d);
    assert(d.take(7) =~= d);
}

/// A German VAT number built over eight digits is valid.
pub proof fn lemma_de_text_valid(d: Seq<u8>)
    requires
        payload(d, 8),
    ensures
        de_valid(de_text(d)),
        de_text(d).len() == 11,
{
    let all = d.push(iso7064_digit(d) as u8);
    assert(digits_ok(all));
    lemma_digits_of_text(all);
    let s = de_text(d);
    assert(s.subrange(0, 2) =~= code_de());
    assert(s.subrange(2, s.len() as int) =~= text_of(all));
    assert(all.take(8) =~= d);
}

/// A French VAT number built over eight digits is valid.
pub proof fn lemma_fr_text_valid(d: Seq<u8>)
    requires
        payload(d, 8),
    ensures
        fr_valid(fr_text(d)),
        fr_text(d).len() == 13,
{
    let siren = siren_of(d);
    assert(digits_ok(siren));
    let key = fr_key(decimal_value(siren));
    let pair = seq![(key / 10) as u8, (key % 10) as u8];
    let all = pair + siren;
    assert(digits_ok(all));
    lemma_digits_of_text(all);
    assert(text_of(all) =~= two_digits(key) + text_of(siren));
    let s = fr_text(d);
    assert(s =~= code_fr() + text_of(all));
    assert(s.subrange(0, 2) =~= code_fr());
    assert(s.subrange(2, s.len() as int) =~= text_of(all));
    assert(all.subrange(2, 11) =~= siren);
    assert(all.take(2) =~= pair);
    assert(pair.drop_last().drop_last() =~= Seq::<u8>::empty());
    assert(decimal_value(pair.drop_last().drop_last()) == 0);
    assert(decimal_value(pair.drop_last()) == pair[0]);
    assert(decimal_value(pair) == pair[0] * 10 + pair[1]);
}

/// An Italian VAT number built over ten digits is valid.
pub proof fn lemma_it_text_valid(d: Seq<u8>)
    requires
        payload(d, 10),
    ensures
        it_valid(it_text(d)),
        it_text(d).len() == 13,
{
    let all = d.push(luhn_digit(d) as u8);
    assert(digits_ok(all));
    lemma_digits_of_text(all);
    let s = it_text(d);
    assert(s.subrange(0, 2) =~= code_it());
    assert(s.subrange(2, s.len() as int) =~= text_of(all));
    assert(all.take(10) =~= d);
}

/// A Spanish company number built over an ASCII character and seven digits
/// is valid.
pub proof fn lemma_es_text_valid(letter: char, d: Seq<u8>)
    requires
        is_ascii(letter),
        payload(d, 7),
    ensures
        es_valid(es_text(letter, d)),
{
    let all = d.push(es_check(d) as u8);
    assert(digits_ok(all));
    lemma_digits_of_text(all);
    let s = es_text(letter, d);
    assert(s.subrange(1, 9) =~= text_of(all));
    assert(s.subrange(1, 8) =~= text_of(d));
    lemma_digits_of_text(d);
    assert(s[8] == text_of(all)[7]);
}

/// How `GB` followed by nine digits is read: it is valid exactly where the
/// last two digits are the check of the first seven.
pub proof fn lemma_gb_reads(d: Seq<u8>)
    requires
        payload(d, 9),
    ensures
        gb_valid(code_gb() + text_of(d)) <==> gb_check(d.take(7)) == d[7] * 10 + d[8],
{
    lemma_digits_of_text(d);
    lemma_digit_values_none(code_gb());
    lemma_digit_values_append(code_gb(), text_of(d));
    assert(digit_values(code_gb() + text_of(d)) =~= d);
    assert(d.take(7).take(7) =~= d.take(7));
}

/// How `DE` followed by nine digits is read: it is valid exactly where the
/// last digit is the check digit of the first eight.
pub proof fn lemma_de_reads(d: Seq<u8>)
    requires
        payload(d, 9),
    ensures
        de_valid(code_de() + text_of(d)) <==> iso7064_digit(d.take(8)) == d[8],
{
    lemma_digits_of_text(d);
    let s = code_de() + text_of(d);
    assert(s.subrange(0, 2) =~= code_de());
    assert(s.subrange(2, s.len() as int) =~= text_of(d));
}

/// How `FR` followed by eleven digits is read: it is valid exactly where
/// the first two digits are the key of the nine that follow.
pub proof fn lemma_fr_reads(d: Seq<u8>)
    requires
        payload(d, 11),
    ensures
        fr_valid(code_fr() + text_of(d)) <==> fr_key(decimal_value(d.subrange(2, 11))) == d[0]
            * 10 + d[1],
{
    lemma_digits_of_text(d);
    let s = code_fr() + text_of(d);
    assert(s.subrange(0, 2) =~= code_fr());
    assert(s.subrange(2, s.len() as int) =~= text_of(d));
    let pair = d.take(2);
    assert(pair.drop_last().drop_last() =~= Seq::<u8>::empty());
    assert(decimal_value(pair.drop_last().drop_last()) == 0);
    assert(decimal_value(pair.drop_last()) == pair[0]);
    assert(decimal_value(pair) == pair[0] * 10 + pair[1]);
}

/// How `IT` followed by eleven digits is read: it is valid exactly where
/// the last digit is the Luhn check digit of the first ten.
pub proof fn lemma_it_reads(d: Seq<u8>)
    requires
        payload(d, 11),
    ensures
        it_valid(code_it() + text_of(d)) <==> luhn_digit(d.take(10)) == d[10],
{
    lemma_digits_of_text(d);
    let s = code_it() + text_of(d);
    assert(s.subrange(0, 2) =~= code_it());
    assert(s.subrange(2, s.len() as int) =~= text_of(d));
}

/// How an ASCII character followed by eight digits is read: it is a valid
/// Spanish company number exactly where the last digit is the check digit of
/// the first seven.
pub proof fn lemma_es_reads(letter: char, d: Seq<u8>)
    requires
        is_ascii(letter),
        payload(d, 8),
    ensures
        es_valid(seq![letter] + text_of(d)) <==> es_check(d.take(7)) == d[7],
{
    lemma_digits_of_text(d);
    let s = seq![letter] + text_of(d);
    assert(s.subrange(1, 9) =~= text_of(d));
    assert(s.subrange(1, 8) =~= text_of(d.take(7)));
    assert(digits_ok(d.take(7)));
    lemma_digits_of_text(d.take(7));
    assert(s[8] == text_of(d)[7]);
    assert(d[7] < 10);
}

/// Changed check digits are detected: a United Kingdom VAT number with
/// other check digits than its seven digits ask for is not valid.
pub proof fn lemma_gb_check_mutation(d: Seq<u8>, k: int)
    requires
        payload(d, 7),
        0 <= k < 100,
        k != gb_check(d),
    ensures
        !gb_valid(code_gb() + text_of(d) + two_digits(k)),
{
    let all = d + seq![(k / 10) as u8, (k % 10) as u8];
    assert(digits_ok(all));
    assert(text_of(all) =~= text_of(d) + two_digits(k));
    assert(code_gb() + text_of(d) + two_digits(k) =~= code_gb() + text_of(all));
    lemma_gb_reads(all);
    assert(all.take(7) =~= d);
    assert(d.take(7) =~= d);
}

/// A replaced digit is detected: a United Kingdom VAT number in which one
/// of the seven digits is replaced by another, the check digits kept, is
/// not valid.
pub proof fn lemma_gb_payload_mutation(d: Seq<u8>, i: int, v: u8)
    requires
        payload(d, 7),
        0 <= i < 7,
        v < 10,
        v != d[i],
    ensures
        !gb_valid(code_gb() + text_of(d.update(i, v)) + two_digits(gb_check(d))),
{
    lemma_gb_detects_substitution(d, i, v);
    assert(d.take(7) =~= d);
    assert(d.update(i, v).take(7) =~= d.update(i, v));
    lemma_gb_check_mutation(d.update(i, v), gb_check(d));
}

/// A changed digit is detected: a German VAT number in which the check
/// digit, or one of the eight digits before it, is replaced by another
/// digit is not valid.
pub proof fn lemma_de_mutation(d: Seq<u8>, i: int, v: u8)
    requires
        payload(d, 8),
        0 <= i < 9,
        v < 10,
        v != d.push(iso7064_digit(d) as u8)[i],
    ensures
        !de_valid(code_de() + text_of(d.push(iso7064_digit(d) as u8).update(i, v))),
{
    let all = d.push(iso7064_digit(d) as u8);
    let changed = all.update(i, v);
    assert(digits_ok(changed));
    lemma_de_reads(changed);
    if i < 8 {
        assert(changed.take(8) =~= d.update(i, v));
        lemma_iso7064_detects_substitution(d, i, v);
    } else {
        assert(changed.take(8) =~= d);
    }
}

/// A changed digit is detected: an Italian VAT number in which the check
/// digit, or one of the ten digits before it, is replaced by another digit
/// is not valid.
pub proof fn lemma_it_mutation(d: Seq<u8>, i: int, v: u8)
    requires
        payload(d, 10),
        0 <= i < 11,
        v < 10,
        v != d.push(luhn_digit(d) as u8)[i],
    ensures
        !it_valid(code_it() + text_of(d.push(luhn_digit(d) as u8).update(i, v))),
{
    let all = d.push(luhn_digit(d) as u8);
    let changed = all.update(i, v);
    assert(digits_ok(changed));
    lemma_it_reads(changed);
    if i < 10 {
        assert(changed.take(10) =~= d.update(i, v));
        lemma_luhn_detects_substitution(d, i, v);
    } else {
        assert(changed.take(10) =~= d);
    }
}

/// A changed digit is detected: a Spanish company number in which the
/// check digit, or one of the seven digits before it, is replaced by
/// another digit is not valid.
pub proof fn lemma_es_mutation(letter: char, d: Seq<u8>, i: int, v: u8)
    requires
        is_ascii(letter),
        payload(d, 7),
        0 <= i < 8,
        v < 10,
        v != d.push(es_check(d) as u8)[i],
    ensures
        !es_valid(seq![letter] + text_of(d.push(es_check(d) as u8).update(i, v))),
{
    let all = d.push(es_check(d) as u8);
    let changed = all.update(i, v);
    assert(digits_ok(changed));
    lemma_es_reads(letter, changed);
    if i < 7 {
        assert(changed.take(7) =~= d.update(i, v));
        lemma_es_detects_substitution(d, i, v);
    } else {
        assert(changed.take(7) =~= d);
    }
}

/// A changed key is detected: a French VAT number with another key than
/// its SIREN number asks for is not valid.
pub proof fn lemma_fr_key_mutation(siren: Seq<u8>, k: int)
    requires
        payload(siren, 9),
        0 <= k < 100,
        k != fr_key(decimal_value(siren)),
    ensures
        !fr_valid(code_fr() + two_digits(k) + text_of(siren)),
{
    let all = seq![(k / 10) as u8, (k % 10) as u8] + siren;
    assert(digits_ok(all));
    assert(text_of(all) =~= two_digits(k) + text_of(siren));
    assert(code_fr() + two_digits(k) + text_of(siren) =~= code_fr() + text_of(all));
    lemma_fr_reads(all);
    assert(all.subrange(2, 11) =~= siren);
}

/// A replaced digit is detected: a French VAT number in which one digit of
/// the SIREN number is replaced by another, the key kept, is not valid.
pub proof fn lemma_fr_siren_mutation(siren: Seq<u8>, i: int, v: u8)
    requires
        payload(siren, 9),
        0 <= i < 9,
        v < 10,
        v != siren[i],
    ensures
        !fr_valid(
            code_fr() + two_digits(fr_key(decimal_value(siren))) + text_of(siren.update(i, v)),
        ),
{
    lemma_fr_detects_substitution(siren, i, v);
    lemma_fr_key_mutation(siren.update(i, v), fr_key(decimal_value(siren)));
}

/// Writes the United Kingdom VAT number over seven digits.
pub fn build_gb(digits: &Vec<u8>) -> (code: String)
    requires
        payload(digits@, 7),
    ensures
        code@ == gb_text(digits@),
        gb_valid(code@),
{
    let check = gb_vat_check(digits.as_slice());
    let mut out: Vec<char> = vec!['G', 'B'];
    assert(out@ =~= code_gb());
    push_digits(&mut out, digits.as_slice());
    push_two_digits(&mut out, check);
    proof {
        lemma_gb_text_valid(digits@);
    }
    string_of(&out)
}

/// Writes the German VAT number over eight digits.
pub fn build_de(digits: &Vec<u8>) -> (code: String)
    requires
        payload(digits@, 8),
    ensures
        code@ == de_text(digits@),
        de_valid(code@),
{
    let check = iso7064_mod11_10(digits.as_slice());
    let mut all = digits.clone();
    all.push(check);
    let mut out: Vec<char> = vec!['D', 'E'];
    assert(out@ =~= code_de());
    assert(all@ =~= digits@.push(iso7064_digit(digits@) as u8));
    push_digits(&mut out, all.as_slice());
    proof {
        lemma_de_text_valid(digits@);
    }
    string_of(&out)
}

/// Writes the French VAT number over the first eight digits of a SIREN
/// number.
pub fn build_fr(digits: &Vec<u8>) -> (code: String)
    requires
        payload(digits@, 8),
    ensures
        code@ == fr_text(digits@),
        fr_valid(code@),
{
    let siren_check = luhn_check_digit(digits.as_slice());
    let mut siren = digits.clone();
    siren.push(siren_check);
    assert(siren@ =~= siren_of(digits@));
    let siren_val = number_of(siren.as_slice());
    let key = fr_vat_key(siren_val);
    let mut out: Vec<char> = vec!['F', 'R'];
    assert(out@ =~= code_fr());
    push_two_digits(&mut out, key);
    push_digits(&mut out, siren.as_slice());
    proof {
        lemma_fr_text_valid(digits@);
    }
    string_of(&out)
}

/// Writes the Italian VAT number over ten digits.
pub fn build_it(digits: &Vec<u8>) -> (code: String)
    requires
        payload(digits@, 10),
    ensures
        code@ == it_text(digits@),
        it_valid(code@),
{
    let check = luhn_check_digit(digits.as_slice());
    let mut all = digits.clone();
    all.push(check);
    let mut out: Vec<char> = vec!['I', 'T'];
    assert(out@ =~= code_it());
    assert(all@ =~= digits@.push(luhn_digit(digits@) as u8));
    push_digits(&mut out, all.as_slice());
    proof {
        lemma_it_text_valid(digits@);
    }
    string_of(&out)
}

/// Writes the Spanish company number over a first character and seven
/// digits.
pub fn build_es(letter: char, digits: &Vec<u8>) -> (code: String)
    requires
        is_ascii(letter),
        payload(digits@, 7),
    ensures
        code@ == es_text(letter, digits@),
        es_valid(code@),
{
    let check = es_cif_check(digits.as_slice());
    let mut all = digits.clone();
    all.push(check);
    let mut out: Vec<char> = vec![letter];
    assert(out@ =~= seq![letter]);
    assert(all@ =~= digits@.push(es_check(digits@) as u8));
    push_digits(&mut out, all.as_slice());
    proof {
        lemma_es_text_valid(letter, digits@);
    }
    string_of(&out)
}

/// The five countries with a scheme of their own, each with its code, its
/// name and the name of its identifier.
pub open spec fn explicit_table() -> Seq<Entry> {
    seq![
        ("GB", "United Kingdom", "VAT Number"),
        ("DE", "Germany", "USt-IdNr"),
        ("FR", "France", "TVA Intracommunautaire"),
        ("IT", "Italy", "Partita IVA"),
        ("ES", "Spain", "CIF"),
    ]
}

/// The countries of the generic list, each with its code, its name and the
/// name of its identifier, in the order of the list.
pub open spec fn generic_listing() -> Seq<Entry> {
    Seq::new(
        generic_table().len(),
        |i: int| (generic_table()[i].code, generic_table()[i].country_name, generic_table()[i].name),
    )
}

/// Every entry that a country list is made from: the five countries with a
/// scheme of their own first, then the generic list.
pub open spec fn all_entries() -> Seq<Entry> {
    explicit_table() + generic_listing()
}

/// The country name reported with a generated identifier.
pub open spec fn company_country_name(code: Seq<char>) -> Seq<char> {
    if code == code_gb() {
        "United Kingdom"@
    } else if code == code_de() {
        "Germany"@
    } else if code == code_fr() {
        "France"@
    } else if code == code_it() {
        "Italy"@
    } else if code == code_es() {
        "Spain"@
    } else {
        country_name_for(generic_table(), code)
    }
}

/// The name of the identifier reported with a generated identifier.
pub open spec fn company_id_name(code: Seq<char>) -> Seq<char> {
    if code == code_gb() {
        "VAT Number"@
    } else if code == code_de() {
        "USt-IdNr"@
    } else if code == code_fr() {
        "TVA Intracommunautaire"@
    } else if code == code_it() {
        "Partita IVA"@
    } else if code == code_es() {
        "CIF"@
    } else {
        shape_for(generic_table(), code).name@
    }
}

/// What a generator may write for the country `code`: for a country with a
/// scheme of its own the identifier built over some digits, and for another
/// the country's prefix followed by a suffix that may be drawn.
pub open spec fn company_written(code: Seq<char>, text: Seq<char>) -> bool {
    if code == code_gb() {
        exists|d: Seq<u8>| payload(d, 7) && text == #[trigger] gb_text(d)
    } else if code == code_de() {
        exists|d: Seq<u8>| payload(d, 8) && text == #[trigger] de_text(d)
    } else if code == code_fr() {
        exists|d: Seq<u8>| payload(d, 8) && text == #[trigger] fr_text(d)
    } else if code == code_it() {
        exists|d: Seq<u8>| payload(d, 10) && text == #[trigger] it_text(d)
    } else if code == code_es() {
        exists|k: int, d: Seq<u8>|
            0 <= k < es_letters().len() && payload(d, 7) && text == #[trigger] es_text(
                es_letters()[k],
                d,
            )
    } else {
        let info = shape_for(generic_table(), code);
        starts_with(text, info.prefix@) && drawn_suffix(
            info,
            text.subrange(info.prefix@.len() as int, text.len() as int),
        )
    }
}

/// `res` is a generated result for the country `code`, in capitals.
pub open spec fn company_generated(code: Seq<char>, res: CompanyResult) -> bool {
    &&& res.country_code@ == code
    &&& res.country_name@ == company_country_name(code)
    &&& res.name@ == company_id_name(code)
    &&& company_written(code, res.code@)
    &&& company_valid(code, res.code@) == Some(true)
    &&& res.valid
}

/// The supported countries are those whose code is two ASCII letters: only
/// a code of another length, or with another character, is not supported.
pub proof fn lemma_company_supported(code: Seq<char>)
    ensures
        company_supported(code) <==> two_letters(code),
{
    lemma_generic_supported(code);
}

/// Every code of a country list entry is two capital letters, and a
/// supported country.
pub proof fn lemma_entries_supported()
    ensures
        all_entries().len() == 56,
        forall|k: int|
            0 <= k < all_entries().len() ==> two_capitals((#[trigger] all_entries()[k]).0@)
                && company_supported(all_entries()[k].0@),
{
    lemma_table_codes_capital();
    reveal_strlit("GB");
    reveal_strlit("DE");
    reveal_strlit("FR");
    reveal_strlit("IT");
    reveal_strlit("ES");
    assert forall|k: int| 0 <= k < all_entries().len() implies two_capitals(
        (#[trigger] all_entries()[k]).0@,
    ) && company_supported(all_entries()[k].0@) by {
        if k >= 5 {
            assert(all_entries()[k].0 == generic_table()[k - 5].code);
            assert(two_capitals(generic_table()[k - 5].code@));
        }
        lemma_capitals_stay(all_entries()[k].0@);
    }
}

/// The catalog of company identifiers: five countries with a scheme of
/// their own, and the generic shapes for the others.
pub struct Registry {
    table: Vec<GenericCompanyInfo>,
}

impl Default for Registry {
    fn default() -> (r: Self)
        ensures
            r.listed() == generic_table(),
    {
        Registry::new()
    }
}

impl Registry {
    #[verifier::type_invariant]
    spec fn holds_catalog(&self) -> bool {
        self.table@ == generic_table()
    }

    /// The generic list of countries that the catalog holds.
    pub closed spec fn listed(&self) -> Seq<GenericCompanyInfo> {
        self.table@
    }

    /// Builds the catalog, with the generic list of countries.
    pub fn new() -> (r: Self)
        ensures
            r.listed() == generic_table(),
    {
        Registry { table: catalog() }
    }

    /// Whether company identifiers of `country`, whose case does not
    /// matter, can be generated and checked: the country has a scheme of its
    /// own, is on the generic list, or is any other two ASCII letters.
    pub fn is_supported(&self, country: &str) -> (r: bool)
        ensures
            r == company_supported(upper(country@)),
            r == two_letters(upper(country@)),
    {
        proof {
            use_type_invariant(self);
            lemma_company_supported(upper(country@));
        }
        let cc = upper_chars(country);
        is_code(&cc, 'G', 'B') || is_code(&cc, 'D', 'E') || is_code(&cc, 'F', 'R') || is_code(
            &cc,
            'I',
            'T',
        ) || is_code(&cc, 'E', 'S') || find_in_table(&self.table, &cc).is_some() || is_two_letters(
            &cc,
        )
    }

    /// Checks `code` as a company identifier of `country`, whose case does
    /// not matter. The result is `None` exactly where the country is not
    /// supported; a code of the wrong length, alphabet or check digit gives
    /// `Some(false)`.
    pub fn validate(&self, country: &str, code: &str) -> (r: Option<bool>)
        ensures
            r == company_valid(upper(country@), code@),
            r is Some <==> company_supported(upper(country@)),
            r is Some <==> two_letters(upper(country@)),
    {
        proof {
            use_type_invariant(self);
            lemma_company_supported(upper(country@));
        }
        let cc = upper_chars(country);
        if is_code(&cc, 'G', 'B') {
            Some(self.validate_gb(code))
        } else if is_code(&cc, 'D', 'E') {
            Some(self.validate_de(code))
        } else if is_code(&cc, 'F', 'R') {
            Some(self.validate_fr(code))
        } else if is_code(&cc, 'I', 'T') {
            Some(self.validate_it(code))
        } else if is_code(&cc, 'E', 'S') {
            Some(self.validate_es(code))
        } else {
            let chars = chars_of(code);
            validate_in(&self.table, &cc, &chars)
        }
    }

    /// The supported countries that are listed by name, each with its code,
    /// its name and the name of its identifier: the countries with a scheme
    /// of their own and those of the generic list, each code once (an entry
    /// of the first kind is kept before one of the second), in rising order
    /// of the codes. Every country of the list is supported.
    pub fn list_countries(&self) -> (list: Vec<Entry>)
        ensures
            sorted_by_code(list@),
            forall|i: int| 0 <= i < list@.len() ==> wins(all_entries(), #[trigger] list@[i]),
            forall|k: int|
                0 <= k < all_entries().len() ==> has_code(list@, (#[trigger] all_entries()[k]).0@),
            forall|i: int|
                0 <= i < list@.len() ==> company_supported(upper((#[trigger] list@[i]).0@)),
            list@.len() > 0,
    {
        proof {
            use_type_invariant(self);
        }
        let mut source: Vec<Entry> = vec![
            ("GB", "United Kingdom", "VAT Number"),
            ("DE", "Germany", "USt-IdNr"),
            ("FR", "France", "TVA Intracommunautaire"),
            ("IT", "Italy", "Partita IVA"),
            ("ES", "Spain", "CIF"),
        ];
        assert(source@ =~= explicit_table());
        let mut i: usize = 0;
        while i < self.table.len()
            invariant
                i <= self.table.len(),
                self.table@ == generic_table(),
                source@ == explicit_table() + generic_listing().take(i as int),
            decreases self.table.len() - i,
        {
            let info = self.table[i];
            source.push((info.code, info.country_name, info.name));
            assert(source@ =~= explicit_table() + generic_listing().take(i + 1));
            i += 1;
        }
        assert(generic_listing().take(generic_table().len() as int) =~= generic_listing());
        let list = merge_sorted(&source);
        proof {
            lemma_entries_supported();
            assert(has_code(list@, all_entries()[0].0@));
            assert forall|i: int| 0 <= i < list@.len() implies company_supported(
                upper((#[trigger] list@[i]).0@),
            ) by {
                assert(wins(all_entries(), list@[i]));
                let k = choose|k: int|
                    0 <= k < all_entries().len() && #[trigger] all_entries()[k] == list@[i];
                assert(two_capitals(all_entries()[k].0@));
                lemma_capitals_stay(list@[i].0@);
            }
        }
        list
    }

    /// Generates a company identifier: for the country of `opts`, whose case
    /// does not matter, or, where `opts` names none, for a country drawn
    /// from `list_countries`. The result is `None` exactly where the country
    /// named is not supported. What is generated is written as the country's
    /// scheme says and passes `validate` for that country.
    pub fn generate(&self, opts: &GenOptions, rng: &mut StdRng) -> (r: Option<CompanyResult>)
        ensures
            match opts.country {
                Some(c) => (r is Some <==> company_supported(upper(c@))) && (r is Some
                    <==> two_letters(upper(c@))) && (r is Some ==> company_generated(
                    upper(c@),
                    r->0,
                )),
                None => r is Some && has_code(all_entries(), r->0.country_code@)
                    && company_generated(r->0.country_code@, r->0),
            },
    {
        proof {
            use_type_invariant(self);
        }
        let cc: Vec<char> = match &opts.country {
            Some(c) => upper_chars(c.as_str()),
            None => {
                let countries = self.list_countries();
                let k = draw_index(rng, countries.len());
                let picked = upper_chars(countries[k].0);
                proof {
                    lemma_entries_supported();
                    assert(wins(all_entries(), countries@[k as int]));
                    let j = choose|j: int|
                        0 <= j < all_entries().len() && #[trigger] all_entries()[j]
                            == countries@[k as int];
                    assert(two_capitals(all_entries()[j].0@));
                    lemma_capitals_stay(all_entries()[j].0@);
                    assert(has_code(all_entries(), picked@));
                }
                picked
            },
        };
        let ghost code = cc@;
        proof {
            lemma_company_supported(code);
        }
        let own: Option<(&'static str, &'static str, String)> = if is_code(&cc, 'G', 'B') {
            Some(("United Kingdom", "VAT Number", self.generate_gb(rng)))
        } else if is_code(&cc, 'D', 'E') {
            Some(("Germany", "USt-IdNr", self.generate_de(rng)))
        } else if is_code(&cc, 'F', 'R') {
            Some(("France", "TVA Intracommunautaire", self.generate_fr(rng)))
        } else if is_code(&cc, 'I', 'T') {
            Some(("Italy", "Partita IVA", self.generate_it(rng)))
        } else if is_code(&cc, 'E', 'S') {
            Some(("Spain", "CIF", self.generate_es(rng)))
        } else {
            None
        };
        match own {
            Some((country_name, name, text)) => {
                let res = CompanyResult {
                    country_code: string_of(&cc),
                    country_name: String::from_str(country_name),
                    name: String::from_str(name),
                    code: text,
                    valid: true,
                };
                assert(company_generated(code, res));
                Some(res)
            },
            None => {
                let r = generate_in(&self.table, &cc, rng);
                proof {
                    if r is Some {
                        let info = shape_for(generic_table(), code);
                        let text = r->0.code@;
                        let suffix = text.subrange(info.prefix@.len() as int, text.len() as int);
                        assert(text == info.prefix@ + suffix);
                        assert(text.subrange(0, info.prefix@.len() as int) =~= info.prefix@);
                        assert(company_generated(code, r->0));
                    }
                }
                r
            },
        }
    }

    /// Checks a United Kingdom VAT number.
    pub fn validate_gb(&self, code: &str) -> (r: bool)
        ensures
            r == gb_valid(code@),
    {
        let chars = chars_of(code);
        let digits = digits_in(&chars);
        if digits.len() != 9 {
            return false;
        }
        let check = gb_vat_check(digits.as_slice());
        let actual: u8 = digits[7] * 10 + digits[8];
        check == actual
    }

    /// Checks a German VAT number.
    pub fn validate_de(&self, code: &str) -> (r: bool)
        ensures
            r == de_valid(code@),
    {
        let chars = chars_of(code);
        let prefix = vec!['D', 'E'];
        assert(prefix@ =~= code_de());
        let clean = strip_prefix(&chars, &prefix);
        if clean.len() != 9 {
            return false;
        }
        assert(clean@.subrange(0, 9) =~= clean@);
        if !digits_between(&clean, 0, 9) {
            return false;
        }
        let digits = to_digits(&clean);
        let head = vstd::slice::slice_subrange(digits.as_slice(), 0, 8);
        assert(head@ =~= digits@.take(8));
        iso7064_mod11_10(head) == digits[8]
    }

    /// Checks a French VAT number.
    pub fn validate_fr(&self, code: &str) -> (r: bool)
        ensures
            r == fr_valid(code@),
    {
        let chars = chars_of(code);
        let prefix = vec!['F', 'R'];
        assert(prefix@ =~= code_fr());
        let clean = strip_prefix(&chars, &prefix);
        if clean.len() != 11 {
            return false;
        }
        assert(clean@.subrange(0, 11) =~= clean@);
        if !digits_between(&clean, 0, 11) {
            return false;
        }
        let digits = to_digits(&clean);
        let siren = vstd::slice::slice_subrange(digits.as_slice(), 2, 11);
        let siren_val = number_of(siren);
        let check = fr_vat_key(siren_val);
        let actual: u8 = digits[0] * 10 + digits[1];
        proof {
            let key = digits@.take(2);
            assert(key.drop_last().drop_last() =~= Seq::<u8>::empty());
            assert(decimal_value(key.drop_last().drop_last()) == 0);
            assert(decimal_value(key.drop_last()) == digits@[0]);
            assert(decimal_value(key) == digits@[0] * 10 + digits@[1]);
        }
        check == actual
    }

    /// Checks an Italian VAT number.
    pub fn validate_it(&self, code: &str) -> (r: bool)
        ensures
            r == it_valid(code@),
    {
        let chars = chars_of(code);
        let prefix = vec!['I', 'T'];
        assert(prefix@ =~= code_it());
        let clean = strip_prefix(&chars, &prefix);
        if clean.len() != 11 {
            return false;
        }
        assert(clean@.subrange(0, 11) =~= clean@);
        if !digits_between(&clean, 0, 11) {
            return false;
        }
        let digits = to_digits(&clean);
        let head = vstd::slice::slice_subrange(digits.as_slice(), 0, 10);
        assert(head@ =~= digits@.take(10));
        luhn_check_digit(head) == digits[10]
    }

    /// Checks a Spanish company number.
    pub fn validate_es(&self, code: &str) -> (r: bool)
        ensures
            r == es_valid(code@),
    {
        let chars = chars_of(code);
        if chars.len() != 9 {
            return false;
        }
        if !char_is_ascii(chars[0]) {
            return false;
        }
        if !digits_between(&chars, 1, 9) {
            return false;
        }
        let mut digits: Vec<u8> = Vec::new();
        let mut i: usize = 1;
        while i < 8
            invariant
                1 <= i <= 8,
                chars@.len() == 9,
                all_digits(chars@.subrange(1, 9)),
                digits@ == digits_of(chars@.subrange(1, i as int)),
            decreases 8 - i,
        {
            assert(chars@.subrange(1, 9)[i - 1] == chars@[i as int]);
            digits.push(char_to_digit(chars[i]));
            assert(digits@ =~= digits_of(chars@.subrange(1, i + 1)));
            i += 1;
        }
        assert(chars@.subrange(1, 9)[7] == chars@[8]);
        es_cif_check(digits.as_slice()) == char_to_digit(chars[8])
    }

    /// Generates a United Kingdom VAT number over seven drawn digits.
    pub fn generate_gb(&self, rng: &mut StdRng) -> (code: String)
        ensures
            exists|d: Seq<u8>| payload(d, 7) && code@ == #[trigger] gb_text(d),
            gb_valid(code@),
    {
        let digits = draw_digits(rng, 7);
        build_gb(&digits)
    }

    /// Generates a German VAT number over eight drawn digits.
    pub fn generate_de(&self, rng: &mut StdRng) -> (code: String)
        ensures
            exists|d: Seq<u8>| payload(d, 8) && code@ == #[trigger] de_text(d),
            de_valid(code@),
    {
        let digits = draw_digits(rng, 8);
        build_de(&digits)
    }

    /// Generates a French VAT number over eight drawn digits.
    pub fn generate_fr(&self, rng: &mut StdRng) -> (code: String)
        ensures
            exists|d: Seq<u8>| payload(d, 8) && code@ == #[trigger] fr_text(d),
            fr_valid(code@),
    {
        let digits = draw_digits(rng, 8);
        build_fr(&digits)
    }

    /// Generates an Italian VAT number over ten drawn digits.
    pub fn generate_it(&self, rng: &mut StdRng) -> (code: String)
        ensures
            exists|d: Seq<u8>| payload(d, 10) && code@ == #[trigger] it_text(d),
            it_valid(code@),
    {
        let digits = draw_digits(rng, 10);
        build_it(&digits)
    }

    /// Generates a Spanish company number over a drawn letter and seven
    /// drawn digits.
    pub fn generate_es(&self, rng: &mut StdRng) -> (code: String)
        ensures
            exists|k: int, d: Seq<u8>|
                0 <= k < es_letters().len() && payload(d, 7) && code@ == #[trigger] es_text(
                    es_letters()[k],
                    d,
                ),
            es_valid(code@),
    {
        let letters: [char; 17] = [
            'A', 'B', 'C', 'D', 'E', 'F', 'G', 'H', 'J', 'P', 'Q', 'R', 'S', 'U', 'V', 'N', 'W',
        ];
        assert(letters@ =~= es_letters());
        let k = draw_index(rng, 17);
        let letter = letters[k];
        let digits = draw_digits(rng, 7);
        assert(is_ascii(es_letters()[k as int]));
        build_es(letter, &digits)
    }
}

} // verus!
