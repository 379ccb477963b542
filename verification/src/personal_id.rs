//! Personal identification numbers.

use vstd::prelude::*;
use rand::rngs::StdRng;
use crate::catalog::{Catalog, CatalogEntry, Fallback, catalog_wf, lines_of, written_by};
use crate::format::{CharClass, Role, FieldSpec, FormatDescriptor, ChecksumAlgorithm, is_check};
use crate::listing::{Entry, sorted_by_code, has_code, wins, merge_sorted};
use crate::checksum::{luhn_digit, luhn_check_digit};
use crate::format::{copy_between, push_all};
use crate::random::{draw_in, draw_digits};
use crate::text::{
    two_letters, is_digit, all_digits, digits_ok, digits_of, text_of, two_digits, two_capitals, upper,
    chars_of, upper_chars, string_of, digits_between, to_digits, push_digits, push_two_digits,
    lemma_digits_of_text, same_chars, char_to_digit, is_code,
};

verus! {

/// The gender that a personal number may record.
#[derive(Clone, Copy, Debug, PartialEq, Eq, Structural)]
pub enum Gender {
    /// A man.
    Male,
    /// A woman.
    Female,
}

/// How to generate: hints for the numbers that record a gender or a year of
/// birth; they are passed over by the others.
#[derive(Debug, Clone)]
pub struct GenOptions {
    /// The gender to record; `None` to have one drawn.
    pub gender: Option<Gender>,
    /// The year of birth to record; `None` to have one drawn.
    pub year: Option<u16>,
}

impl Default for GenOptions {
    fn default() -> (opts: Self)
        ensures
            opts.gender is None,
            opts.year is None,
    {
        GenOptions { gender: None, year: None }
    }
}

/// What a personal number says of its holder.
#[derive(Debug, Clone)]
pub struct IdResult {
    /// The two-letter country code, in capitals.
    pub country_code: String,
    /// The personal number as it was given.
    pub code: String,
    /// The gender that the number records, where it records one.
    pub gender: Option<Gender>,
    /// The date of birth that the number records, as `YYMMDD`, where it
    /// records one.
    pub dob: Option<String>,
    /// Whether the number passes validation.
    pub valid: bool,
}

/// A field of digits.
pub open spec fn digits_field(length: u8) -> FieldSpec {
    FieldSpec { class: CharClass::Digit, length, role: Role::Free }
}

/// A field that holds one hyphen.
pub open spec fn hyphen_field() -> FieldSpec {
    FieldSpec { class: CharClass::Literal("-"), length: 1, role: Role::Prefix }
}

/// A field of one check digit.
pub open spec fn check_field() -> FieldSpec {
    FieldSpec { class: CharClass::Digit, length: 1, role: Role::CheckDigit }
}

/// The countries whose numbers are described by fields, each with its code,
/// its name and the name of its number.
pub open spec fn id_lines() -> Seq<Entry> {
    seq![
        ("US", "United States", "SSN"),
        ("CA", "Canada", "SIN"),
        ("HR", "Croatia", "OIB"),
        ("DE", "Germany", "Steuer-ID"),
        ("IL", "Israel", "Teudat Zehut"),
    ]
}

/// The fields of the number of the country at place `k` of `id_lines`.
pub open spec fn id_fields(k: int) -> Seq<FieldSpec> {
    if k == 0 {
        seq![digits_field(3), hyphen_field(), digits_field(2), hyphen_field(), digits_field(4)]
    } else if k == 1 {
        seq![digits_field(8), check_field()]
    } else if k == 2 {
        seq![digits_field(10), check_field()]
    } else if k == 3 {
        seq![digits_field(10), check_field()]
    } else {
        seq![digits_field(8), check_field()]
    }
}

/// The algorithm of the number of the country at place `k` of `id_lines`.
pub open spec fn id_checksum(k: int) -> ChecksumAlgorithm {
    if k == 0 {
        ChecksumAlgorithm::NoChecksum
    } else if k == 1 {
        ChecksumAlgorithm::Luhn
    } else if k == 2 {
        ChecksumAlgorithm::Iso7064Mod11_10
    } else if k == 3 {
        ChecksumAlgorithm::Iso7064Mod11_10
    } else {
        ChecksumAlgorithm::Luhn
    }
}

/// The shape assumed for a country that is not listed: six to fifteen
/// letters and digits, ten when generated.
pub open spec fn id_fallback() -> Fallback {
    Fallback { min_length: 6, max_length: 15, length: 10 }
}

/// `c` is the catalog of the personal numbers that are described by
/// fields.
pub open spec fn is_id_catalog(c: Catalog) -> bool {
    &&& lines_of(c.entries()) == id_lines()
    &&& c.fallback() == Some(id_fallback())
    &&& forall|i: int|
        0 <= i < c.entries().len() ==> {
            let e = #[trigger] c.entries()[i];
            &&& e.descriptor.fields@ == id_fields(i)
            &&& e.descriptor.checksum == id_checksum(i)
            &&& e.descriptor.country_code@ == e.code@
            &&& !e.descriptor.wraps_iban
        }
}

/// Builds the field of digits of the given length.
fn digits(length: u8) -> (f: FieldSpec)
    ensures
        f == digits_field(length),
{
    FieldSpec { class: CharClass::Digit, length, role: Role::Free }
}

/// Builds the field that holds one hyphen.
fn hyphen() -> (f: FieldSpec)
    ensures
        f == hyphen_field(),
{
    FieldSpec { class: CharClass::Literal("-"), length: 1, role: Role::Prefix }
}

/// Builds the field of one check digit.
fn check() -> (f: FieldSpec)
    ensures
        f == check_field(),
{
    FieldSpec { class: CharClass::Digit, length: 1, role: Role::CheckDigit }
}

/// Builds the entry of a country whose number is not wrapped.
fn entry(
    line: Entry,
    fields: Vec<FieldSpec>,
    checksum: ChecksumAlgorithm,
) -> (e: CatalogEntry)
    ensures
        (e.code, e.country_name, e.format_name) == line,
        e.descriptor.fields@ == fields@,
        e.descriptor.checksum == checksum,
        e.descriptor.country_code@ == line.0@,
        !e.descriptor.wraps_iban,
{
    CatalogEntry {
        code: line.0,
        country_name: line.1,
        format_name: line.2,
        descriptor: FormatDescriptor {
            country_code: String::from_str(line.0),
            fields,
            checksum,
            wraps_iban: false,
        },
    }
}

/// Builds the catalog of the personal numbers that are described by
/// fields.
pub fn id_catalog() -> (c: Catalog)
    ensures
        is_id_catalog(c),
{
    let mut entries: Vec<CatalogEntry> = Vec::new();
    entries.push(
        entry(
            ("US", "United States", "SSN"),
            vec![digits(3), hyphen(), digits(2), hyphen(), digits(4)],
            ChecksumAlgorithm::NoChecksum,
        ),
    );
    entries.push(
        entry(("CA", "Canada", "SIN"), vec![digits(8), check()], ChecksumAlgorithm::Luhn),
    );
    entries.push(
        entry(
            ("HR", "Croatia", "OIB"),
            vec![digits(10), check()],
            ChecksumAlgorithm::Iso7064Mod11_10,
        ),
    );
    entries.push(
        entry(
            ("DE", "Germany", "Steuer-ID"),
            vec![digits(10), check()],
            ChecksumAlgorithm::Iso7064Mod11_10,
        ),
    );
    entries.push(
        entry(("IL", "Israel", "Teudat Zehut"), vec![digits(8), check()], ChecksumAlgorithm::Luhn),
    );
    let fallback = Fallback { min_length: 6, max_length: 15, length: 10 };
    proof {
        reveal_strlit("US");
        reveal_strlit("CA");
        reveal_strlit("HR");
        reveal_strlit("DE");
        reveal_strlit("IL");
        reveal_strlit("-");
        assert forall|k: int| 0 <= k < entries@.len() implies two_capitals(
            (#[trigger] entries@[k]).code@,
        ) && entries@[k].descriptor.wf() by {
            let d = entries@[k].descriptor;
            assert(d.fields@ =~= id_fields(k));
            if k == 0 {
                assert(forall|j: int| 0 <= j < d.fields@.len() ==> !is_check(d.fields@[j]));
            } else {
                assert(is_check(d.fields@[1]));
                assert(!is_check(d.fields@[0]));
            }
        }
        assert(catalog_wf(entries@, Some(fallback)));
    }
    let ghost listed = entries@;
    let c = Catalog::new(entries, Some(fallback)).unwrap();
    proof {
        assert(lines_of(listed) =~= id_lines());
        assert forall|i: int| 0 <= i < listed.len() implies listed[i].descriptor.fields@
            == id_fields(i) by {
            assert(listed[i].descriptor.fields@ =~= id_fields(i));
        }
    }
    c
}

/// The country code of Sweden.
pub open spec fn code_se() -> Seq<char> {
    seq!['S', 'E']
}

/// The ten digits of a Swedish personal number written as six digits, a
/// hyphen and four digits.
pub open spec fn se_digits(s: Seq<char>) -> Seq<u8> {
    digits_of(s.take(6) + s.subrange(7, 11))
}

/// A Swedish personal number: six digits of a date of birth as `YYMMDD` with
/// a month from 1 to 12 and a day from 1 to 31, a hyphen, three digits of
/// a serial number, and the Luhn check digit of the nine digits before it.
pub open spec fn se_valid(s: Seq<char>) -> bool {
    let d = se_digits(s);
    &&& s.len() == 11
    &&& all_digits(s.take(6))
    &&& s[6] == '-'
    &&& all_digits(s.subrange(7, 11))
    &&& 1 <= d[2] * 10 + d[3] <= 12
    &&& 1 <= d[4] * 10 + d[5] <= 31
    &&& luhn_digit(d.take(9)) == d[9]
}

/// The gender that a Swedish personal number records: male where the last
/// digit of the serial number is odd, and female where it is even.
pub open spec fn se_gender(s: Seq<char>) -> Gender {
    if se_digits(s)[8] % 2 == 1 {
        Gender::Male
    } else {
        Gender::Female
    }
}

/// The Swedish personal number of a date of birth and a serial number.
pub open spec fn se_text(yy: int, mm: int, dd: int, serial: Seq<u8>) -> Seq<char> {
    two_digits(yy) + two_digits(mm) + two_digits(dd) + seq!['-'] + text_of(
        serial.push(luhn_digit(se_payload(yy, mm, dd, serial)) as u8),
    )
}

/// The nine digits that the check digit of a Swedish personal number is
/// derived from.
pub open spec fn se_payload(yy: int, mm: int, dd: int, serial: Seq<u8>) -> Seq<u8> {
    seq![
        (yy / 10) as u8,
        (yy % 10) as u8,
        (mm / 10) as u8,
        (mm % 10) as u8,
        (dd / 10) as u8,
        (dd % 10) as u8,
    ] + serial
}

/// A Swedish personal number built of a date and a serial number is valid,
/// and records what it was built of.
pub proof fn lemma_se_text(yy: int, mm: int, dd: int, serial: Seq<u8>)
    requires
        0 <= yy < 100,
        1 <= mm <= 12,
        1 <= dd <= 31,
        serial.len() == 3,
        digits_ok(serial),
    ensures
        se_valid(se_text(yy, mm, dd, serial)),
        se_digits(se_text(yy, mm, dd, serial)).take(9) == se_payload(yy, mm, dd, serial),
        se_text(yy, mm, dd, serial).take(6) == two_digits(yy) + two_digits(mm) + two_digits(dd),
{
    let payload = se_payload(yy, mm, dd, serial);
    let check = luhn_digit(payload) as u8;
    let tail = serial.push(check);
    let s = se_text(yy, mm, dd, serial);
    let date = two_digits(yy) + two_digits(mm) + two_digits(dd);
    assert(digits_ok(tail));
    lemma_digits_of_text(tail);
    assert(s.take(6) =~= date);
    assert(s.subrange(7, 11) =~= text_of(tail));
    assert(all_digits(date));
    let d = se_digits(s);
    assert(d =~= payload.push(check)) by {
        assert forall|i: int| 0 <= i < 10 implies d[i] == payload.push(check)[i] by {
            if i >= 6 {
                assert((s.take(6) + s.subrange(7, 11))[i] == text_of(tail)[i - 6]);
                assert(digits_of(text_of(tail))[i - 6] == tail[i - 6]);
            }
        }
    }
    assert(d.take(9) =~= payload);
}

/// Writes the Swedish personal number of a date of birth and a serial
/// number.
pub fn build_se(yy: u8, mm: u8, dd: u8, serial: &Vec<u8>) -> (code: String)
    requires
        yy < 100,
        1 <= mm <= 12,
        1 <= dd <= 31,
        serial@.len() == 3,
        digits_ok(serial@),
    ensures
        code@ == se_text(yy as int, mm as int, dd as int, serial@),
        se_valid(code@),
{
    let mut payload: Vec<u8> = vec![yy / 10, yy % 10, mm / 10, mm % 10, dd / 10, dd % 10];
    payload.push(serial[0]);
    payload.push(serial[1]);
    payload.push(serial[2]);
    assert(payload@ =~= se_payload(yy as int, mm as int, dd as int, serial@));
    let check = luhn_check_digit(payload.as_slice());
    let mut out: Vec<char> = Vec::new();
    push_two_digits(&mut out, yy);
    push_two_digits(&mut out, mm);
    push_two_digits(&mut out, dd);
    out.push('-');
    let mut tail = serial.clone();
    tail.push(check);
    assert(tail@ =~= serial@.push(check));
    push_digits(&mut out, tail.as_slice());
    proof {
        lemma_se_text(yy as int, mm as int, dd as int, serial@);
        assert(out@ =~= se_text(yy as int, mm as int, dd as int, serial@));
    }
    string_of(&out)
}

/// Whether `code` is a valid Swedish personal number.
pub fn validate_se(code: &Vec<char>) -> (r: bool)
    ensures
        r == se_valid(code@),
{
    if code.len() != 11 {
        return false;
    }
    assert(code@.take(6) =~= code@.subrange(0, 6));
    if !digits_between(code, 0, 6) || code[6] != '-' || !digits_between(code, 7, 11) {
        return false;
    }
    let mut date = copy_between(code, 0, 6);
    let serial = copy_between(code, 7, 11);
    push_all(&mut date, &serial);
    assert(date@ =~= code@.take(6) + code@.subrange(7, 11));
    assert(all_digits(date@)) by {
        assert forall|i: int| 0 <= i < date@.len() implies is_digit(#[trigger] date@[i]) by {
            if i < 6 {
                assert(date@[i] == code@.take(6)[i]);
            } else {
                assert(date@[i] == code@.subrange(7, 11)[i - 6]);
            }
        }
    }
    let d = to_digits(&date);
    let month = d[2] * 10 + d[3];
    let day = d[4] * 10 + d[5];
    if month < 1 || month > 12 || day < 1 || day > 31 {
        return false;
    }
    let head = vstd::slice::slice_subrange(d.as_slice(), 0, 9);
    assert(head@ =~= d@.take(9));
    luhn_check_digit(head) == d[9]
}

/// Generates a Swedish personal number: of the year of `opts`, or of a
/// drawn year from 1940 to 2005, with a drawn month and a drawn day from 1
/// to 28, and with a drawn serial number whose last digit is odd for a man
/// and even for a woman, as `opts` asks or as it is drawn.
pub fn generate_se(opts: &GenOptions, rng: &mut StdRng) -> (code: String)
    ensures
        se_valid(code@),
        opts.gender is Some ==> se_gender(code@) == opts.gender->0,
        opts.year is Some ==> code@.take(2) == two_digits(opts.year->0 as int % 100),
{
    let year: u16 = match opts.year {
        Some(y) => y,
        None => draw_in(rng, 1940, 2005) as u16,
    };
    let yy: u8 = (year % 100) as u8;
    let mm: u8 = draw_in(rng, 1, 12) as u8;
    let dd: u8 = draw_in(rng, 1, 28) as u8;
    let male: bool = match opts.gender {
        Some(Gender::Male) => true,
        Some(Gender::Female) => false,
        None => draw_in(rng, 0, 1) == 1,
    };
    let half: u8 = draw_in(rng, 0, 4) as u8;
    let last: u8 = if male {
        2 * half + 1
    } else {
        2 * half
    };
    let mut serial = draw_digits(rng, 2);
    serial.push(last);
    let code = build_se(yy, mm, dd, &serial);
    proof {
        lemma_se_text(yy as int, mm as int, dd as int, serial@);
        let d = se_digits(code@);
        assert(d.take(9)[8] == d[8]);
        assert(se_payload(yy as int, mm as int, dd as int, serial@)[8] == last);
        assert(code@.take(2) =~= code@.take(6).take(2));
        assert((two_digits(yy as int) + two_digits(mm as int) + two_digits(dd as int)).take(2)
            =~= two_digits(yy as int));
    }
    code
}

impl Gender {
    /// Reads a gender from `m`, `male`, `f` or `female`, in either case;
    /// any other text, or none, gives none.
    pub fn from_str_opt(text: Option<&str>) -> (g: Option<Gender>)
        ensures
            g == match text {
                Some(t) => gender_named(upper(t@)),
                None => None,
            },
    {
        match text {
            Some(t) => {
                let name = upper_chars(t);
                let m = vec!['M'];
                let male = vec!['M', 'A', 'L', 'E'];
                let f = vec!['F'];
                let female = vec!['F', 'E', 'M', 'A', 'L', 'E'];
                assert(m@ =~= seq!['M']);
                assert(male@ =~= seq!['M', 'A', 'L', 'E']);
                assert(f@ =~= seq!['F']);
                assert(female@ =~= seq!['F', 'E', 'M', 'A', 'L', 'E']);
                if same_chars(&name, &m) || same_chars(&name, &male) {
                    Some(Gender::Male)
                } else if same_chars(&name, &f) || same_chars(&name, &female) {
                    Some(Gender::Female)
                } else {
                    None
                }
            },
            None => None,
        }
    }
}

/// The gender that a name, in capitals, stands for.
pub open spec fn gender_named(name: Seq<char>) -> Option<Gender> {
    if name == seq!['M'] || name == seq!['M', 'A', 'L', 'E'] {
        Some(Gender::Male)
    } else if name == seq!['F'] || name == seq!['F', 'E', 'M', 'A', 'L', 'E'] {
        Some(Gender::Female)
    } else {
        None
    }
}

/// The line of Sweden in the country list.
pub open spec fn se_line() -> Entry {
    ("SE", "Sweden", "Personnummer")
}

/// Every line that the country list is made from: Sweden, whose number has
/// a scheme of its own, and then the countries described by fields.
pub open spec fn all_id_lines() -> Seq<Entry> {
    seq![se_line()] + id_lines()
}

/// Whether personal numbers of the country `code`, in capitals, can be
/// generated and checked.
pub open spec fn id_supported(c: Catalog, code: Seq<char>) -> bool {
    code == code_se() || c.supports(code)
}

/// The verdict on `input` as a personal number of the country `code`, in
/// capitals: `None` where the country is not supported.
pub open spec fn id_verdict(c: Catalog, code: Seq<char>, input: Seq<char>) -> Option<bool> {
    if code == code_se() {
        Some(se_valid(input))
    } else {
        c.verdict(code, input)
    }
}

/// `res` is what the personal number `input` of the country `code`, in
/// capitals, says: whether it is valid, and, for a valid Swedish number,
/// the gender and the date of birth that it records.
pub open spec fn id_read(c: Catalog, code: Seq<char>, input: Seq<char>, res: IdResult) -> bool {
    &&& res.country_code@ == code
    &&& res.code@ == input
    &&& Some(res.valid) == id_verdict(c, code, input)
    &&& if code == code_se() && se_valid(input) {
        &&& res.gender == Some(se_gender(input))
        &&& res.dob is Some
        &&& res.dob->0@ == input.take(6)
    } else {
        res.gender is None && res.dob is None
    }
}

/// The catalog of personal numbers.
pub struct Registry {
    catalog: Catalog,
}

impl Default for Registry {
    fn default() -> (r: Self)
        ensures
            is_id_catalog(r.catalog()),
    {
        Registry::new()
    }
}

impl Registry {
    #[verifier::type_invariant]
    spec fn inv(&self) -> bool {
        is_id_catalog(self.catalog)
    }

    /// The catalog of the numbers that are described by fields.
    pub closed spec fn catalog(&self) -> Catalog {
        self.catalog
    }

    /// Builds the catalog of personal numbers.
    pub fn new() -> (r: Self)
        ensures
            is_id_catalog(r.catalog()),
    {
        Registry { catalog: id_catalog() }
    }

    /// Whether personal numbers of `country`, whose case does not matter,
    /// can be generated and checked.
    pub fn is_supported(&self, country: &str) -> (r: bool)
        ensures
            is_id_catalog(self.catalog()),
            r == id_supported(self.catalog(), upper(country@)),
            r == two_letters(upper(country@)),
    {
        proof {
            use_type_invariant(self);
        }
        let cc = upper_chars(country);
        is_code(&cc, 'S', 'E') || self.catalog.is_supported(country)
    }

    /// Checks `code` as a personal number of `country`, whose case does not
    /// matter. The result is `None` exactly where the country is not
    /// supported; a number of the wrong length, alphabet or check digit
    /// gives `Some(false)`.
    pub fn validate(&self, country: &str, code: &str) -> (r: Option<bool>)
        ensures
            is_id_catalog(self.catalog()),
            r == id_verdict(self.catalog(), upper(country@), code@),
            r is Some <==> id_supported(self.catalog(), upper(country@)),
            r is Some <==> two_letters(upper(country@)),
    {
        proof {
            use_type_invariant(self);
        }
        let cc = upper_chars(country);
        if is_code(&cc, 'S', 'E') {
            let chars = chars_of(code);
            Some(validate_se(&chars))
        } else {
            self.catalog.validate(country, code)
        }
    }

    /// Generates a personal number of `country`, whose case does not
    /// matter. The hints of `opts` are followed by the numbers that record
    /// a gender or a year of birth. The result is `None` exactly where the
    /// country is not supported, and what is generated passes `validate`
    /// for the country.
    pub fn generate(&self, country: &str, opts: &GenOptions, rng: &mut StdRng) -> (r: Option<
        String,
    >)
        ensures
            is_id_catalog(self.catalog()),
            r is Some <==> id_supported(self.catalog(), upper(country@)),
            r is Some ==> id_verdict(self.catalog(), upper(country@), r->0@) == Some(true),
            r is Some ==> if upper(country@) == code_se() {
                &&& opts.gender is Some ==> se_gender(r->0@) == opts.gender->0
                &&& opts.year is Some ==> r->0@.take(2) == two_digits(opts.year->0 as int % 100)
            } else {
                written_by(
                    self.catalog().entries(),
                    self.catalog().fallback(),
                    upper(country@),
                    r->0@,
                )
            },
    {
        proof {
            use_type_invariant(self);
        }
        let cc = upper_chars(country);
        if is_code(&cc, 'S', 'E') {
            Some(generate_se(opts, rng))
        } else {
            self.catalog.generate(country, rng)
        }
    }

    /// Reads `code` as a personal number of `country`, whose case does not
    /// matter: `None` exactly where the country is not supported, and else
    /// whether the number is valid and what it records.
    pub fn parse(&self, country: &str, code: &str) -> (r: Option<IdResult>)
        ensures
            is_id_catalog(self.catalog()),
            r is Some <==> id_supported(self.catalog(), upper(country@)),
            r is Some ==> id_read(self.catalog(), upper(country@), code@, r->0),
    {
        proof {
            use_type_invariant(self);
        }
        let cc = upper_chars(country);
        let valid = match self.validate(country, code) {
            Some(v) => v,
            None => {
                return None;
            },
        };
        let chars = chars_of(code);
        let mut gender: Option<Gender> = None;
        let mut dob: Option<String> = None;
        if valid && is_code(&cc, 'S', 'E') {
            let date = copy_between(&chars, 0, 6);
            assert(date@ =~= chars@.take(6));
            let last = char_to_digit_at(&chars, 9);
            proof {
                let joined = chars@.take(6) + chars@.subrange(7, 11);
                assert(joined[8] == chars@[9]);
                assert(chars@.subrange(7, 11)[2] == chars@[9]);
            }
            gender = Some(
                if last % 2 == 1 {
                    Gender::Male
                } else {
                    Gender::Female
                },
            );
            dob = Some(string_of(&date));
        }
        Some(
            IdResult {
                country_code: string_of(&cc),
                code: string_of(&chars),
                gender,
                dob,
                valid,
            },
        )
    }

    /// The supported countries that are listed by name, each with its code,
    /// its name and the name of its number: each code once, in rising order
    /// of the codes. Every country of the list is supported.
    pub fn list_countries(&self) -> (list: Vec<Entry>)
        ensures
            is_id_catalog(self.catalog()),
            sorted_by_code(list@),
            forall|i: int| 0 <= i < list@.len() ==> wins(all_id_lines(), #[trigger] list@[i]),
            forall|k: int|
                0 <= k < all_id_lines().len() ==> has_code(list@, (#[trigger] all_id_lines()[k]).0@),
            forall|i: int|
                0 <= i < list@.len() ==> id_supported(
                    self.catalog(),
                    upper((#[trigger] list@[i]).0@),
                ),
    {
        proof {
            use_type_invariant(self);
        }
        let inner = self.catalog.list_countries();
        let mut source: Vec<Entry> = vec![("SE", "Sweden", "Personnummer")];
        let mut i: usize = 0;
        while i < inner.len()
            invariant
                i <= inner.len(),
                source@ == seq![se_line()] + inner@.take(i as int),
            decreases inner.len() - i,
        {
            source.push(inner[i]);
            assert(source@ =~= seq![se_line()] + inner@.take(i + 1));
            i += 1;
        }
        assert(inner@.take(inner@.len() as int) =~= inner@);
        let list = merge_sorted(&source);
        proof {
            reveal_strlit("SE");
            reveal_strlit("US");
            reveal_strlit("CA");
            reveal_strlit("HR");
            reveal_strlit("DE");
            reveal_strlit("IL");
            let lines = id_lines();
            assert(lines_of(self.catalog.entries()) == lines);
            assert forall|k: int| 0 <= k < all_id_lines().len() implies has_code(
                list@,
                (#[trigger] all_id_lines()[k]).0@,
            ) by {
                if k == 0 {
                    assert(source@[0] == se_line());
                    assert(has_code(list@, source@[0].0@));
                } else {
                    assert(lines_of(self.catalog.entries())[k - 1] == lines[k - 1]);
                    assert(self.catalog.entries()[k - 1].code == lines[k - 1].0);
                    assert(has_code(inner@, self.catalog.entries()[k - 1].code@));
                    let j = choose|j: int|
                        0 <= j < inner@.len() && (#[trigger] inner@[j]).0@ == lines[k - 1].0@;
                    assert(source@[j + 1] == inner@[j]);
                    assert(has_code(list@, source@[j + 1].0@));
                }
            }
            assert forall|i: int| 0 <= i < list@.len() implies wins(
                all_id_lines(),
                #[trigger] list@[i],
            ) && id_supported(self.catalog(), upper(list@[i].0@)) by {
                let e = list@[i];
                assert(wins(source@, e));
                let k = choose|k: int|
                    0 <= k < source@.len() && #[trigger] source@[k] == e && forall|j: int|
                        0 <= j < k ==> (#[trigger] source@[j]).0@ != e.0@;
                if k == 0 {
                    assert(all_id_lines()[0] == e);
                    assert(upper(e.0@) =~= code_se());
                } else {
                    assert(e == inner@[k - 1]);
                    assert(wins(lines, e));
                    let m = choose|m: int|
                        0 <= m < lines.len() && #[trigger] lines[m] == e && forall|j: int|
                            0 <= j < m ==> (#[trigger] lines[j]).0@ != e.0@;
                    assert(all_id_lines()[m + 1] == e);
                    assert(source@[0].0@ != e.0@);
                    assert forall|j: int| 0 <= j < m + 1 implies (
                    #[trigger] all_id_lines()[j]).0@ != e.0@ by {
                        if j > 0 {
                            assert(all_id_lines()[j] == lines[j - 1]);
                        }
                    }
                    assert(self.catalog.supports(upper(e.0@)));
                }
            }
        }
        list
    }
}

/// The value of the digit at place `i` of a valid Swedish personal number.
fn char_to_digit_at(code: &Vec<char>, i: usize) -> (d: u8)
    requires
        se_valid(code@),
        7 <= i < 11,
    ensures
        d == digits_of(code@.subrange(7, 11))[i - 7],
        d == se_digits(code@)[i - 1],
{
    assert(code@.subrange(7, 11)[i - 7] == code@[i as int]);
    assert((code@.take(6) + code@.subrange(7, 11))[i - 1] == code@[i as int]);
    char_to_digit(code[i])
}

} // verus!
