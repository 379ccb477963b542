//! Format descriptors: a code as an ordered list of fields, each of a
//! character class and a fixed length, with at most one field that holds
//! check digits derived from the fields before it.

use vstd::prelude::*;
use rand::rngs::StdRng;
use crate::checksum::{
    luhn_digit, luhn_check_digit, iso7064_digit, iso7064_mod11_10, es_check, es_cif_check,
    weighted_check, weighted_mod97_check, mod97, mod97_remainder, lemma_mod97_detects_substitution,
};
use crate::random::{draw_digit, draw_upper, draw_alnum};
use crate::text::{
    is_digit, is_upper, is_alnum, all_digits, all_upper, all_alnum, digit_char, digit_values,
    two_digits, two_capitals, chars_of, digits_between, upper_between, alnum_between, text_at,
    digits_in, digits_before, digit_to_char, string_of, char_is_upper,
};
use crate::iban::{iban_text, iban_check, wrap_iban, lemma_iban_remainder_is_one};

verus! {

/// The characters that a field may hold.
#[derive(Clone, Copy, Debug)]
pub enum CharClass {
    /// Decimal digits.
    Digit,
    /// Capital letters.
    UpperAlpha,
    /// ASCII letters and decimal digits.
    AlphaNumeric,
    /// A fixed text, which is the field's only value.
    Literal(&'static str),
}

/// What a field stands for.
#[derive(Clone, Copy, Debug, PartialEq, Eq, Structural)]
pub enum Role {
    /// The code of the bank.
    BankCode,
    /// The code of the branch.
    BranchCode,
    /// The number of the account.
    AccountNumber,
    /// Check digits, which are derived and never drawn.
    CheckDigit,
    /// A fixed beginning or separator.
    Prefix,
    /// Anything else.
    Free,
}

/// One field of a code.
#[derive(Clone, Copy, Debug)]
pub struct FieldSpec {
    /// The characters that the field may hold.
    pub class: CharClass,
    /// How many characters the field holds.
    pub length: u8,
    /// What the field stands for.
    pub role: Role,
}

/// The lengths of the fields added up.
pub open spec fn total_len(fields: Seq<FieldSpec>) -> int
    decreases fields.len(),
{
    if fields.len() == 0 {
        0
    } else {
        total_len(fields.drop_last()) + fields.last().length as int
    }
}

/// The place in a code at which the field `i` begins.
pub open spec fn offset(fields: Seq<FieldSpec>, i: int) -> int {
    total_len(fields.take(i))
}

/// The characters of `code` that belong to the field `i`.
pub open spec fn piece(fields: Seq<FieldSpec>, code: Seq<char>, i: int) -> Seq<char> {
    code.subrange(offset(fields, i), offset(fields, i) + fields[i].length as int)
}

/// `text` is made of characters of the class `class`.
pub open spec fn class_ok(class: CharClass, text: Seq<char>) -> bool {
    match class {
        CharClass::Digit => all_digits(text),
        CharClass::UpperAlpha => all_upper(text),
        CharClass::AlphaNumeric => all_alnum(text),
        CharClass::Literal(t) => text == t@,
    }
}

/// `code` has the length of all the fields together, and the characters of
/// each field are of its class.
pub open spec fn shape_ok(fields: Seq<FieldSpec>, code: Seq<char>) -> bool {
    code.len() == total_len(fields) && forall|i: int|
        0 <= i < fields.len() ==> class_ok(fields[i].class, #[trigger] piece(fields, code, i))
}

/// A field ends where the next one begins.
pub proof fn lemma_offset_step(fields: Seq<FieldSpec>, i: int)
    requires
        0 <= i < fields.len(),
    ensures
        offset(fields, i + 1) == offset(fields, i) + fields[i].length,
        offset(fields, 0) == 0,
        offset(fields, fields.len() as int) == total_len(fields),
{
    assert(fields.take(i + 1).drop_last() =~= fields.take(i));
    assert(fields.take(i + 1).last() == fields[i]);
    assert(fields.take(0).len() == 0);
    assert(fields.take(fields.len() as int) =~= fields);
}

/// Fields begin in the order in which they are listed.
pub proof fn lemma_offset_rises(fields: Seq<FieldSpec>, i: int, j: int)
    requires
        0 <= i <= j <= fields.len(),
    ensures
        0 <= offset(fields, i) <= offset(fields, j) <= total_len(fields),
    decreases fields.len() - i,
{
    assert(fields.take(0).len() == 0);
    assert(fields.take(fields.len() as int) =~= fields);
    if i < fields.len() {
        lemma_offset_step(fields, i);
        lemma_offset_rises(fields, i + 1, if j > i { j } else { i + 1 });
        if i > 0 {
            lemma_offset_rises_from_start(fields, i);
        }
    } else {
        lemma_offset_rises_from_start(fields, i);
    }
}

/// No field begins before the start of the code.
pub proof fn lemma_offset_rises_from_start(fields: Seq<FieldSpec>, i: int)
    requires
        0 <= i <= fields.len(),
    ensures
        0 <= offset(fields, i),
    decreases i,
{
    assert(fields.take(0).len() == 0);
    if i > 0 {
        lemma_offset_rises_from_start(fields, i - 1);
        lemma_offset_step(fields, i - 1);
    }
}

/// Whether the characters of `code` from place `from` on, `length` of them,
/// are of the class `class`.
pub fn check_class(class: &CharClass, code: &Vec<char>, from: usize, length: u8) -> (r: bool)
    requires
        from + length <= code@.len(),
    ensures
        r == class_ok(*class, code@.subrange(from as int, from + length)),
{
    let n = code.len();
    assert(from + length <= n);
    let to: usize = from + length as usize;
    match class {
        CharClass::Digit => digits_between(code, from, to),
        CharClass::UpperAlpha => upper_between(code, from, to),
        CharClass::AlphaNumeric => alnum_between(code, from, to),
        CharClass::Literal(t) => {
            let text = chars_of(t);
            if text.len() != length as usize {
                return false;
            }
            text_at(code, from, &text)
        },
    }
}

/// Whether `code` has the shape that `fields` describe.
pub fn check_shape(fields: &Vec<FieldSpec>, code: &Vec<char>) -> (r: bool)
    ensures
        r == shape_ok(fields@, code@),
{
    let mut off: usize = 0;
    let mut i: usize = 0;
    proof {
        assert(fields@.take(0).len() == 0);
    }
    while i < fields.len()
        invariant
            i <= fields.len(),
            off <= code@.len(),
            off == offset(fields@, i as int),
            forall|k: int|
                0 <= k < i ==> class_ok(fields@[k].class, #[trigger] piece(fields@, code@, k)),
        decreases fields.len() - i,
    {
        let f = fields[i];
        proof {
            lemma_offset_step(fields@, i as int);
            lemma_offset_rises(fields@, i + 1, fields@.len() as int);
        }
        if (f.length as usize) > code.len() - off {
            return false;
        }
        if !check_class(&f.class, code, off, f.length) {
            assert(!class_ok(fields@[i as int].class, piece(fields@, code@, i as int)));
            return false;
        }
        off = off + f.length as usize;
        i += 1;
    }
    proof {
        assert(fields@.take(fields@.len() as int) =~= fields@);
    }
    off == code.len()
}

/// `text` is made of characters that a generator draws for the class: for
/// letters and digits, digits and capital letters only.
pub open spec fn class_drawn(class: CharClass, text: Seq<char>) -> bool {
    match class {
        CharClass::AlphaNumeric => forall|i: int|
            0 <= i < text.len() ==> is_digit(#[trigger] text[i]) || is_upper(text[i]),
        _ => class_ok(class, text),
    }
}

/// The characters of each field of `code` are such as a generator draws.
pub open spec fn drawn_ok(fields: Seq<FieldSpec>, code: Seq<char>) -> bool {
    forall|i: int|
        0 <= i < fields.len() ==> class_drawn(fields[i].class, #[trigger] piece(fields, code, i))
}

/// The algorithm that governs the check digits of a code.
#[derive(Clone, Debug)]
pub enum ChecksumAlgorithm {
    /// The two check digits of an IBAN, which stand in the wrapper and not
    /// in a field.
    Mod97Iban,
    /// One Luhn check digit.
    Luhn,
    /// One ISO 7064 MOD 11,10 check digit.
    Iso7064Mod11_10,
    /// Two check digits: 97 less the sum of the digits under the given
    /// weights, modulo 97.
    WeightedMod97(Vec<u8>),
    /// One check digit over alternately doubled digits, the first doubled.
    DoublingMod10,
    /// No check digits.
    NoChecksum,
}

/// A country's code in one domain: its fields in order, the algorithm of
/// its check digits, and whether the code is wrapped as an IBAN.
#[derive(Clone, Debug)]
pub struct FormatDescriptor {
    /// The two-letter country code.
    pub country_code: String,
    /// The fields of the code, in the order in which they are written.
    pub fields: Vec<FieldSpec>,
    /// The algorithm of the check digits.
    pub checksum: ChecksumAlgorithm,
    /// Whether the country code and the check digits of an IBAN are put
    /// before the fields.
    pub wraps_iban: bool,
}

/// How many check digits the algorithm puts into a field.
pub open spec fn check_len(checksum: ChecksumAlgorithm) -> int {
    match checksum {
        ChecksumAlgorithm::Luhn => 1,
        ChecksumAlgorithm::Iso7064Mod11_10 => 1,
        ChecksumAlgorithm::DoublingMod10 => 1,
        ChecksumAlgorithm::WeightedMod97(_) => 2,
        ChecksumAlgorithm::Mod97Iban => 0,
        ChecksumAlgorithm::NoChecksum => 0,
    }
}

/// The check digits, as text, that the algorithm derives from the digits
/// `payload`.
pub open spec fn check_text(checksum: ChecksumAlgorithm, payload: Seq<u8>) -> Seq<char> {
    match checksum {
        ChecksumAlgorithm::Luhn => seq![digit_char(luhn_digit(payload))],
        ChecksumAlgorithm::Iso7064Mod11_10 => seq![digit_char(iso7064_digit(payload))],
        ChecksumAlgorithm::DoublingMod10 => seq![digit_char(es_check(payload))],
        ChecksumAlgorithm::WeightedMod97(w) => two_digits(weighted_check(payload, w@)),
        ChecksumAlgorithm::Mod97Iban => Seq::empty(),
        ChecksumAlgorithm::NoChecksum => Seq::empty(),
    }
}

/// The field holds check digits.
pub open spec fn is_check(f: FieldSpec) -> bool {
    f.role is CheckDigit
}

/// Every field of check digits holds what the algorithm derives from the
/// digits that stand before it in the code.
pub open spec fn check_ok(fields: Seq<FieldSpec>, checksum: ChecksumAlgorithm, code: Seq<char>)
    -> bool {
    forall|i: int|
        0 <= i < fields.len() && is_check(fields[i]) ==> #[trigger] piece(fields, code, i)
            == check_text(checksum, digit_values(code.take(offset(fields, i))))
}

/// The text that the mod-97 rule of an IBAN is applied to: the code with
/// its first four characters moved to the end.
pub open spec fn rearranged(code: Seq<char>) -> Seq<char> {
    code.skip(4) + code.take(4)
}

/// `code` is a valid IBAN of the country `country` whose domestic account
/// numbers have the shape of `fields`: the country code, two digits and an
/// account number of that shape, all of letters and digits, whose
/// rearranged text leaves the remainder one modulo 97.
pub open spec fn wrapped_valid(country: Seq<char>, fields: Seq<FieldSpec>, code: Seq<char>)
    -> bool {
    &&& code.len() >= 4
    &&& code.take(2) == country
    &&& all_digits(code.subrange(2, 4))
    &&& shape_ok(fields, code.skip(4))
    &&& all_alnum(code)
    &&& mod97(rearranged(code)) == 1
}

impl FormatDescriptor {
    /// The descriptor keeps to the rules of its kind: a fixed text has the
    /// length of its field; check digits stand in at most one field, which
    /// is made of digits and is as long as the algorithm asks, and there is
    /// such a field exactly where the algorithm puts digits into one; a code
    /// is wrapped as an IBAN exactly where the algorithm is that of the IBAN,
    /// and then the country code is two capital letters.
    pub open spec fn wf(&self) -> bool {
        &&& forall|i: int|
            0 <= i < self.fields@.len() ==> match (#[trigger] self.fields@[i]).class {
                CharClass::Literal(t) => t@.len() == self.fields@[i].length,
                _ => true,
            }
        &&& forall|i: int|
            0 <= i < self.fields@.len() && is_check(#[trigger] self.fields@[i])
                ==> self.fields@[i].class is Digit && self.fields@[i].length == check_len(
                self.checksum,
            ) && check_len(self.checksum) > 0
        &&& forall|i: int, j: int|
            0 <= i < self.fields@.len() && 0 <= j < self.fields@.len() && is_check(
                #[trigger] self.fields@[i],
            ) && is_check(#[trigger] self.fields@[j]) ==> i == j
        &&& check_len(self.checksum) > 0 ==> exists|i: int|
            0 <= i < self.fields@.len() && is_check(#[trigger] self.fields@[i])
        &&& self.wraps_iban <==> self.checksum is Mod97Iban
        &&& self.wraps_iban ==> two_capitals(self.country_code@)
        &&& self.wraps_iban ==> forall|i: int|
            0 <= i < self.fields@.len() ==> match (#[trigger] self.fields@[i]).class {
                CharClass::Literal(t) => all_alnum(t@),
                _ => true,
            }
    }

    /// `code` is written as a generator writes it: it is valid, and where a
    /// field takes letters and digits it holds digits and capital letters
    /// only.
    pub open spec fn written(&self, code: Seq<char>) -> bool {
        self.valid(code) && drawn_ok(self.fields@, self.body(code))
    }

    /// `code` is a valid code of this descriptor. A code that is not
    /// wrapped has the shape of the fields and the check digits that the
    /// algorithm derives. A wrapped code is the country code, two digits and
    /// a text of the shape of the fields, all of letters and digits, and its
    /// rearranged text leaves the remainder one modulo 97.
    pub open spec fn valid(&self, code: Seq<char>) -> bool {
        if self.wraps_iban {
            wrapped_valid(self.country_code@, self.fields@, code)
        } else {
            shape_ok(self.fields@, code) && check_ok(self.fields@, self.checksum, code)
        }
    }
}

/// Derives the check digits of `payload`, as text.
pub fn compute_check(checksum: &ChecksumAlgorithm, payload: &[u8]) -> (text: Vec<char>)
    ensures
        text@ == check_text(*checksum, payload@),
        text@.len() == check_len(*checksum),
        all_digits(text@),
{
    let mut text: Vec<char> = Vec::new();
    match checksum {
        ChecksumAlgorithm::Luhn => {
            text.push(digit_to_char(luhn_check_digit(payload)));
        },
        ChecksumAlgorithm::Iso7064Mod11_10 => {
            text.push(digit_to_char(iso7064_mod11_10(payload)));
        },
        ChecksumAlgorithm::DoublingMod10 => {
            text.push(digit_to_char(es_cif_check(payload)));
        },
        ChecksumAlgorithm::WeightedMod97(w) => {
            let check = weighted_mod97_check(payload, w.as_slice());
            text.push(digit_to_char(check / 10));
            text.push(digit_to_char(check % 10));
        },
        ChecksumAlgorithm::Mod97Iban => {},
        ChecksumAlgorithm::NoChecksum => {},
    }
    assert(text@ =~= check_text(*checksum, payload@));
    text
}

/// Whether every field of check digits in `code`, a code of the shape of
/// `fields`, holds what the algorithm derives.
pub fn check_digits(fields: &Vec<FieldSpec>, checksum: &ChecksumAlgorithm, code: &Vec<char>) -> (r:
    bool)
    requires
        shape_ok(fields@, code@),
    ensures
        r == check_ok(fields@, *checksum, code@),
{
    let mut off: usize = 0;
    let mut i: usize = 0;
    proof {
        assert(fields@.take(0).len() == 0);
    }
    while i < fields.len()
        invariant
            i <= fields.len(),
            off <= code@.len(),
            code@.len() == total_len(fields@),
            off == offset(fields@, i as int),
            forall|k: int|
                0 <= k < i && is_check(fields@[k]) ==> #[trigger] piece(fields@, code@, k)
                    == check_text(*checksum, digit_values(code@.take(offset(fields@, k)))),
        decreases fields.len() - i,
    {
        let f = fields[i];
        proof {
            lemma_offset_step(fields@, i as int);
            lemma_offset_rises(fields@, i + 1, fields@.len() as int);
        }
        let n = code.len();
        match f.role {
            Role::CheckDigit => {
                let payload = digits_before(code, off);
                let expected = compute_check(checksum, payload.as_slice());
                if expected.len() != f.length as usize || !text_at(code, off, &expected) {
                    assert(piece(fields@, code@, i as int) != expected@);
                    return false;
                }
            },
            _ => {},
        }
        off = off + f.length as usize;
        i += 1;
    }
    true
}

/// A copy of the characters of `v` from place `from` up to, not
/// including, place `to`.
pub fn copy_between(v: &Vec<char>, from: usize, to: usize) -> (out: Vec<char>)
    requires
        from <= to <= v@.len(),
    ensures
        out@ == v@.subrange(from as int, to as int),
{
    let mut out: Vec<char> = Vec::new();
    let mut i: usize = from;
    while i < to
        invariant
            from <= i <= to <= v@.len(),
            out@ == v@.subrange(from as int, i as int),
        decreases to - i,
    {
        out.push(v[i]);
        assert(out@ =~= v@.subrange(from as int, i + 1));
        i += 1;
    }
    out
}

/// The characters of `code`, at least four, with the first four moved to
/// the end.
pub fn rearrange(code: &Vec<char>) -> (out: Vec<char>)
    requires
        code@.len() >= 4,
    ensures
        out@ == rearranged(code@),
{
    let mut out = copy_between(code, 4, code.len());
    let mut i: usize = 0;
    while i < 4
        invariant
            i <= 4 <= code@.len(),
            out@ == code@.skip(4) + code@.take(i as int),
        decreases 4 - i,
    {
        out.push(code[i]);
        assert(out@ =~= code@.skip(4) + code@.take(i + 1));
        i += 1;
    }
    out
}

/// Letters and digits stay letters and digits when they are rearranged.
pub proof fn lemma_rearranged_alnum(code: Seq<char>)
    requires
        code.len() >= 4,
        all_alnum(code),
    ensures
        all_alnum(rearranged(code)),
{
    let r = rearranged(code);
    assert forall|i: int| 0 <= i < r.len() implies is_alnum(#[trigger] r[i]) by {
        if i < code.len() - 4 {
            assert(r[i] == code[i + 4]);
        } else {
            assert(r[i] == code[i - (code.len() - 4)]);
        }
    }
}

/// Whether `code` is a valid code of the descriptor.
pub fn validate_chars(desc: &FormatDescriptor, code: &Vec<char>) -> (r: bool)
    ensures
        r == desc.valid(code@),
{
    if desc.wraps_iban {
        let n = code.len();
        if n < 4 {
            return false;
        }
        let country = chars_of(desc.country_code.as_str());
        if country.len() != 2 || !text_at(code, 0, &country) {
            assert(code@.take(2) =~= code@.subrange(0, 2));
            return false;
        }
        assert(code@.take(2) =~= code@.subrange(0, 2));
        if !digits_between(code, 2, 4) {
            return false;
        }
        let bban = copy_between(code, 4, n);
        assert(bban@ =~= code@.skip(4));
        if !check_shape(&desc.fields, &bban) {
            return false;
        }
        assert(code@.subrange(0, n as int) =~= code@);
        if !alnum_between(code, 0, n) {
            return false;
        }
        let turned = rearrange(code);
        proof {
            lemma_rearranged_alnum(code@);
        }
        mod97_remainder(turned.as_slice()) == 1
    } else {
        check_shape(&desc.fields, code) && check_digits(&desc.fields, &desc.checksum, code)
    }
}

/// Whether `code` is a valid code of the descriptor: of the right length,
/// each field of its class, and with the check digits that the algorithm
/// derives.
pub fn validate_with(desc: &FormatDescriptor, code: &str) -> (r: bool)
    ensures
        r == desc.valid(code@),
{
    let chars = chars_of(code);
    validate_chars(desc, &chars)
}

/// Draws the characters of a field: the fixed text of a literal field,
/// digits, capital letters, or, for letters and digits, a digit three times
/// out of five and a capital letter otherwise.
pub fn draw_field(class: &CharClass, length: u8, rng: &mut StdRng) -> (text: Vec<char>)
    requires
        match *class {
            CharClass::Literal(t) => t@.len() == length,
            _ => true,
        },
    ensures
        text@.len() == length,
        class_ok(*class, text@),
        class_drawn(*class, text@),
{
    match class {
        CharClass::Literal(t) => chars_of(t),
        _ => {
            let mut text: Vec<char> = Vec::new();
            let mut i: u8 = 0;
            while i < length
                invariant
                    i <= length,
                    text@.len() == i,
                    !(*class is Literal),
                    class_ok(*class, text@),
                    class_drawn(*class, text@),
                decreases length - i,
            {
                let c = match class {
                    CharClass::Digit => digit_to_char(draw_digit(rng)),
                    CharClass::UpperAlpha => draw_upper(rng),
                    _ => draw_alnum(rng),
                };
                text.push(c);
                i += 1;
            }
            text
        },
    }
}

/// Adds the characters of `text` to the end of `out`.
pub fn push_all(out: &mut Vec<char>, text: &Vec<char>)
    ensures
        final(out)@ == old(out)@ + text@,
{
    let mut i: usize = 0;
    assert(out@ =~= old(out)@ + text@.take(0));
    while i < text.len()
        invariant
            i <= text.len(),
            out@ == old(out)@ + text@.take(i as int),
        decreases text.len() - i,
    {
        out.push(text[i]);
        assert(out@ =~= old(out)@ + text@.take(i + 1));
        i += 1;
    }
    assert(text@.take(text@.len() as int) =~= text@);
}

/// `bank` may stand in the field `f` in place of drawn characters: the
/// field stands for the bank code, and `bank` has its length and is made of
/// characters that a generator draws for its class.
pub open spec fn preset_fits(f: FieldSpec, bank: Option<Seq<char>>) -> bool {
    &&& f.role is BankCode
    &&& bank is Some
    &&& bank->0.len() == f.length
    &&& class_ok(f.class, bank->0)
    &&& class_drawn(f.class, bank->0)
}

/// The characters of a bank code that is asked for; none where none is.
pub open spec fn preset_of(bank: Option<Vec<char>>) -> Option<Seq<char>> {
    match bank {
        Some(b) => Some(b@),
        None => None,
    }
}

/// Every bank code field that the bank code asked for fits holds it.
pub open spec fn preset_ok(fields: Seq<FieldSpec>, bank: Option<Seq<char>>, code: Seq<char>)
    -> bool {
    forall|i: int|
        0 <= i < fields.len() && preset_fits(fields[i], bank) ==> #[trigger] piece(fields, code, i)
            == bank->0
}

/// Whether `text` may stand in a field of the class `class` and the length
/// `length` in place of drawn characters.
pub fn fits_field(class: &CharClass, length: u8, text: &Vec<char>) -> (r: bool)
    ensures
        r == (text@.len() == length && class_ok(*class, text@) && class_drawn(*class, text@)),
{
    if text.len() != length as usize {
        return false;
    }
    assert(text@.subrange(0, 0 + length) =~= text@);
    if !check_class(class, text, 0, length) {
        return false;
    }
    match class {
        CharClass::AlphaNumeric => {
            let mut i: usize = 0;
            while i < text.len()
                invariant
                    i <= text.len(),
                    *class is AlphaNumeric,
                    forall|k: int| 0 <= k < i ==> is_digit(#[trigger] text@[k]) || is_upper(text@[k]),
                decreases text.len() - i,
            {
                let c = text[i];
                if !(('0' <= c && c <= '9') || ('A' <= c && c <= 'Z')) {
                    assert(!(is_digit(text@[i as int]) || is_upper(text@[i as int])));
                    return false;
                }
                i += 1;
            }
            true
        },
        _ => true,
    }
}

/// Writes the fields of a code one after another: each field that holds
/// check digits gets what the algorithm derives from the digits written
/// before it, a bank code field gets the bank code asked for where that
/// fits, and every other field is drawn.
pub fn generate_fields(desc: &FormatDescriptor, bank: &Option<Vec<char>>, rng: &mut StdRng) -> (out:
    Vec<char>)
    requires
        desc.wf(),
    ensures
        shape_ok(desc.fields@, out@),
        check_ok(desc.fields@, desc.checksum, out@),
        drawn_ok(desc.fields@, out@),
        preset_ok(desc.fields@, preset_of(*bank), out@),
{
    let fields = &desc.fields;
    let mut out: Vec<char> = Vec::new();
    let mut i: usize = 0;
    proof {
        assert(fields@.take(0).len() == 0);
    }
    while i < fields.len()
        invariant
            i <= fields.len(),
            fields == &desc.fields,
            desc.wf(),
            out@.len() == offset(fields@, i as int),
            forall|k: int|
                0 <= k < i ==> class_ok(fields@[k].class, #[trigger] piece(fields@, out@, k)),
            forall|k: int|
                0 <= k < i ==> class_drawn(fields@[k].class, #[trigger] piece(fields@, out@, k)),
            forall|k: int|
                0 <= k < i && is_check(fields@[k]) ==> #[trigger] piece(fields@, out@, k)
                    == check_text(desc.checksum, digit_values(out@.take(offset(fields@, k)))),
            forall|k: int|
                0 <= k < i && preset_fits(fields@[k], preset_of(*bank)) ==> #[trigger] piece(
                    fields@,
                    out@,
                    k,
                ) == preset_of(*bank)->0,
        decreases fields.len() - i,
    {
        let f = fields[i];
        let ghost before = out@;
        let text: Vec<char> = match f.role {
            Role::CheckDigit => {
                assert(is_check(fields@[i as int]));
                let payload = digits_in(&out);
                compute_check(&desc.checksum, payload.as_slice())
            },
            Role::BankCode => {
                match bank {
                    Some(b) => {
                        if fits_field(&f.class, f.length, b) {
                            copy_between(b, 0, b.len())
                        } else {
                            draw_field(&f.class, f.length, rng)
                        }
                    },
                    None => draw_field(&f.class, f.length, rng),
                }
            },
            _ => draw_field(&f.class, f.length, rng),
        };
        push_all(&mut out, &text);
        proof {
            lemma_offset_step(fields@, i as int);
            assert(before.take(before.len() as int) =~= before);
            assert(piece(fields@, out@, i as int) =~= text@);
            assert(out@.take(offset(fields@, i as int)) =~= before);
            if preset_fits(fields@[i as int], preset_of(*bank)) {
                assert(bank->0@.subrange(0, bank->0@.len() as int) =~= bank->0@);
            }
            assert forall|k: int| 0 <= k < i implies #[trigger] piece(fields@, out@, k) == piece(
                fields@,
                before,
                k,
            ) && out@.take(offset(fields@, k)) == before.take(offset(fields@, k)) by {
                lemma_offset_step(fields@, k);
                lemma_offset_rises(fields@, k + 1, i as int);
                lemma_offset_rises(fields@, 0, k);
                assert(piece(fields@, out@, k) =~= piece(fields@, before, k));
                assert(out@.take(offset(fields@, k)) =~= before.take(offset(fields@, k)));
            }
        }
        i += 1;
    }
    proof {
        assert(fields@.take(fields@.len() as int) =~= fields@);
    }
    out
}

/// A text made of characters of a class whose fixed texts are letters and
/// digits is made of letters and digits.
pub proof fn lemma_class_alnum(class: CharClass, text: Seq<char>)
    requires
        class_ok(class, text),
        match class {
            CharClass::Literal(t) => all_alnum(t@),
            _ => true,
        },
    ensures
        all_alnum(text),
{
    assert forall|i: int| 0 <= i < text.len() implies is_alnum(#[trigger] text[i]) by {
        match class {
            CharClass::Digit => {
                assert(is_digit(text[i]));
            },
            CharClass::UpperAlpha => {
                assert(is_upper(text[i]));
            },
            _ => {},
        }
    }
}

/// A code of the shape of fields whose fixed texts are letters and digits
/// is made of letters and digits up to the start of each field.
pub proof fn lemma_shape_alnum(fields: Seq<FieldSpec>, code: Seq<char>, i: int)
    requires
        shape_ok(fields, code),
        0 <= i <= fields.len(),
        forall|k: int|
            0 <= k < fields.len() ==> match (#[trigger] fields[k]).class {
                CharClass::Literal(t) => all_alnum(t@),
                _ => true,
            },
    ensures
        0 <= offset(fields, i) <= code.len(),
        all_alnum(code.take(offset(fields, i))),
    decreases i,
{
    lemma_offset_rises(fields, i, fields.len() as int);
    if i == 0 {
        assert(fields.take(0).len() == 0);
    } else {
        lemma_shape_alnum(fields, code, i - 1);
        lemma_offset_step(fields, i - 1);
        let from = offset(fields, i - 1);
        let to = offset(fields, i);
        assert(class_ok(fields[i - 1].class, piece(fields, code, i - 1)));
        lemma_class_alnum(fields[i - 1].class, piece(fields, code, i - 1));
        assert forall|p: int| 0 <= p < to implies is_alnum(#[trigger] code.take(to)[p]) by {
            if p < from {
                assert(code.take(from)[p] == code[p]);
            } else {
                assert(piece(fields, code, i - 1)[p - from] == code[p]);
            }
        }
    }
}

/// Generates a code of the descriptor: the fields are written in order,
/// with the bank code asked for where it fits, and where the descriptor
/// wraps the code as an IBAN, the country code and the two check digits of
/// the IBAN are put before them. What is generated is a valid code of the
/// descriptor.
pub fn generate_with_bank(desc: &FormatDescriptor, bank: &Option<Vec<char>>, rng: &mut StdRng) -> (code:
    String)
    requires
        desc.wf(),
    ensures
        desc.valid(code@),
        desc.written(code@),
        desc.wraps_iban ==> code@ == iban_text(desc.country_code@, code@.skip(4)),
        preset_ok(desc.fields@, preset_of(*bank), desc.body(code@)),
{
    let body = generate_fields(desc, bank, rng);
    if desc.wraps_iban {
        let country = chars_of(desc.country_code.as_str());
        proof {
            lemma_shape_alnum(desc.fields@, body@, desc.fields@.len() as int);
            assert(desc.fields@.take(desc.fields@.len() as int) =~= desc.fields@);
            assert(body@.take(body@.len() as int) =~= body@);
            assert(is_upper(country@[0]) && is_upper(country@[1]));
        }
        let code = wrap_iban(&country, &body);
        proof {
            lemma_iban_remainder_is_one(country@, body@);
            let k = iban_check(country@, body@);
            assert(code@.take(2) =~= country@);
            assert(code@.subrange(2, 4) =~= two_digits(k));
            assert(code@.skip(4) =~= body@);
            assert forall|p: int| 0 <= p < code@.len() implies is_alnum(#[trigger] code@[p]) by {
                if p < 2 {
                    assert(code@[p] == country@[p]);
                } else if p < 4 {
                    assert(code@[p] == two_digits(k)[p - 2]);
                } else {
                    assert(code@[p] == body@[p - 4]);
                }
            }
        }
        string_of(&code)
    } else {
        string_of(&body)
    }
}

/// Generates a code of the descriptor with every field drawn or derived.
/// What is generated is a valid code of the descriptor.
pub fn generate_with(desc: &FormatDescriptor, rng: &mut StdRng) -> (code: String)
    requires
        desc.wf(),
    ensures
        desc.valid(code@),
        desc.written(code@),
        desc.wraps_iban ==> code@ == iban_text(desc.country_code@, code@.skip(4)),
{
    generate_with_bank(desc, &None, rng)
}

/// The fields of a code by what they stand for.
#[derive(Clone, Debug)]
pub struct ParsedFields {
    /// The characters of the bank code fields.
    pub bank_code: String,
    /// The characters of the branch code fields.
    pub branch_code: String,
    /// The characters of the account number fields.
    pub account_number: String,
    /// The check digits: those of the check digit field, or, for a code
    /// wrapped as an IBAN, the two check digits of the IBAN.
    pub check_digits: String,
}

/// The characters of the fields among the first `i` that stand for `role`,
/// one field after another.
pub open spec fn role_text(fields: Seq<FieldSpec>, code: Seq<char>, role: Role, i: int) -> Seq<
    char,
>
    decreases i,
{
    if i <= 0 {
        Seq::empty()
    } else if fields[i - 1].role == role {
        role_text(fields, code, role, i - 1) + piece(fields, code, i - 1)
    } else {
        role_text(fields, code, role, i - 1)
    }
}

impl FormatDescriptor {
    /// The part of `code` that the fields describe: all of it, or, for a
    /// code wrapped as an IBAN, what follows the first four characters.
    pub open spec fn body(&self, code: Seq<char>) -> Seq<char> {
        if self.wraps_iban {
            code.skip(4)
        } else {
            code
        }
    }

    /// `parsed` is the field breakdown of `code`.
    pub open spec fn parsed_as(&self, code: Seq<char>, parsed: ParsedFields) -> bool {
        let n = self.fields@.len() as int;
        &&& parsed.bank_code@ == role_text(self.fields@, self.body(code), Role::BankCode, n)
        &&& parsed.branch_code@ == role_text(self.fields@, self.body(code), Role::BranchCode, n)
        &&& parsed.account_number@ == role_text(
            self.fields@,
            self.body(code),
            Role::AccountNumber,
            n,
        )
        &&& parsed.check_digits@ == if self.wraps_iban {
            code.subrange(2, 4)
        } else {
            role_text(self.fields@, code, Role::CheckDigit, n)
        }
    }
}

/// The characters of the fields that stand for `role` in `body`, a text of
/// the shape of `fields`.
pub fn collect_role(fields: &Vec<FieldSpec>, body: &Vec<char>, role: Role) -> (out: Vec<char>)
    requires
        shape_ok(fields@, body@),
    ensures
        out@ == role_text(fields@, body@, role, fields@.len() as int),
{
    let mut out: Vec<char> = Vec::new();
    let mut off: usize = 0;
    let mut i: usize = 0;
    proof {
        assert(fields@.take(0).len() == 0);
    }
    while i < fields.len()
        invariant
            i <= fields.len(),
            off <= body@.len(),
            body@.len() == total_len(fields@),
            off == offset(fields@, i as int),
            out@ == role_text(fields@, body@, role, i as int),
        decreases fields.len() - i,
    {
        let f = fields[i];
        proof {
            lemma_offset_step(fields@, i as int);
            lemma_offset_rises(fields@, i + 1, fields@.len() as int);
        }
        let n = body.len();
        let to: usize = off + f.length as usize;
        if f.role == role {
            let text = copy_between(body, off, to);
            push_all(&mut out, &text);
        }
        off = to;
        i += 1;
    }
    out
}

/// Breaks `code` into its fields: `None` where the code is not a valid code
/// of the descriptor, and else the characters of the bank code, the branch
/// code, the account number and the check digits.
pub fn parse_with(desc: &FormatDescriptor, code: &str) -> (r: Option<ParsedFields>)
    ensures
        r is Some <==> desc.valid(code@),
        r is Some ==> desc.parsed_as(code@, r->0),
{
    let chars = chars_of(code);
    if !validate_chars(desc, &chars) {
        return None;
    }
    let body: Vec<char> = if desc.wraps_iban {
        let b = copy_between(&chars, 4, chars.len());
        assert(b@ =~= chars@.skip(4));
        b
    } else {
        copy_between(&chars, 0, chars.len())
    };
    assert(chars@.subrange(0, chars@.len() as int) =~= chars@);
    let bank = collect_role(&desc.fields, &body, Role::BankCode);
    let branch = collect_role(&desc.fields, &body, Role::BranchCode);
    let account = collect_role(&desc.fields, &body, Role::AccountNumber);
    let check: Vec<char> = if desc.wraps_iban {
        copy_between(&chars, 2, 4)
    } else {
        collect_role(&desc.fields, &body, Role::CheckDigit)
    };
    Some(
        ParsedFields {
            bank_code: string_of(&bank),
            branch_code: string_of(&branch),
            account_number: string_of(&account),
            check_digits: string_of(&check),
        },
    )
}

/// How many check digits the algorithm puts into a field.
pub fn check_length(checksum: &ChecksumAlgorithm) -> (n: u8)
    ensures
        n == check_len(*checksum),
{
    match checksum {
        ChecksumAlgorithm::Luhn => 1,
        ChecksumAlgorithm::Iso7064Mod11_10 => 1,
        ChecksumAlgorithm::DoublingMod10 => 1,
        ChecksumAlgorithm::WeightedMod97(_) => 2,
        ChecksumAlgorithm::Mod97Iban => 0,
        ChecksumAlgorithm::NoChecksum => 0,
    }
}

impl FormatDescriptor {
    /// Whether the descriptor keeps to the rules of its kind.
    pub fn is_well_formed(&self) -> (r: bool)
        ensures
            r == self.wf(),
    {
        let need = check_length(&self.checksum);
        let iban = match self.checksum {
            ChecksumAlgorithm::Mod97Iban => true,
            _ => false,
        };
        if self.wraps_iban != iban {
            return false;
        }
        if self.wraps_iban {
            let country = chars_of(self.country_code.as_str());
            if country.len() != 2 || !char_is_upper(country[0]) || !char_is_upper(country[1]) {
                return false;
            }
        }
        let mut found = false;
        let ghost mut at: int = 0;
        let mut i: usize = 0;
        while i < self.fields.len()
            invariant
                i <= self.fields.len(),
                need == check_len(self.checksum),
                forall|k: int|
                    0 <= k < i ==> match (#[trigger] self.fields@[k]).class {
                        CharClass::Literal(t) => t@.len() == self.fields@[k].length && (
                        self.wraps_iban ==> all_alnum(t@)),
                        _ => true,
                    },
                forall|k: int|
                    0 <= k < i && is_check(#[trigger] self.fields@[k]) ==> self.fields@[k].class is Digit
                        && self.fields@[k].length == need && need > 0,
                found ==> 0 <= at < i && is_check(self.fields@[at]),
                forall|k: int| 0 <= k < i && is_check(#[trigger] self.fields@[k]) ==> found && k == at,
            decreases self.fields.len() - i,
        {
            let f = self.fields[i];
            match f.class {
                CharClass::Literal(t) => {
                    let text = chars_of(t);
                    if text.len() != f.length as usize {
                        return false;
                    }
                    assert(text@.subrange(0, text@.len() as int) =~= text@);
                    if self.wraps_iban && !alnum_between(&text, 0, text.len()) {
                        return false;
                    }
                },
                _ => {},
            }
            match f.role {
                Role::CheckDigit => {
                    let digit = match f.class {
                        CharClass::Digit => true,
                        _ => false,
                    };
                    if !digit || f.length != need || need == 0 {
                        return false;
                    }
                    if found {
                        assert(is_check(self.fields@[at]) && is_check(self.fields@[i as int]));
                        return false;
                    }
                    found = true;
                    proof {
                        at = i as int;
                    }
                },
                _ => {},
            }
            i += 1;
        }
        if need > 0 && !found {
            return false;
        }
        true
    }
}

/// Every character of `s` is a digit or a capital letter.
pub open spec fn all_plain(s: Seq<char>) -> bool {
    forall|i: int| 0 <= i < s.len() ==> is_digit(#[trigger] s[i]) || is_upper(s[i])
}

/// A text as a generator draws it for fields without fixed texts is made
/// of digits and capital letters, up to the start of each field.
pub proof fn lemma_drawn_plain(fields: Seq<FieldSpec>, code: Seq<char>, i: int)
    requires
        code.len() == total_len(fields),
        drawn_ok(fields, code),
        0 <= i <= fields.len(),
        forall|k: int| 0 <= k < fields.len() ==> !((#[trigger] fields[k]).class is Literal),
    ensures
        0 <= offset(fields, i) <= code.len(),
        all_plain(code.take(offset(fields, i))),
    decreases i,
{
    lemma_offset_rises(fields, i, fields.len() as int);
    if i == 0 {
        assert(fields.take(0).len() == 0);
    } else {
        lemma_drawn_plain(fields, code, i - 1);
        lemma_offset_step(fields, i - 1);
        let from = offset(fields, i - 1);
        let to = offset(fields, i);
        let text = piece(fields, code, i - 1);
        assert(class_drawn(fields[i - 1].class, text));
        assert(!(fields[i - 1].class is Literal));
        assert forall|p: int| 0 <= p < to implies is_digit(#[trigger] code.take(to)[p])
            || is_upper(code.take(to)[p]) by {
            if p < from {
                assert(code.take(from)[p] == code[p]);
            } else {
                assert(text[p - from] == code[p]);
                match fields[i - 1].class {
                    CharClass::Digit => {
                        assert(is_digit(text[p - from]));
                    },
                    CharClass::UpperAlpha => {
                        assert(is_upper(text[p - from]));
                    },
                    _ => {},
                }
            }
        }
    }
}

/// A changed check digit field is detected: where a code that is not
/// wrapped is valid, a text that agrees with it up to the start of a check
/// digit field and holds other characters in that field is not valid,
/// whatever follows.
pub proof fn lemma_check_field_mutation(desc: FormatDescriptor, s: Seq<char>, t: Seq<char>, k: int)
    requires
        !desc.wraps_iban,
        desc.valid(s),
        0 <= k < desc.fields@.len(),
        is_check(desc.fields@[k]),
        t.take(offset(desc.fields@, k)) == s.take(offset(desc.fields@, k)),
        piece(desc.fields@, t, k) != piece(desc.fields@, s, k),
    ensures
        !desc.valid(t),
{
    let expected = check_text(desc.checksum, digit_values(s.take(offset(desc.fields@, k))));
    assert(piece(desc.fields@, s, k) == expected);
    if desc.valid(t) {
        assert(piece(desc.fields@, t, k) == expected);
    }
}

/// A replaced digit is detected in a wrapped code: where a text is a valid
/// IBAN of a country and a shape, the text with one of its digits replaced
/// by another digit is not.
pub proof fn lemma_wrapped_detects_substitution(
    country: Seq<char>,
    fields: Seq<FieldSpec>,
    s: Seq<char>,
    i: int,
    c: char,
)
    requires
        wrapped_valid(country, fields, s),
        0 <= i < s.len(),
        is_digit(s[i]),
        is_digit(c),
        c != s[i],
    ensures
        mod97(rearranged(s.update(i, c))) != 1,
        forall|other: Seq<char>, shape: Seq<FieldSpec>|
            !wrapped_valid(other, shape, #[trigger] s.update(i, c)),
{
    let t = s.update(i, c);
    let j = if i >= 4 {
        i - 4
    } else {
        s.len() - 4 + i
    };
    assert(rearranged(t) =~= rearranged(s).update(j, c));
    assert(rearranged(s)[j] == s[i]);
    lemma_mod97_detects_substitution(rearranged(s), j, c);
}

} // verus!
