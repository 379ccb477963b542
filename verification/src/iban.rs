//! International bank account numbers: a country code, two check digits and
//! the country's domestic account number, under the mod-97 rule.

use vstd::prelude::*;
use crate::checksum::{expanded_value, mod97, mod97_remainder, lemma_expanded_nonneg};
use rand::rngs::StdRng;
use crate::format::{
    rearranged, CharClass, Role, FieldSpec, FormatDescriptor, ChecksumAlgorithm, wrapped_valid,
    is_check, copy_between, validate_chars, generate_with, all_plain, drawn_ok,
    lemma_drawn_plain, lemma_wrapped_detects_substitution,
};
use crate::grouping::{formatted, group_text, group_chars};
use crate::listing::{names, distinct};
use crate::random::draw_index;
use crate::text::{
    is_digit, is_alnum, is_upper, all_alnum, two_capitals, two_digits, digit_char, digit_value,
    push_two_digits, upper, chars_of, upper_chars, string_of, is_text, lemma_capitals_stay,
};

verus! {

/// A generated IBAN with the country it belongs to.
#[derive(Debug, Clone)]
pub struct IbanResult {
    /// The two-letter country code.
    pub country: String,
    /// The IBAN without separators.
    pub iban: String,
    /// The IBAN in groups of four characters.
    pub formatted: String,
    /// Whether the IBAN passes validation.
    pub valid: bool,
}

/// Two zeros, which stand in for the check digits while they are derived.
pub open spec fn zeros() -> Seq<char> {
    seq!['0', '0']
}

/// The check digits of the IBAN of a country and a domestic account number:
/// 98 less the remainder modulo 97 of the account number followed by the
/// country code and two zeros.
pub open spec fn iban_check(country: Seq<char>, bban: Seq<char>) -> int {
    98 - mod97(bban + country + zeros())
}

/// The IBAN of a country and a domestic account number: the country code,
/// the two check digits, and the account number.
pub open spec fn iban_text(country: Seq<char>, bban: Seq<char>) -> Seq<char> {
    country + two_digits(iban_check(country, bban)) + bban
}

/// Two digits after a text make its expanded number a hundred times larger,
/// plus the number that the two digits write.
pub proof fn lemma_expanded_two_digits(x: Seq<char>, n: int)
    requires
        0 <= n < 100,
    ensures
        expanded_value(x + two_digits(n)) == expanded_value(x) * 100 + n,
{
    let a = digit_char(n / 10);
    let b = digit_char(n % 10);
    let full = x + two_digits(n);
    assert(is_digit(a) && is_digit(b));
    assert(full.last() == b);
    assert(full.drop_last() =~= x + seq![a]);
    assert((x + seq![a]).last() == a);
    assert((x + seq![a]).drop_last() =~= x);
    assert(digit_value(a) == n / 10);
    assert(digit_value(b) == n % 10);
    assert(expanded_value(x + seq![a]) == expanded_value(x) * 10 + n / 10);
    assert(expanded_value(full) == expanded_value(x + seq![a]) * 10 + n % 10);
}

/// The mod-97 law of the IBAN: whatever the country code and the account
/// number, as long as they are letters and digits, the check digits lie
/// between 2 and 98, and the IBAN made with them, rearranged, leaves the
/// remainder one modulo 97.
pub proof fn lemma_iban_remainder_is_one(country: Seq<char>, bban: Seq<char>)
    requires
        country.len() == 2,
        all_alnum(country),
        all_alnum(bban),
    ensures
        2 <= iban_check(country, bban) <= 98,
        rearranged(iban_text(country, bban)) == bban + country + two_digits(
            iban_check(country, bban),
        ),
        mod97(rearranged(iban_text(country, bban))) == 1,
{
    let x = bban + country;
    let k = iban_check(country, bban);
    assert forall|i: int| 0 <= i < x.len() implies is_alnum(#[trigger] x[i]) by {
        if i < bban.len() {
            assert(x[i] == bban[i]);
        } else {
            assert(x[i] == country[i - bban.len()]);
        }
    }
    lemma_expanded_nonneg(x);
    assert(zeros() =~= two_digits(0));
    lemma_expanded_two_digits(x, 0);
    lemma_expanded_two_digits(x, k);
    let e = expanded_value(x);
    assert((e * 100 + (98 - (e * 100) % 97)) % 97 == 1) by (nonlinear_arith)
        requires
            e >= 0,
    ;
    let text = iban_text(country, bban);
    assert(text.skip(4) =~= bban);
    assert(text.take(4) =~= country + two_digits(k));
    assert(rearranged(text) =~= x + two_digits(k));
}

/// Derives the two check digits of an IBAN.
pub fn iban_check_digits(country: &Vec<char>, bban: &Vec<char>) -> (check: u8)
    requires
        country@.len() == 2,
        all_alnum(country@),
        all_alnum(bban@),
    ensures
        check == iban_check(country@, bban@),
        2 <= check <= 98,
{
    let mut text: Vec<char> = Vec::new();
    let mut i: usize = 0;
    while i < bban.len()
        invariant
            i <= bban.len(),
            text@ == bban@.take(i as int),
        decreases bban.len() - i,
    {
        text.push(bban[i]);
        assert(text@ =~= bban@.take(i + 1));
        i += 1;
    }
    assert(bban@.take(bban@.len() as int) =~= bban@);
    text.push(country[0]);
    text.push(country[1]);
    text.push('0');
    text.push('0');
    assert(text@ =~= bban@ + country@ + zeros());
    assert forall|k: int| 0 <= k < text@.len() implies is_alnum(#[trigger] text@[k]) by {
        if k < bban@.len() {
            assert(text@[k] == bban@[k]);
        } else if k < bban@.len() + 2 {
            assert(text@[k] == country@[k - bban@.len()]);
        }
    }
    let rem = mod97_remainder(text.as_slice());
    (98 - rem) as u8
}

/// Writes the IBAN of a country and a domestic account number.
pub fn wrap_iban(country: &Vec<char>, bban: &Vec<char>) -> (code: Vec<char>)
    requires
        country@.len() == 2,
        all_alnum(country@),
        all_alnum(bban@),
    ensures
        code@ == iban_text(country@, bban@),
        mod97(rearranged(code@)) == 1,
{
    let check = iban_check_digits(country, bban);
    let mut code: Vec<char> = Vec::new();
    code.push(country[0]);
    code.push(country[1]);
    assert(code@ =~= country@);
    push_two_digits(&mut code, check);
    let ghost head = code@;
    let mut i: usize = 0;
    while i < bban.len()
        invariant
            i <= bban.len(),
            code@ == head + bban@.take(i as int),
        decreases bban.len() - i,
    {
        code.push(bban[i]);
        assert(code@ =~= head + bban@.take(i + 1));
        i += 1;
    }
    assert(bban@.take(bban@.len() as int) =~= bban@);
    proof {
        lemma_iban_remainder_is_one(country@, bban@);
    }
    code
}

/// One field of a country's domestic account number.
#[derive(Clone, Copy, Debug)]
pub struct BbanField {
    /// The two-letter country code.
    pub country: &'static str,
    /// The characters that the field may hold.
    pub class: CharClass,
    /// How many characters the field holds.
    pub length: u8,
    /// What the field stands for.
    pub role: Role,
}

/// The fields of the domestic account numbers of the supported countries:
/// the fields of one country stand together and in the order in which they
/// are written.
pub open spec fn bban_table() -> Seq<BbanField> {
    seq![
        BbanField { country: "AT", class: CharClass::Digit, length: 5, role: Role::BankCode },
        BbanField { country: "AT", class: CharClass::Digit, length: 11, role: Role::AccountNumber },
        BbanField { country: "BE", class: CharClass::Digit, length: 3, role: Role::BankCode },
        BbanField { country: "BE", class: CharClass::Digit, length: 7, role: Role::AccountNumber },
        BbanField { country: "BE", class: CharClass::Digit, length: 2, role: Role::Free },
        BbanField { country: "CH", class: CharClass::Digit, length: 5, role: Role::BankCode },
        BbanField { country: "CH", class: CharClass::AlphaNumeric, length: 12, role: Role::AccountNumber },
        BbanField { country: "CZ", class: CharClass::Digit, length: 4, role: Role::BankCode },
        BbanField { country: "CZ", class: CharClass::Digit, length: 16, role: Role::AccountNumber },
        BbanField { country: "DE", class: CharClass::Digit, length: 8, role: Role::BankCode },
        BbanField { country: "DE", class: CharClass::Digit, length: 10, role: Role::AccountNumber },
        BbanField { country: "DK", class: CharClass::Digit, length: 4, role: Role::BankCode },
        BbanField { country: "DK", class: CharClass::Digit, length: 10, role: Role::AccountNumber },
        BbanField { country: "ES", class: CharClass::Digit, length: 4, role: Role::BankCode },
        BbanField { country: "ES", class: CharClass::Digit, length: 4, role: Role::BranchCode },
        BbanField { country: "ES", class: CharClass::Digit, length: 2, role: Role::Free },
        BbanField { country: "ES", class: CharClass::Digit, length: 10, role: Role::AccountNumber },
        BbanField { country: "FI", class: CharClass::Digit, length: 3, role: Role::BankCode },
        BbanField { country: "FI", class: CharClass::Digit, length: 11, role: Role::AccountNumber },
        BbanField { country: "FR", class: CharClass::Digit, length: 5, role: Role::BankCode },
        BbanField { country: "FR", class: CharClass::Digit, length: 5, role: Role::BranchCode },
        BbanField { country: "FR", class: CharClass::AlphaNumeric, length: 11, role: Role::AccountNumber },
        BbanField { country: "FR", class: CharClass::Digit, length: 2, role: Role::Free },
        BbanField { country: "GB", class: CharClass::UpperAlpha, length: 4, role: Role::BankCode },
        BbanField { country: "GB", class: CharClass::Digit, length: 6, role: Role::BranchCode },
        BbanField { country: "GB", class: CharClass::Digit, length: 8, role: Role::AccountNumber },
        BbanField { country: "IE", class: CharClass::UpperAlpha, length: 4, role: Role::BankCode },
        BbanField { country: "IE", class: CharClass::Digit, length: 6, role: Role::BranchCode },
        BbanField { country: "IE", class: CharClass::Digit, length: 8, role: Role::AccountNumber },
        BbanField { country: "IT", class: CharClass::UpperAlpha, length: 1, role: Role::Free },
        BbanField { country: "IT", class: CharClass::Digit, length: 5, role: Role::BankCode },
        BbanField { country: "IT", class: CharClass::Digit, length: 5, role: Role::BranchCode },
        BbanField { country: "IT", class: CharClass::AlphaNumeric, length: 12, role: Role::AccountNumber },
        BbanField { country: "LU", class: CharClass::Digit, length: 3, role: Role::BankCode },
        BbanField { country: "LU", class: CharClass::AlphaNumeric, length: 13, role: Role::AccountNumber },
        BbanField { country: "NL", class: CharClass::UpperAlpha, length: 4, role: Role::BankCode },
        BbanField { country: "NL", class: CharClass::Digit, length: 10, role: Role::AccountNumber },
        BbanField { country: "NO", class: CharClass::Digit, length: 4, role: Role::BankCode },
        BbanField { country: "NO", class: CharClass::Digit, length: 6, role: Role::AccountNumber },
        BbanField { country: "NO", class: CharClass::Digit, length: 1, role: Role::Free },
        BbanField { country: "PL", class: CharClass::Digit, length: 8, role: Role::BankCode },
        BbanField { country: "PL", class: CharClass::Digit, length: 16, role: Role::AccountNumber },
        BbanField { country: "PT", class: CharClass::Digit, length: 4, role: Role::BankCode },
        BbanField { country: "PT", class: CharClass::Digit, length: 4, role: Role::BranchCode },
        BbanField { country: "PT", class: CharClass::Digit, length: 11, role: Role::AccountNumber },
        BbanField { country: "PT", class: CharClass::Digit, length: 2, role: Role::Free },
        BbanField { country: "SE", class: CharClass::Digit, length: 3, role: Role::BankCode },
        BbanField { country: "SE", class: CharClass::Digit, length: 17, role: Role::AccountNumber },
    ]
}

/// Builds the table of fields.
pub fn bban_catalog() -> (table: Vec<BbanField>)
    ensures
        table@ == bban_table(),
{
    let table = vec![
        BbanField { country: "AT", class: CharClass::Digit, length: 5, role: Role::BankCode },
        BbanField { country: "AT", class: CharClass::Digit, length: 11, role: Role::AccountNumber },
        BbanField { country: "BE", class: CharClass::Digit, length: 3, role: Role::BankCode },
        BbanField { country: "BE", class: CharClass::Digit, length: 7, role: Role::AccountNumber },
        BbanField { country: "BE", class: CharClass::Digit, length: 2, role: Role::Free },
        BbanField { country: "CH", class: CharClass::Digit, length: 5, role: Role::BankCode },
        BbanField { country: "CH", class: CharClass::AlphaNumeric, length: 12, role: Role::AccountNumber },
        BbanField { country: "CZ", class: CharClass::Digit, length: 4, role: Role::BankCode },
        BbanField { country: "CZ", class: CharClass::Digit, length: 16, role: Role::AccountNumber },
        BbanField { country: "DE", class: CharClass::Digit, length: 8, role: Role::BankCode },
        BbanField { country: "DE", class: CharClass::Digit, length: 10, role: Role::AccountNumber },
        BbanField { country: "DK", class: CharClass::Digit, length: 4, role: Role::BankCode },
        BbanField { country: "DK", class: CharClass::Digit, length: 10, role: Role::AccountNumber },
        BbanField { country: "ES", class: CharClass::Digit, length: 4, role: Role::BankCode },
        BbanField { country: "ES", class: CharClass::Digit, length: 4, role: Role::BranchCode },
        BbanField { country: "ES", class: CharClass::Digit, length: 2, role: Role::Free },
        BbanField { country: "ES", class: CharClass::Digit, length: 10, role: Role::AccountNumber },
        BbanField { country: "FI", class: CharClass::Digit, length: 3, role: Role::BankCode },
        BbanField { country: "FI", class: CharClass::Digit, length: 11, role: Role::AccountNumber },
        BbanField { country: "FR", class: CharClass::Digit, length: 5, role: Role::BankCode },
        BbanField { country: "FR", class: CharClass::Digit, length: 5, role: Role::BranchCode },
        BbanField { country: "FR", class: CharClass::AlphaNumeric, length: 11, role: Role::AccountNumber },
        BbanField { country: "FR", class: CharClass::Digit, length: 2, role: Role::Free },
        BbanField { country: "GB", class: CharClass::UpperAlpha, length: 4, role: Role::BankCode },
        BbanField { country: "GB", class: CharClass::Digit, length: 6, role: Role::BranchCode },
        BbanField { country: "GB", class: CharClass::Digit, length: 8, role: Role::AccountNumber },
        BbanField { country: "IE", class: CharClass::UpperAlpha, length: 4, role: Role::BankCode },
        BbanField { country: "IE", class: CharClass::Digit, length: 6, role: Role::BranchCode },
        BbanField { country: "IE", class: CharClass::Digit, length: 8, role: Role::AccountNumber },
        BbanField { country: "IT", class: CharClass::UpperAlpha, length: 1, role: Role::Free },
        BbanField { country: "IT", class: CharClass::Digit, length: 5, role: Role::BankCode },
        BbanField { country: "IT", class: CharClass::Digit, length: 5, role: Role::BranchCode },
        BbanField { country: "IT", class: CharClass::AlphaNumeric, length: 12, role: Role::AccountNumber },
        BbanField { country: "LU", class: CharClass::Digit, length: 3, role: Role::BankCode },
        BbanField { country: "LU", class: CharClass::AlphaNumeric, length: 13, role: Role::AccountNumber },
        BbanField { country: "NL", class: CharClass::UpperAlpha, length: 4, role: Role::BankCode },
        BbanField { country: "NL", class: CharClass::Digit, length: 10, role: Role::AccountNumber },
        BbanField { country: "NO", class: CharClass::Digit, length: 4, role: Role::BankCode },
        BbanField { country: "NO", class: CharClass::Digit, length: 6, role: Role::AccountNumber },
        BbanField { country: "NO", class: CharClass::Digit, length: 1, role: Role::Free },
        BbanField { country: "PL", class: CharClass::Digit, length: 8, role: Role::BankCode },
        BbanField { country: "PL", class: CharClass::Digit, length: 16, role: Role::AccountNumber },
        BbanField { country: "PT", class: CharClass::Digit, length: 4, role: Role::BankCode },
        BbanField { country: "PT", class: CharClass::Digit, length: 4, role: Role::BranchCode },
        BbanField { country: "PT", class: CharClass::Digit, length: 11, role: Role::AccountNumber },
        BbanField { country: "PT", class: CharClass::Digit, length: 2, role: Role::Free },
        BbanField { country: "SE", class: CharClass::Digit, length: 3, role: Role::BankCode },
        BbanField { country: "SE", class: CharClass::Digit, length: 17, role: Role::AccountNumber },
    ];
    assert(table@ =~= bban_table());
    table
}

/// In the table every country code is two capital letters, and no field is
/// a fixed text or holds check digits.
pub proof fn lemma_bban_table()
    ensures
        forall|i: int|
            0 <= i < bban_table().len() ==> two_capitals((#[trigger] bban_table()[i]).country@)
                && !(bban_table()[i].class is Literal) && !(bban_table()[i].role is CheckDigit),
{
    reveal_strlit("AT");
    reveal_strlit("BE");
    reveal_strlit("CH");
    reveal_strlit("CZ");
    reveal_strlit("DE");
    reveal_strlit("DK");
    reveal_strlit("ES");
    reveal_strlit("FI");
    reveal_strlit("FR");
    reveal_strlit("GB");
    reveal_strlit("IE");
    reveal_strlit("IT");
    reveal_strlit("LU");
    reveal_strlit("NL");
    reveal_strlit("NO");
    reveal_strlit("PL");
    reveal_strlit("PT");
    reveal_strlit("SE");
}

/// The field that a row of the table describes.
pub open spec fn field_of(row: BbanField) -> FieldSpec {
    FieldSpec { class: row.class, length: row.length, role: row.role }
}

/// The fields of the domestic account number of `country`, in the order of
/// the table; none for a country that the table does not hold.
pub open spec fn fields_of(table: Seq<BbanField>, country: Seq<char>) -> Seq<FieldSpec>
    decreases table.len(),
{
    if table.len() == 0 {
        Seq::empty()
    } else if table.last().country@ == country {
        fields_of(table.drop_last(), country).push(field_of(table.last()))
    } else {
        fields_of(table.drop_last(), country)
    }
}

/// Whether IBANs of `country`, in capitals, can be generated and checked.
pub open spec fn iban_supported(country: Seq<char>) -> bool {
    fields_of(bban_table(), country).len() > 0
}

/// `code`, without separators and in capitals, is a valid IBAN: it begins
/// with the code of a supported country and is a valid IBAN of that country.
pub open spec fn iban_valid(code: Seq<char>) -> bool {
    code.len() >= 2 && iban_supported(code.take(2)) && wrapped_valid(
        code.take(2),
        fields_of(bban_table(), code.take(2)),
        code,
    )
}

/// `f` is the field of some row of `country` in `table`.
pub open spec fn from_row(table: Seq<BbanField>, country: Seq<char>, f: FieldSpec) -> bool {
    exists|i: int|
        0 <= i < table.len() && (#[trigger] table[i]).country@ == country && f == field_of(
            table[i],
        )
}

/// Every field found for a country comes from a row of that country, and a
/// country with a row has a field.
pub proof fn lemma_fields_of(table: Seq<BbanField>, country: Seq<char>)
    ensures
        forall|k: int|
            0 <= k < fields_of(table, country).len() ==> from_row(
                table,
                country,
                #[trigger] fields_of(table, country)[k],
            ),
        forall|i: int|
            0 <= i < table.len() && (#[trigger] table[i]).country@ == country ==> fields_of(
                table,
                country,
            ).len() > 0,
    decreases table.len(),
{
    if table.len() > 0 {
        let head = table.drop_last();
        lemma_fields_of(head, country);
        assert forall|k: int| 0 <= k < fields_of(table, country).len() implies from_row(
            table,
            country,
            #[trigger] fields_of(table, country)[k],
        ) by {
            if k < fields_of(head, country).len() {
                let f = fields_of(head, country)[k];
                assert(from_row(head, country, f));
                let i = choose|i: int|
                    0 <= i < head.len() && (#[trigger] head[i]).country@ == country && f
                        == field_of(head[i]);
                assert(table[i] == head[i]);
            } else {
                assert(table[table.len() - 1].country@ == country);
            }
        }
        assert forall|i: int|
            0 <= i < table.len() && (#[trigger] table[i]).country@ == country implies fields_of(
            table,
            country,
        ).len() > 0 by {
            if i < head.len() {
                assert(head[i] == table[i]);
            }
        }
    }
}

/// The fields of the domestic account number of `country`, taken as
/// written, by the rows of `table`.
pub fn fields_in(table: &Vec<BbanField>, country: &Vec<char>) -> (fields: Vec<FieldSpec>)
    ensures
        fields@ == fields_of(table@, country@),
{
    let mut fields: Vec<FieldSpec> = Vec::new();
    let mut i: usize = 0;
    proof {
        assert(table@.take(0).len() == 0);
    }
    while i < table.len()
        invariant
            i <= table.len(),
            fields@ == fields_of(table@.take(i as int), country@),
        decreases table.len() - i,
    {
        proof {
            let head = table@.take(i + 1);
            assert(head.drop_last() =~= table@.take(i as int));
            assert(head.last() == table@[i as int]);
        }
        let row = table[i];
        if is_text(country, row.country) {
            fields.push(FieldSpec { class: row.class, length: row.length, role: row.role });
        }
        i += 1;
    }
    proof {
        assert(table@.take(table@.len() as int) =~= table@);
    }
    fields
}

/// The descriptor of the IBAN of `country`, whose case does not matter:
/// `None` where the country is not supported.
pub fn get_format(country: &str) -> (r: Option<FormatDescriptor>)
    ensures
        r is Some <==> iban_supported(upper(country@)),
        r is Some ==> {
            &&& r->0.country_code@ == upper(country@)
            &&& r->0.fields@ == fields_of(bban_table(), upper(country@))
            &&& r->0.checksum is Mod97Iban
            &&& r->0.wraps_iban
            &&& r->0.wf()
        },
{
    let table = bban_catalog();
    let cc = upper_chars(country);
    let fields = fields_in(&table, &cc);
    if fields.len() == 0 {
        return None;
    }
    let desc = FormatDescriptor {
        country_code: string_of(&cc),
        fields,
        checksum: ChecksumAlgorithm::Mod97Iban,
        wraps_iban: true,
    };
    proof {
        lemma_bban_table();
        lemma_fields_of(bban_table(), cc@);
        assert forall|k: int| 0 <= k < desc.fields@.len() implies !((
        #[trigger] desc.fields@[k]).class is Literal) && !is_check(desc.fields@[k]) by {
            assert(from_row(bban_table(), cc@, desc.fields@[k]));
            let i = choose|i: int|
                0 <= i < bban_table().len() && (#[trigger] bban_table()[i]).country@ == cc@
                    && desc.fields@[k] == field_of(bban_table()[i]);
            assert(two_capitals(bban_table()[i].country@));
        }
        assert(from_row(bban_table(), cc@, desc.fields@[0]));
        let i0 = choose|i: int|
            0 <= i < bban_table().len() && (#[trigger] bban_table()[i]).country@ == cc@
                && desc.fields@[0] == field_of(bban_table()[i]);
        assert(two_capitals(bban_table()[i0].country@));
    }
    Some(desc)
}

/// Whether `code` is a valid IBAN of a supported country.
pub fn validate_chars_iban(code: &Vec<char>) -> (r: bool)
    ensures
        r == iban_valid(code@),
{
    if code.len() < 2 {
        return false;
    }
    let country = copy_between(code, 0, 2);
    assert(country@ =~= code@.take(2));
    let table = bban_catalog();
    let fields = fields_in(&table, &country);
    if fields.len() == 0 {
        return false;
    }
    let desc = FormatDescriptor {
        country_code: string_of(&country),
        fields,
        checksum: ChecksumAlgorithm::Mod97Iban,
        wraps_iban: true,
    };
    validate_chars(&desc, code)
}

/// Whether `code` is a valid IBAN of a supported country: the code of the
/// country in capitals, two digits, and an account number of the country's
/// shape, such that the rearranged text leaves the remainder one modulo 97.
/// An IBAN of a country that is not supported is not valid, nor is one
/// written with separators.
pub fn validate_iban(code: &str) -> (r: bool)
    ensures
        r == iban_valid(code@),
{
    let chars = chars_of(code);
    validate_chars_iban(&chars)
}

/// Describes `code` as an IBAN: the code itself; its first two characters
/// as the country; the code in groups of four; and whether it is a valid
/// IBAN.
pub fn describe_iban(code: &str) -> (res: IbanResult)
    ensures
        res.iban@ == code@,
        res.country@ == code@.take(
            if code@.len() < 2 {
                code@.len() as int
            } else {
                2
            },
        ),
        res.formatted@ == formatted(code@, 4, ' '),
        res.valid == iban_valid(code@),
{
    let chars = chars_of(code);
    let cut: usize = if chars.len() < 2 {
        chars.len()
    } else {
        2
    };
    let country = copy_between(&chars, 0, cut);
    assert(country@ =~= chars@.take(cut as int));
    let grouped = group_chars(&chars, 4, ' ');
    let valid = validate_chars_iban(&chars);
    IbanResult {
        country: string_of(&country),
        iban: string_of(&chars),
        formatted: string_of(&grouped),
        valid,
    }
}

/// Writes an IBAN in groups of four characters with a space between them.
/// Spaces that `code` already holds are taken out first, so that an IBAN
/// that is formatted already comes back unchanged. What the IBAN holds is
/// not looked at.
pub fn format_iban(code: &str) -> (out: String)
    ensures
        out@ == formatted(code@, 4, ' '),
        formatted(out@, 4, ' ') == out@,
{
    group_text(code, 4, ' ')
}

/// The country codes of all rows of the table, in its order.
pub open spec fn row_codes() -> Seq<&'static str> {
    Seq::new(bban_table().len(), |i: int| bban_table()[i].country)
}

/// The codes of the supported countries, each once, in the order of the
/// table.
pub fn supported_countries() -> (list: Vec<&'static str>)
    ensures
        forall|i: int| 0 <= i < list@.len() ==> iban_supported((#[trigger] list@[i])@),
        forall|k: int|
            0 <= k < bban_table().len() ==> names(list@, (#[trigger] bban_table()[k]).country@),
        forall|i: int, j: int|
            0 <= i < j < list@.len() ==> (#[trigger] list@[i])@ != (#[trigger] list@[j])@,
        list@.len() > 0,
{
    let table = bban_catalog();
    let mut codes: Vec<&'static str> = Vec::new();
    let mut k: usize = 0;
    while k < table.len()
        invariant
            k <= table.len(),
            table@ == bban_table(),
            codes@ == row_codes().take(k as int),
        decreases table.len() - k,
    {
        codes.push(table[k].country);
        assert(codes@ =~= row_codes().take(k + 1));
        k += 1;
    }
    assert(row_codes().take(bban_table().len() as int) =~= row_codes());
    let list = distinct(&codes);
    proof {
        assert forall|i: int| 0 <= i < list@.len() implies iban_supported(
            (#[trigger] list@[i])@,
        ) by {
            assert(names(codes@, list@[i]@));
            let r = choose|r: int| 0 <= r < codes@.len() && (#[trigger] codes@[r])@ == list@[i]@;
            assert(bban_table()[r].country@ == list@[i]@);
            lemma_fields_of(bban_table(), list@[i]@);
        }
        assert forall|k: int| 0 <= k < bban_table().len() implies names(
            list@,
            (#[trigger] bban_table()[k]).country@,
        ) by {
            assert(codes@[k] == bban_table()[k].country);
            assert(names(list@, codes@[k]@));
        }
        assert(names(list@, bban_table()[0].country@));
    }
    list
}

/// What is reported for a country without an IBAN here.
pub open spec fn unsupported_message(country: Seq<char>) -> Seq<char> {
    "Unsupported country: "@ + country
}

/// Generates an IBAN: for `country`, whose case does not matter, or, where
/// none is given, for a country drawn from `supported_countries`. The
/// result is an error, which names the country, exactly where the country
/// given is not supported. The IBAN is the country code, the two check
/// digits derived from the rest, and a freshly drawn domestic account number
/// of the country's shape, all in digits and capital letters; it passes
/// `validate_iban`, and its rearranged text leaves the remainder one modulo
/// 97.
pub fn generate_iban(country: Option<&str>, rng: &mut StdRng) -> (r: Result<String, String>)
    ensures
        match country {
            Some(c) => (r is Ok <==> iban_supported(upper(c@))) && (r is Ok ==> r->Ok_0@.take(2)
                == upper(c@)) && (r is Err ==> r->Err_0@ == unsupported_message(upper(c@))),
            None => r is Ok,
        },
        r is Ok ==> {
            let code = r->Ok_0@;
            &&& iban_valid(code)
            &&& all_plain(code)
            &&& mod97(rearranged(code)) == 1
            &&& code == iban_text(code.take(2), code.skip(4))
            &&& drawn_ok(fields_of(bban_table(), code.take(2)), code.skip(4))
        },
{
    let desc = match country {
        Some(c) => get_format(c),
        None => {
            let countries = supported_countries();
            let k = draw_index(rng, countries.len());
            let picked = countries[k];
            proof {
                lemma_bban_table();
                lemma_fields_of(bban_table(), picked@);
                assert(from_row(bban_table(), picked@, fields_of(bban_table(), picked@)[0]));
                let i = choose|i: int|
                    0 <= i < bban_table().len() && (#[trigger] bban_table()[i]).country@
                        == picked@;
                assert(two_capitals(bban_table()[i].country@));
                lemma_capitals_stay(picked@);
            }
            get_format(picked)
        },
    };
    match desc {
        None => {
            let mut message = String::from_str("Unsupported country: ");
            match country {
                Some(c) => {
                    let cc = upper_chars(c);
                    message.append(string_of(&cc).as_str());
                },
                None => {},
            }
            Err(message)
        },
        Some(d) => {
            let code = generate_with(&d, rng);
            proof {
                let s = code@;
                let fields = d.fields@;
                assert(d.valid(s));
                assert(s.take(2) == d.country_code@);
                lemma_bban_table();
                lemma_fields_of(bban_table(), d.country_code@);
                assert forall|k: int| 0 <= k < fields.len() implies !((
                #[trigger] fields[k]).class is Literal) by {
                    assert(from_row(bban_table(), d.country_code@, fields[k]));
                }
                lemma_drawn_plain(fields, s.skip(4), fields.len() as int);
                assert(fields.take(fields.len() as int) =~= fields);
                assert(s.skip(4).take(s.skip(4).len() as int) =~= s.skip(4));
                assert(all_plain(s)) by {
                    assert forall|p: int| 0 <= p < s.len() implies is_digit(#[trigger] s[p])
                        || is_upper(s[p]) by {
                        if p < 2 {
                            assert(s[p] == s.take(2)[p]);
                        } else if p < 4 {
                            assert(s[p] == s.subrange(2, 4)[p - 2]);
                        } else {
                            assert(s[p] == s.skip(4)[p - 4]);
                        }
                    }
                }
            }
            Ok(code)
        },
    }
}

/// A replaced digit is detected: where a text is a valid IBAN, the text
/// with one of its digits replaced by another digit is not. (Two changes
/// together may go unseen: check digits that differ by 97, such as `02`
/// and `99`, leave the same remainder.)
pub proof fn lemma_iban_detects_substitution(s: Seq<char>, i: int, c: char)
    requires
        iban_valid(s),
        0 <= i < s.len(),
        is_digit(s[i]),
        is_digit(c),
        c != s[i],
    ensures
        !iban_valid(s.update(i, c)),
{
    lemma_wrapped_detects_substitution(s.take(2), fields_of(bban_table(), s.take(2)), s, i, c);
}

} // verus!
