//! Company identifiers of the countries that have no scheme of their own
//! here: a fixed prefix followed by a fixed number of digits, or of letters
//! and digits.

use vstd::prelude::*;
use rand::rngs::StdRng;
use crate::company_id::CompanyResult;
use crate::random::{draw_digit, draw_alnum};
use crate::text::{
    digit_to_char, two_letters, two_capitals, is_two_letters, lemma_capitals_stay, is_digit, is_upper, all_digits,
    all_alnum, starts_with, upper, chars_of, upper_chars, string_of, is_text, has_prefix,
    digits_between, alnum_between,
};

verus! {

/// The shape of one country's company identifier.
#[derive(Clone, Copy, Debug)]
pub struct GenericCompanyInfo {
    /// The two-letter country code.
    pub code: &'static str,
    /// The country's name in English.
    pub country_name: &'static str,
    /// What the identifier is called in that country.
    pub name: &'static str,
    /// The text that every identifier of the country begins with.
    pub prefix: &'static str,
    /// How many characters follow the prefix.
    pub length: u8,
    /// Whether those characters are digits only, or letters and digits.
    pub numeric_only: bool,
}

/// The countries listed by name, in the order in which they are searched.
pub open spec fn generic_table() -> Seq<GenericCompanyInfo> {
    seq![
        GenericCompanyInfo { code: "AT", country_name: "Austria", name: "UID", prefix: "ATU", length: 8, numeric_only: true },
        GenericCompanyInfo { code: "BE", country_name: "Belgium", name: "TVA", prefix: "BE0", length: 9, numeric_only: true },
        GenericCompanyInfo { code: "CH", country_name: "Switzerland", name: "UID", prefix: "CHE", length: 9, numeric_only: true },
        GenericCompanyInfo { code: "CZ", country_name: "Czech Republic", name: "DIC", prefix: "CZ", length: 10, numeric_only: true },
        GenericCompanyInfo { code: "DK", country_name: "Denmark", name: "CVR", prefix: "DK", length: 8, numeric_only: true },
        GenericCompanyInfo { code: "EE", country_name: "Estonia", name: "KMKR", prefix: "EE", length: 9, numeric_only: true },
        GenericCompanyInfo { code: "FI", country_name: "Finland", name: "ALV nro", prefix: "FI", length: 8, numeric_only: true },
        GenericCompanyInfo { code: "GR", country_name: "Greece", name: "AFM", prefix: "EL", length: 9, numeric_only: true },
        GenericCompanyInfo { code: "HR", country_name: "Croatia", name: "OIB", prefix: "HR", length: 11, numeric_only: true },
        GenericCompanyInfo { code: "HU", country_name: "Hungary", name: "ANUM", prefix: "HU", length: 8, numeric_only: true },
        GenericCompanyInfo { code: "IE", country_name: "Ireland", name: "VAT", prefix: "IE", length: 8, numeric_only: false },
        GenericCompanyInfo { code: "LT", country_name: "Lithuania", name: "PVM", prefix: "LT", length: 12, numeric_only: true },
        GenericCompanyInfo { code: "LU", country_name: "Luxembourg", name: "TVA", prefix: "LU", length: 8, numeric_only: true },
        GenericCompanyInfo { code: "LV", country_name: "Latvia", name: "PVN", prefix: "LV", length: 11, numeric_only: true },
        GenericCompanyInfo { code: "MT", country_name: "Malta", name: "VAT", prefix: "MT", length: 8, numeric_only: true },
        GenericCompanyInfo { code: "NL", country_name: "Netherlands", name: "BTW", prefix: "NL", length: 12, numeric_only: false },
        GenericCompanyInfo { code: "NO", country_name: "Norway", name: "MVA", prefix: "NO", length: 9, numeric_only: true },
        GenericCompanyInfo { code: "PL", country_name: "Poland", name: "NIP", prefix: "PL", length: 10, numeric_only: true },
        GenericCompanyInfo { code: "PT", country_name: "Portugal", name: "NIPC", prefix: "PT", length: 9, numeric_only: true },
        GenericCompanyInfo { code: "RO", country_name: "Romania", name: "CIF", prefix: "RO", length: 10, numeric_only: true },
        GenericCompanyInfo { code: "SE", country_name: "Sweden", name: "VAT", prefix: "SE", length: 12, numeric_only: true },
        GenericCompanyInfo { code: "SI", country_name: "Slovenia", name: "DDV", prefix: "SI", length: 8, numeric_only: true },
        GenericCompanyInfo { code: "SK", country_name: "Slovakia", name: "DPH", prefix: "SK", length: 10, numeric_only: true },
        GenericCompanyInfo { code: "TR", country_name: "Turkey", name: "VKN", prefix: "", length: 10, numeric_only: true },
        GenericCompanyInfo { code: "US", country_name: "United States", name: "EIN", prefix: "", length: 9, numeric_only: true },
        GenericCompanyInfo { code: "CA", country_name: "Canada", name: "BN", prefix: "", length: 9, numeric_only: true },
        GenericCompanyInfo { code: "BR", country_name: "Brazil", name: "CNPJ", prefix: "", length: 14, numeric_only: true },
        GenericCompanyInfo { code: "MX", country_name: "Mexico", name: "RFC", prefix: "", length: 12, numeric_only: false },
        GenericCompanyInfo { code: "AR", country_name: "Argentina", name: "CUIT", prefix: "", length: 11, numeric_only: true },
        GenericCompanyInfo { code: "CL", country_name: "Chile", name: "RUT", prefix: "", length: 9, numeric_only: true },
        GenericCompanyInfo { code: "CO", country_name: "Colombia", name: "NIT", prefix: "", length: 10, numeric_only: true },
        GenericCompanyInfo { code: "PE", country_name: "Peru", name: "RUC", prefix: "", length: 11, numeric_only: true },
        GenericCompanyInfo { code: "AU", country_name: "Australia", name: "ABN", prefix: "", length: 11, numeric_only: true },
        GenericCompanyInfo { code: "NZ", country_name: "New Zealand", name: "NZBN", prefix: "", length: 13, numeric_only: true },
        GenericCompanyInfo { code: "CN", country_name: "China", name: "USCI", prefix: "", length: 18, numeric_only: false },
        GenericCompanyInfo { code: "IN", country_name: "India", name: "GSTIN", prefix: "29", length: 13, numeric_only: false },
        GenericCompanyInfo { code: "JP", country_name: "Japan", name: "Corporate Number", prefix: "", length: 13, numeric_only: true },
        GenericCompanyInfo { code: "KR", country_name: "South Korea", name: "BRN", prefix: "", length: 10, numeric_only: true },
        GenericCompanyInfo { code: "SG", country_name: "Singapore", name: "UEN", prefix: "", length: 10, numeric_only: false },
        GenericCompanyInfo { code: "HK", country_name: "Hong Kong", name: "BR Number", prefix: "", length: 8, numeric_only: true },
        GenericCompanyInfo { code: "MY", country_name: "Malaysia", name: "Business Reg", prefix: "", length: 12, numeric_only: true },
        GenericCompanyInfo { code: "TH", country_name: "Thailand", name: "Tax ID", prefix: "", length: 13, numeric_only: true },
        GenericCompanyInfo { code: "VN", country_name: "Vietnam", name: "MST", prefix: "", length: 10, numeric_only: true },
        GenericCompanyInfo { code: "PH", country_name: "Philippines", name: "TIN", prefix: "", length: 12, numeric_only: true },
        GenericCompanyInfo { code: "ID", country_name: "Indonesia", name: "NPWP", prefix: "", length: 15, numeric_only: true },
        GenericCompanyInfo { code: "ZA", country_name: "South Africa", name: "VAT", prefix: "4", length: 9, numeric_only: true },
        GenericCompanyInfo { code: "NG", country_name: "Nigeria", name: "TIN", prefix: "", length: 12, numeric_only: true },
        GenericCompanyInfo { code: "EG", country_name: "Egypt", name: "Tax Card", prefix: "", length: 9, numeric_only: true },
        GenericCompanyInfo { code: "IL", country_name: "Israel", name: "Company Number", prefix: "51", length: 7, numeric_only: true },
        GenericCompanyInfo { code: "AE", country_name: "United Arab Emirates", name: "TRN", prefix: "100", length: 12, numeric_only: true },
        GenericCompanyInfo { code: "SA", country_name: "Saudi Arabia", name: "VAT", prefix: "3", length: 14, numeric_only: true },
    ]
}

/// Builds the list of countries.
pub fn catalog() -> (table: Vec<GenericCompanyInfo>)
    ensures
        table@ == generic_table(),
{
    let table = vec![
        GenericCompanyInfo { code: "AT", country_name: "Austria", name: "UID", prefix: "ATU", length: 8, numeric_only: true },
        GenericCompanyInfo { code: "BE", country_name: "Belgium", name: "TVA", prefix: "BE0", length: 9, numeric_only: true },
        GenericCompanyInfo { code: "CH", country_name: "Switzerland", name: "UID", prefix: "CHE", length: 9, numeric_only: true },
        GenericCompanyInfo { code: "CZ", country_name: "Czech Republic", name: "DIC", prefix: "CZ", length: 10, numeric_only: true },
        GenericCompanyInfo { code: "DK", country_name: "Denmark", name: "CVR", prefix: "DK", length: 8, numeric_only: true },
        GenericCompanyInfo { code: "EE", country_name: "Estonia", name: "KMKR", prefix: "EE", length: 9, numeric_only: true },
        GenericCompanyInfo { code: "FI", country_name: "Finland", name: "ALV nro", prefix: "FI", length: 8, numeric_only: true },
        GenericCompanyInfo { code: "GR", country_name: "Greece", name: "AFM", prefix: "EL", length: 9, numeric_only: true },
        GenericCompanyInfo { code: "HR", country_name: "Croatia", name: "OIB", prefix: "HR", length: 11, numeric_only: true },
        GenericCompanyInfo { code: "HU", country_name: "Hungary", name: "ANUM", prefix: "HU", length: 8, numeric_only: true },
        GenericCompanyInfo { code: "IE", country_name: "Ireland", name: "VAT", prefix: "IE", length: 8, numeric_only: false },
        GenericCompanyInfo { code: "LT", country_name: "Lithuania", name: "PVM", prefix: "LT", length: 12, numeric_only: true },
        GenericCompanyInfo { code: "LU", country_name: "Luxembourg", name: "TVA", prefix: "LU", length: 8, numeric_only: true },
        GenericCompanyInfo { code: "LV", country_name: "Latvia", name: "PVN", prefix: "LV", length: 11, numeric_only: true },
        GenericCompanyInfo { code: "MT", country_name: "Malta", name: "VAT", prefix: "MT", length: 8, numeric_only: true },
        GenericCompanyInfo { code: "NL", country_name: "Netherlands", name: "BTW", prefix: "NL", length: 12, numeric_only: false },
        GenericCompanyInfo { code: "NO", country_name: "Norway", name: "MVA", prefix: "NO", length: 9, numeric_only: true },
        GenericCompanyInfo { code: "PL", country_name: "Poland", name: "NIP", prefix: "PL", length: 10, numeric_only: true },
        GenericCompanyInfo { code: "PT", country_name: "Portugal", name: "NIPC", prefix: "PT", length: 9, numeric_only: true },
        GenericCompanyInfo { code: "RO", country_name: "Romania", name: "CIF", prefix: "RO", length: 10, numeric_only: true },
        GenericCompanyInfo { code: "SE", country_name: "Sweden", name: "VAT", prefix: "SE", length: 12, numeric_only: true },
        GenericCompanyInfo { code: "SI", country_name: "Slovenia", name: "DDV", prefix: "SI", length: 8, numeric_only: true },
        GenericCompanyInfo { code: "SK", country_name: "Slovakia", name: "DPH", prefix: "SK", length: 10, numeric_only: true },
        GenericCompanyInfo { code: "TR", country_name: "Turkey", name: "VKN", prefix: "", length: 10, numeric_only: true },
        GenericCompanyInfo { code: "US", country_name: "United States", name: "EIN", prefix: "", length: 9, numeric_only: true },
        GenericCompanyInfo { code: "CA", country_name: "Canada", name: "BN", prefix: "", length: 9, numeric_only: true },
        GenericCompanyInfo { code: "BR", country_name: "Brazil", name: "CNPJ", prefix: "", length: 14, numeric_only: true },
        GenericCompanyInfo { code: "MX", country_name: "Mexico", name: "RFC", prefix: "", length: 12, numeric_only: false },
        GenericCompanyInfo { code: "AR", country_name: "Argentina", name: "CUIT", prefix: "", length: 11, numeric_only: true },
        GenericCompanyInfo { code: "CL", country_name: "Chile", name: "RUT", prefix: "", length: 9, numeric_only: true },
        GenericCompanyInfo { code: "CO", country_name: "Colombia", name: "NIT", prefix: "", length: 10, numeric_only: true },
        GenericCompanyInfo { code: "PE", country_name: "Peru", name: "RUC", prefix: "", length: 11, numeric_only: true },
        GenericCompanyInfo { code: "AU", country_name: "Australia", name: "ABN", prefix: "", length: 11, numeric_only: true },
        GenericCompanyInfo { code: "NZ", country_name: "New Zealand", name: "NZBN", prefix: "", length: 13, numeric_only: true },
        GenericCompanyInfo { code: "CN", country_name: "China", name: "USCI", prefix: "", length: 18, numeric_only: false },
        GenericCompanyInfo { code: "IN", country_name: "India", name: "GSTIN", prefix: "29", length: 13, numeric_only: false },
        GenericCompanyInfo { code: "JP", country_name: "Japan", name: "Corporate Number", prefix: "", length: 13, numeric_only: true },
        GenericCompanyInfo { code: "KR", country_name: "South Korea", name: "BRN", prefix: "", length: 10, numeric_only: true },
        GenericCompanyInfo { code: "SG", country_name: "Singapore", name: "UEN", prefix: "", length: 10, numeric_only: false },
        GenericCompanyInfo { code: "HK", country_name: "Hong Kong", name: "BR Number", prefix: "", length: 8, numeric_only: true },
        GenericCompanyInfo { code: "MY", country_name: "Malaysia", name: "Business Reg", prefix: "", length: 12, numeric_only: true },
        GenericCompanyInfo { code: "TH", country_name: "Thailand", name: "Tax ID", prefix: "", length: 13, numeric_only: true },
        GenericCompanyInfo { code: "VN", country_name: "Vietnam", name: "MST", prefix: "", length: 10, numeric_only: true },
        GenericCompanyInfo { code: "PH", country_name: "Philippines", name: "TIN", prefix: "", length: 12, numeric_only: true },
        GenericCompanyInfo { code: "ID", country_name: "Indonesia", name: "NPWP", prefix: "", length: 15, numeric_only: true },
        GenericCompanyInfo { code: "ZA", country_name: "South Africa", name: "VAT", prefix: "4", length: 9, numeric_only: true },
        GenericCompanyInfo { code: "NG", country_name: "Nigeria", name: "TIN", prefix: "", length: 12, numeric_only: true },
        GenericCompanyInfo { code: "EG", country_name: "Egypt", name: "Tax Card", prefix: "", length: 9, numeric_only: true },
        GenericCompanyInfo { code: "IL", country_name: "Israel", name: "Company Number", prefix: "51", length: 7, numeric_only: true },
        GenericCompanyInfo { code: "AE", country_name: "United Arab Emirates", name: "TRN", prefix: "100", length: 12, numeric_only: true },
        GenericCompanyInfo { code: "SA", country_name: "Saudi Arabia", name: "VAT", prefix: "3", length: 14, numeric_only: true },
    ];
    assert(table@ =~= generic_table());
    table
}

/// The first entry of `table` whose country code is `code`, if there is one.
pub open spec fn find_in(table: Seq<GenericCompanyInfo>, code: Seq<char>) -> Option<
    GenericCompanyInfo,
>
    decreases table.len(),
{
    if table.len() == 0 {
        None
    } else if table[0].code@ == code {
        Some(table[0])
    } else {
        find_in(table.drop_first(), code)
    }
}

/// The shape assumed for a country that is not listed by name: ten letters
/// and digits with no prefix.
pub open spec fn fallback_info() -> GenericCompanyInfo {
    GenericCompanyInfo {
        code: "??",
        country_name: "Unknown",
        name: "Business ID",
        prefix: "",
        length: 10,
        numeric_only: false,
    }
}

/// `suffix` has the length and the character class that `info` asks for.
pub open spec fn suffix_fits(info: GenericCompanyInfo, suffix: Seq<char>) -> bool {
    suffix.len() == info.length && if info.numeric_only {
        all_digits(suffix)
    } else {
        all_alnum(suffix)
    }
}

/// `input` is the prefix of `info` followed by a suffix that fits it.
pub open spec fn matches_info(info: GenericCompanyInfo, input: Seq<char>) -> bool {
    starts_with(input, info.prefix@) && suffix_fits(
        info,
        input.subrange(info.prefix@.len() as int, input.len() as int),
    )
}

/// What is accepted for a country that is not listed by name: eight to
/// fifteen letters and digits.
pub open spec fn fallback_valid(input: Seq<char>) -> bool {
    8 <= input.len() <= 15 && all_alnum(input)
}

/// Whether `table` together with the fallback has a shape for `code`, which
/// is taken as written.
pub open spec fn supported_in(table: Seq<GenericCompanyInfo>, code: Seq<char>) -> bool {
    find_in(table, code) is Some || two_letters(code)
}

/// The verdict on `input` as an identifier of the country `code`, which is
/// taken as written: `None` where there is no shape for `code`.
pub open spec fn valid_in(table: Seq<GenericCompanyInfo>, code: Seq<char>, input: Seq<char>)
    -> Option<bool> {
    match find_in(table, code) {
        Some(info) => Some(matches_info(info, input)),
        None => if two_letters(code) {
            Some(fallback_valid(input))
        } else {
            None
        },
    }
}

/// Whether there is a shape for the country `code`, in capitals.
pub open spec fn generic_supported(code: Seq<char>) -> bool {
    supported_in(generic_table(), code)
}

/// The verdict on `input` for the country `code`, in capitals.
pub open spec fn generic_valid(code: Seq<char>, input: Seq<char>) -> Option<bool> {
    valid_in(generic_table(), code, input)
}

/// Looks `code`, taken as written, up in `table`.
pub fn find_in_table(table: &Vec<GenericCompanyInfo>, code: &Vec<char>) -> (found: Option<
    GenericCompanyInfo,
>)
    ensures
        found == find_in(table@, code@),
{
    let mut i: usize = 0;
    proof {
        assert(table@.subrange(0, table@.len() as int) =~= table@);
    }
    while i < table.len()
        invariant
            i <= table.len(),
            find_in(table@, code@) == find_in(table@.subrange(i as int, table@.len() as int), code@),
        decreases table.len() - i,
    {
        proof {
            let rest = table@.subrange(i as int, table@.len() as int);
            assert(rest.drop_first() =~= table@.subrange(i + 1, table@.len() as int));
            assert(rest[0] == table@[i as int]);
        }
        if is_text(code, table[i].code) {
            return Some(table[i]);
        }
        i += 1;
    }
    None
}

/// Looks a country code, taken as written, up in the list of countries.
pub fn find_info(code: &str) -> (found: Option<GenericCompanyInfo>)
    ensures
        found == find_in(generic_table(), code@),
{
    let table = catalog();
    let chars = chars_of(code);
    find_in_table(&table, &chars)
}

/// Whether `input` is an identifier of the shape `info`.
pub fn matches_shape(info: &GenericCompanyInfo, input: &Vec<char>) -> (r: bool)
    ensures
        r == matches_info(*info, input@),
{
    let prefix = chars_of(info.prefix);
    if !has_prefix(input, &prefix) {
        return false;
    }
    if input.len() - prefix.len() != info.length as usize {
        return false;
    }
    if info.numeric_only {
        digits_between(input, prefix.len(), input.len())
    } else {
        alnum_between(input, prefix.len(), input.len())
    }
}

/// The verdict on `input` for the country `code`, taken as written, by the
/// shapes of `table` and the fallback.
pub fn validate_in(table: &Vec<GenericCompanyInfo>, code: &Vec<char>, input: &Vec<char>) -> (r:
    Option<bool>)
    ensures
        r == valid_in(table@, code@, input@),
{
    match find_in_table(table, code) {
        Some(info) => Some(matches_shape(&info, input)),
        None => {
            if is_two_letters(code) {
                assert(input@.subrange(0, input@.len() as int) =~= input@);
                Some(
                    8 <= input.len() && input.len() <= 15 && alnum_between(
                        input,
                        0,
                        input.len(),
                    ),
                )
            } else {
                None
            }
        },
    }
}

/// Checks `input` as a company identifier of the country `code`, whose case
/// does not matter. The result is `None` where the country has no shape:
/// it is neither listed by name nor two ASCII letters.
pub fn validate(code: &str, input: &str) -> (r: Option<bool>)
    ensures
        r == generic_valid(upper(code@), input@),
        r is Some <==> generic_supported(upper(code@)),
        r is Some <==> two_letters(upper(code@)),
{
    proof {
        lemma_generic_supported(upper(code@));
    }
    let table = catalog();
    let country = upper_chars(code);
    let chars = chars_of(input);
    validate_in(&table, &country, &chars)
}

/// The countries listed by name, each with its code, its name and the name
/// of its identifier, in the order of the list.
pub fn list_countries() -> (list: Vec<(&'static str, &'static str, &'static str)>)
    ensures
        list@.len() == generic_table().len(),
        forall|i: int|
            0 <= i < list@.len() ==> #[trigger] list@[i] == (
                generic_table()[i].code,
                generic_table()[i].country_name,
                generic_table()[i].name,
            ),
{
    let table = catalog();
    let mut list: Vec<(&'static str, &'static str, &'static str)> = Vec::new();
    let mut i: usize = 0;
    while i < table.len()
        invariant
            i <= table.len(),
            table@ == generic_table(),
            list@.len() == i,
            forall|k: int|
                0 <= k < i ==> #[trigger] list@[k] == (
                    table@[k].code,
                    table@[k].country_name,
                    table@[k].name,
                ),
        decreases table.len() - i,
    {
        list.push((table[i].code, table[i].country_name, table[i].name));
        i += 1;
    }
    list
}

/// The shape used for `code`: its entry in `table`, or the fallback.
pub open spec fn shape_for(table: Seq<GenericCompanyInfo>, code: Seq<char>) -> GenericCompanyInfo {
    match find_in(table, code) {
        Some(info) => info,
        None => fallback_info(),
    }
}

/// The country name reported for `code`: that of its entry in `table`, or,
/// for a country not listed, the code itself in brackets.
pub open spec fn country_name_for(table: Seq<GenericCompanyInfo>, code: Seq<char>) -> Seq<char> {
    match find_in(table, code) {
        Some(info) => info.country_name@,
        None => "Country ("@ + code + ")"@,
    }
}

/// What a generator may put after the prefix of `info`: as many characters
/// as the shape asks for, digits where it asks for digits, and digits or
/// capital letters otherwise.
pub open spec fn drawn_suffix(info: GenericCompanyInfo, suffix: Seq<char>) -> bool {
    &&& suffix.len() == info.length
    &&& forall|i: int|
        0 <= i < suffix.len() ==> is_digit(#[trigger] suffix[i]) || (!info.numeric_only
            && is_upper(suffix[i]))
}

/// `res` is the generated result for the country `code` whose identifier
/// ends in `suffix`.
pub open spec fn assembled(
    table: Seq<GenericCompanyInfo>,
    code: Seq<char>,
    suffix: Seq<char>,
    res: CompanyResult,
) -> bool {
    &&& res.country_code@ == code
    &&& res.country_name@ == country_name_for(table, code)
    &&& res.name@ == shape_for(table, code).name@
    &&& res.code@ == shape_for(table, code).prefix@ + suffix
    &&& res.valid
}

/// A generated identifier is accepted for its country: a suffix that a
/// generator may draw, put after the prefix, passes validation.
pub proof fn lemma_drawn_is_valid(table: Seq<GenericCompanyInfo>, code: Seq<char>, suffix: Seq<char>)
    requires
        supported_in(table, code),
        drawn_suffix(shape_for(table, code), suffix),
    ensures
        valid_in(table, code, shape_for(table, code).prefix@ + suffix) == Some(true),
{
    let info = shape_for(table, code);
    let full = info.prefix@ + suffix;
    assert(full.subrange(0, info.prefix@.len() as int) =~= info.prefix@);
    assert(full.subrange(info.prefix@.len() as int, full.len() as int) =~= suffix);
    if find_in(table, code) is None {
        reveal_strlit("");
        assert(full =~= suffix);
    }
}

/// Draws what follows the prefix of an identifier: `length` characters,
/// digits only where `numeric_only`.
pub fn draw_suffix(rng: &mut StdRng, length: u8, numeric_only: bool) -> (suffix: Vec<char>)
    ensures
        suffix@.len() == length,
        forall|i: int|
            0 <= i < suffix@.len() ==> is_digit(#[trigger] suffix@[i]) || (!numeric_only
                && is_upper(suffix@[i])),
{
    let mut suffix: Vec<char> = Vec::new();
    let mut i: u8 = 0;
    while i < length
        invariant
            i <= length,
            suffix@.len() == i,
            forall|k: int|
                0 <= k < suffix@.len() ==> is_digit(#[trigger] suffix@[k]) || (!numeric_only
                    && is_upper(suffix@[k])),
        decreases length - i,
    {
        let c = if numeric_only {
            digit_to_char(draw_digit(rng))
        } else {
            draw_alnum(rng)
        };
        suffix.push(c);
        i += 1;
    }
    suffix
}

/// Puts a result together: the identifier is the prefix of the country's
/// shape followed by `suffix`.
pub fn assemble(table: &Vec<GenericCompanyInfo>, code: &Vec<char>, suffix: &Vec<char>) -> (res:
    CompanyResult)
    ensures
        assembled(table@, code@, suffix@, res),
{
    let country_code = string_of(code);
    let suffix_text = string_of(suffix);
    match find_in_table(table, code) {
        Some(info) => {
            let mut full = String::from_str(info.prefix);
            full.append(suffix_text.as_str());
            CompanyResult {
                country_code,
                country_name: String::from_str(info.country_name),
                name: String::from_str(info.name),
                code: full,
                valid: true,
            }
        },
        None => {
            let mut country_name = String::from_str("Country (");
            country_name.append(country_code.as_str());
            country_name.append(")");
            let mut full = String::from_str("");
            full.append(suffix_text.as_str());
            CompanyResult {
                country_code,
                country_name,
                name: String::from_str("Business ID"),
                code: full,
                valid: true,
            }
        },
    }
}

/// Generates an identifier for the country `code`, taken as written, by the
/// shapes of `table` and the fallback; `None` where there is no shape.
pub fn generate_in(table: &Vec<GenericCompanyInfo>, code: &Vec<char>, rng: &mut StdRng) -> (r:
    Option<CompanyResult>)
    ensures
        r is Some <==> supported_in(table@, code@),
        r is Some ==> assembled(
            table@,
            code@,
            r->0.code@.subrange(
                shape_for(table@, code@).prefix@.len() as int,
                r->0.code@.len() as int,
            ),
            r->0,
        ),
        r is Some ==> drawn_suffix(
            shape_for(table@, code@),
            r->0.code@.subrange(
                shape_for(table@, code@).prefix@.len() as int,
                r->0.code@.len() as int,
            ),
        ),
        r is Some ==> valid_in(table@, code@, r->0.code@) == Some(true),
{
    let found = find_in_table(table, code);
    if found.is_none() && !is_two_letters(code) {
        return None;
    }
    let (length, numeric_only) = match found {
        Some(info) => (info.length, info.numeric_only),
        None => (10u8, false),
    };
    let suffix = draw_suffix(rng, length, numeric_only);
    let res = assemble(table, code, &suffix);
    proof {
        let info = shape_for(table@, code@);
        lemma_drawn_is_valid(table@, code@, suffix@);
        assert(res.code@.subrange(info.prefix@.len() as int, res.code@.len() as int) =~= suffix@);
    }
    Some(res)
}

/// Generates a company identifier for the country `code`, whose case does
/// not matter: the country's prefix followed by freshly drawn characters of
/// the country's length and class. The result is `None` exactly where the
/// country has no shape, and what is generated passes `validate`.
pub fn generate(code: &str, rng: &mut StdRng) -> (r: Option<CompanyResult>)
    ensures
        r is Some <==> generic_supported(upper(code@)),
        r is Some <==> two_letters(upper(code@)),
        r is Some ==> assembled(
            generic_table(),
            upper(code@),
            r->0.code@.subrange(
                shape_for(generic_table(), upper(code@)).prefix@.len() as int,
                r->0.code@.len() as int,
            ),
            r->0,
        ),
        r is Some ==> drawn_suffix(
            shape_for(generic_table(), upper(code@)),
            r->0.code@.subrange(
                shape_for(generic_table(), upper(code@)).prefix@.len() as int,
                r->0.code@.len() as int,
            ),
        ),
        r is Some ==> generic_valid(upper(code@), r->0.code@) == Some(true),
{
    proof {
        lemma_generic_supported(upper(code@));
    }
    let table = catalog();
    let country = upper_chars(code);
    generate_in(&table, &country, rng)
}

/// Every country code of the list is two capital letters.
pub proof fn lemma_table_codes_capital()
    ensures
        generic_table().len() == 51,
        forall|i: int|
            0 <= i < generic_table().len() ==> two_capitals((#[trigger] generic_table()[i]).code@),
{
    reveal_strlit("AT");
    reveal_strlit("BE");
    reveal_strlit("CH");
    reveal_strlit("CZ");
    reveal_strlit("DK");
    reveal_strlit("EE");
    reveal_strlit("FI");
    reveal_strlit("GR");
    reveal_strlit("HR");
    reveal_strlit("HU");
    reveal_strlit("IE");
    reveal_strlit("LT");
    reveal_strlit("LU");
    reveal_strlit("LV");
    reveal_strlit("MT");
    reveal_strlit("NL");
    reveal_strlit("NO");
    reveal_strlit("PL");
    reveal_strlit("PT");
    reveal_strlit("RO");
    reveal_strlit("SE");
    reveal_strlit("SI");
    reveal_strlit("SK");
    reveal_strlit("TR");
    reveal_strlit("US");
    reveal_strlit("CA");
    reveal_strlit("BR");
    reveal_strlit("MX");
    reveal_strlit("AR");
    reveal_strlit("CL");
    reveal_strlit("CO");
    reveal_strlit("PE");
    reveal_strlit("AU");
    reveal_strlit("NZ");
    reveal_strlit("CN");
    reveal_strlit("IN");
    reveal_strlit("JP");
    reveal_strlit("KR");
    reveal_strlit("SG");
    reveal_strlit("HK");
    reveal_strlit("MY");
    reveal_strlit("TH");
    reveal_strlit("VN");
    reveal_strlit("PH");
    reveal_strlit("ID");
    reveal_strlit("ZA");
    reveal_strlit("NG");
    reveal_strlit("EG");
    reveal_strlit("IL");
    reveal_strlit("AE");
    reveal_strlit("SA");
}

/// The first entry found for a code is an entry of the table with that
/// code, and a code without an entry is the code of no entry.
pub proof fn lemma_find_in(table: Seq<GenericCompanyInfo>, code: Seq<char>)
    ensures
        match find_in(table, code) {
            Some(info) => table.contains(info) && info.code@ == code,
            None => forall|i: int| 0 <= i < table.len() ==> (#[trigger] table[i]).code@ != code,
        },
    decreases table.len(),
{
    if table.len() > 0 {
        if table[0].code@ == code {
            assert(table[0] == find_in(table, code)->0);
        } else {
            lemma_find_in(table.drop_first(), code);
            match find_in(table.drop_first(), code) {
                Some(info) => {
                    let k = choose|k: int|
                        0 <= k < table.drop_first().len() && table.drop_first()[k] == info;
                    assert(table[k + 1] == info);
                },
                None => {
                    assert forall|i: int| 0 <= i < table.len() implies (#[trigger] table[i]).code@
                        != code by {
                        if i > 0 {
                            assert(table.drop_first()[i - 1] == table[i]);
                        }
                    }
                },
            }
        }
    }
}

/// The countries with a shape are those whose code is two ASCII letters:
/// only a code of another length, or with another character, has none.
pub proof fn lemma_generic_supported(code: Seq<char>)
    ensures
        generic_supported(code) <==> two_letters(code),
{
    lemma_find_in(generic_table(), code);
    lemma_table_codes_capital();
    if find_in(generic_table(), code) is Some {
        let info = find_in(generic_table(), code)->0;
        let k = choose|k: int| 0 <= k < generic_table().len() && generic_table()[k] == info;
        assert(two_capitals(generic_table()[k].code@));
        lemma_capitals_stay(code);
    }
}

} // verus!
