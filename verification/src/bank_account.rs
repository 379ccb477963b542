//! Bank account numbers: the domestic account number of a country, and its
//! IBAN where the country has one.

use vstd::prelude::*;
use rand::rngs::StdRng;
use crate::catalog::{
    Catalog, CatalogEntry, Fallback, catalog_wf, find_entry, lines_of, parts_by, written_by,
    lemma_find_entry,
};
use crate::format::{
    CharClass, Role, FormatDescriptor, ChecksumAlgorithm, is_check, preset_ok, lemma_shape_alnum,
};
use crate::grouping::{formatted, group_text};
use crate::iban::{
    BbanField, bban_table, bban_catalog, fields_of, fields_in, from_row, iban_supported, iban_text,
    iban_check, wrap_iban, lemma_bban_table, lemma_fields_of,
};
use crate::listing::{Entry, sorted_by_code, has_code, wins};
use crate::text::{
    all_alnum, two_capitals, two_digits, two_letters, upper, chars_of, upper_chars, string_of,
};

verus! {

/// A generated bank account number with its parts.
#[derive(Debug, Clone)]
pub struct AccountResult {
    /// The two-letter country code, in capitals.
    pub country_code: String,
    /// The country's name in English.
    pub country_name: String,
    /// What the account number is called in that country.
    pub format_name: String,
    /// The characters of the bank code fields.
    pub bank_code: String,
    /// The characters of the branch code fields.
    pub branch_code: String,
    /// The characters of the account number fields.
    pub account_number: String,
    /// The two check digits of the IBAN; empty where there is no IBAN.
    pub check_digits: String,
    /// The domestic account number in groups of four characters.
    pub formatted: String,
    /// The domestic account number.
    pub raw: String,
    /// The IBAN, for a country that has one.
    pub iban: Option<String>,
    /// Whether the account number passes validation.
    pub valid: bool,
}

/// How to generate: with a given bank code, or with a drawn one.
#[derive(Debug, Clone)]
pub struct GenOptions {
    /// The bank code to use where it fits the country's bank code field.
    pub bank_code: Option<String>,
}

impl Default for GenOptions {
    fn default() -> (opts: Self)
        ensures
            opts.bank_code is None,
    {
        GenOptions { bank_code: None }
    }
}

/// The fields of the domestic account numbers of the countries that have
/// no IBAN.
pub open spec fn domestic_table() -> Seq<BbanField> {
    seq![
        BbanField { country: "AU", class: CharClass::Digit, length: 6, role: Role::BranchCode },
        BbanField { country: "AU", class: CharClass::Digit, length: 9, role: Role::AccountNumber },
        BbanField { country: "CA", class: CharClass::Digit, length: 5, role: Role::BranchCode },
        BbanField { country: "CA", class: CharClass::Digit, length: 3, role: Role::BankCode },
        BbanField { country: "CA", class: CharClass::Digit, length: 7, role: Role::AccountNumber },
        BbanField { country: "US", class: CharClass::Digit, length: 9, role: Role::BankCode },
        BbanField { country: "US", class: CharClass::Digit, length: 10, role: Role::AccountNumber },
    ]
}

/// The fields of the domestic account numbers of all listed countries.
pub open spec fn account_rows() -> Seq<BbanField> {
    bban_table() + domestic_table()
}

/// The listed countries, each with its code, its name and the name of its
/// account number.
pub open spec fn bank_lines() -> Seq<Entry> {
    seq![
        ("AT", "Austria", "BBAN"),
        ("BE", "Belgium", "BBAN"),
        ("CH", "Switzerland", "BBAN"),
        ("CZ", "Czech Republic", "BBAN"),
        ("DE", "Germany", "BBAN"),
        ("DK", "Denmark", "BBAN"),
        ("ES", "Spain", "BBAN"),
        ("FI", "Finland", "BBAN"),
        ("FR", "France", "BBAN"),
        ("GB", "United Kingdom", "BBAN"),
        ("IE", "Ireland", "BBAN"),
        ("IT", "Italy", "BBAN"),
        ("LU", "Luxembourg", "BBAN"),
        ("NL", "Netherlands", "BBAN"),
        ("NO", "Norway", "BBAN"),
        ("PL", "Poland", "BBAN"),
        ("PT", "Portugal", "BBAN"),
        ("SE", "Sweden", "BBAN"),
        ("AU", "Australia", "BSB and account number"),
        ("CA", "Canada", "Transit and account number"),
        ("US", "United States", "ABA routing and account number"),
    ]
}

/// The shape assumed for a country that is not listed: eight to twenty
/// letters and digits, twelve when generated.
pub open spec fn bank_fallback() -> Fallback {
    Fallback { min_length: 8, max_length: 20, length: 12 }
}

/// `c` is the catalog of bank accounts: its countries are the listed ones,
/// each with the fields of its rows, without check digits of its own and
/// not wrapped, and its fallback is that of bank accounts.
pub open spec fn is_bank_catalog(c: Catalog) -> bool {
    &&& lines_of(c.entries()) == bank_lines()
    &&& c.fallback() == Some(bank_fallback())
    &&& forall|i: int|
        0 <= i < c.entries().len() ==> {
            let e = #[trigger] c.entries()[i];
            &&& e.descriptor.fields@ == fields_of(account_rows(), e.code@)
            &&& e.descriptor.country_code@ == e.code@
            &&& e.descriptor.checksum is NoChecksum
            &&& !e.descriptor.wraps_iban
        }
}

/// In the rows of all listed countries every country code is two capital
/// letters, and no field is a fixed text or holds check digits.
pub proof fn lemma_account_rows()
    ensures
        forall|i: int|
            0 <= i < account_rows().len() ==> two_capitals((#[trigger] account_rows()[i]).country@)
                && !(account_rows()[i].class is Literal) && !(account_rows()[i].role is CheckDigit),
        forall|i: int| 0 <= i < bank_lines().len() ==> two_capitals((#[trigger] bank_lines()[i]).0@),
{
    lemma_bban_table();
    reveal_strlit("AT");
    reveal_strlit("BE");
    reveal_strlit("CH");
    reveal_strlit("CZ");
    reveal_strlit("DE");
    reveal_strlit("DK");
    reveal_strlit("ES");
    reveal_strlit("FI");
    reveal_strlit("FR");
    reveal_strlit("GB");
    reveal_strlit("IE");
    reveal_strlit("IT");
    reveal_strlit("LU");
    reveal_strlit("NL");
    reveal_strlit("NO");
    reveal_strlit("PL");
    reveal_strlit("PT");
    reveal_strlit("SE");
    reveal_strlit("AU");
    reveal_strlit("CA");
    reveal_strlit("US");
    assert forall|i: int| 0 <= i < account_rows().len() implies two_capitals(
        (#[trigger] account_rows()[i]).country@,
    ) && !(account_rows()[i].class is Literal) && !(account_rows()[i].role is CheckDigit) by {
        if i < bban_table().len() {
            assert(account_rows()[i] == bban_table()[i]);
        } else {
            assert(account_rows()[i] == domestic_table()[i - bban_table().len()]);
        }
    }
}

/// Builds the rows of all listed countries.
pub fn account_catalog() -> (rows: Vec<BbanField>)
    ensures
        rows@ == account_rows(),
{
    let mut rows = bban_catalog();
    let mut more = vec![
        BbanField { country: "AU", class: CharClass::Digit, length: 6, role: Role::BranchCode },
        BbanField { country: "AU", class: CharClass::Digit, length: 9, role: Role::AccountNumber },
        BbanField { country: "CA", class: CharClass::Digit, length: 5, role: Role::BranchCode },
        BbanField { country: "CA", class: CharClass::Digit, length: 3, role: Role::BankCode },
        BbanField { country: "CA", class: CharClass::Digit, length: 7, role: Role::AccountNumber },
        BbanField { country: "US", class: CharClass::Digit, length: 9, role: Role::BankCode },
        BbanField { country: "US", class: CharClass::Digit, length: 10, role: Role::AccountNumber },
    ];
    assert(more@ =~= domestic_table());
    rows.append(&mut more);
    rows
}

/// The names reported for a country: those of its entry, or, for a country
/// that is not listed, the code in brackets and a general name.
pub open spec fn names_for(entries: Seq<CatalogEntry>, code: Seq<char>) -> (Seq<char>, Seq<char>) {
    match find_entry(entries, code) {
        Some(e) => (e.country_name@, e.format_name@),
        None => ("Country ("@ + code + ")"@, "Account number"@),
    }
}

/// `res` is the result for the domestic account number `raw` of the country
/// `code`, in capitals: it holds the names of the country, the account
/// number whole, in groups of four and by its fields, and the IBAN made of
/// it with the IBAN's check digits, where the country has an IBAN.
pub open spec fn account_of(c: Catalog, code: Seq<char>, raw: Seq<char>, res: AccountResult) -> bool {
    &&& res.country_code@ == code
    &&& res.country_name@ == names_for(c.entries(), code).0
    &&& res.format_name@ == names_for(c.entries(), code).1
    &&& res.raw@ == raw
    &&& res.formatted@ == formatted(raw, 4, ' ')
    &&& parts_by(
        c.entries(),
        code,
        raw,
        res.bank_code@,
        res.branch_code@,
        res.account_number@,
    )
    &&& if iban_supported(code) {
        &&& res.iban is Some
        &&& res.iban->0@ == iban_text(code, raw)
        &&& res.check_digits@ == two_digits(iban_check(code, raw))
    } else {
        res.iban is None && res.check_digits@.len() == 0
    }
    &&& res.valid
}

/// The catalog of bank accounts.
pub struct Registry {
    catalog: Catalog,
}

impl Default for Registry {
    fn default() -> (r: Self)
        ensures
            is_bank_catalog(r.catalog()),
    {
        Registry::new()
    }
}

impl Registry {
    #[verifier::type_invariant]
    spec fn inv(&self) -> bool {
        is_bank_catalog(self.catalog)
    }

    /// The catalog that the registry holds.
    pub closed spec fn catalog(&self) -> Catalog {
        self.catalog
    }

    /// Builds the catalog of bank accounts.
    pub fn new() -> (r: Self)
        ensures
            is_bank_catalog(r.catalog()),
    {
        let rows = account_catalog();
        let lines: Vec<Entry> = vec![
            ("AT", "Austria", "BBAN"),
            ("BE", "Belgium", "BBAN"),
            ("CH", "Switzerland", "BBAN"),
            ("CZ", "Czech Republic", "BBAN"),
            ("DE", "Germany", "BBAN"),
            ("DK", "Denmark", "BBAN"),
            ("ES", "Spain", "BBAN"),
            ("FI", "Finland", "BBAN"),
            ("FR", "France", "BBAN"),
            ("GB", "United Kingdom", "BBAN"),
            ("IE", "Ireland", "BBAN"),
            ("IT", "Italy", "BBAN"),
            ("LU", "Luxembourg", "BBAN"),
            ("NL", "Netherlands", "BBAN"),
            ("NO", "Norway", "BBAN"),
            ("PL", "Poland", "BBAN"),
            ("PT", "Portugal", "BBAN"),
            ("SE", "Sweden", "BBAN"),
            ("AU", "Australia", "BSB and account number"),
            ("CA", "Canada", "Transit and account number"),
            ("US", "United States", "ABA routing and account number"),
        ];
        assert(lines@ =~= bank_lines());
        let mut entries: Vec<CatalogEntry> = Vec::new();
        let mut i: usize = 0;
        while i < lines.len()
            invariant
                i <= lines.len(),
                lines@ == bank_lines(),
                rows@ == account_rows(),
                entries@.len() == i,
                forall|k: int|
                    0 <= k < i ==> {
                        let e = #[trigger] entries@[k];
                        &&& (e.code, e.country_name, e.format_name) == lines@[k]
                        &&& e.descriptor.fields@ == fields_of(account_rows(), e.code@)
                        &&& e.descriptor.country_code@ == e.code@
                        &&& e.descriptor.checksum is NoChecksum
                        &&& !e.descriptor.wraps_iban
                    },
            decreases lines.len() - i,
        {
            let (code, country_name, format_name) = lines[i];
            let cc = chars_of(code);
            let fields = fields_in(&rows, &cc);
            entries.push(
                CatalogEntry {
                    code,
                    country_name,
                    format_name,
                    descriptor: FormatDescriptor {
                        country_code: string_of(&cc),
                        fields,
                        checksum: ChecksumAlgorithm::NoChecksum,
                        wraps_iban: false,
                    },
                },
            );
            i += 1;
        }
        let fallback = Fallback { min_length: 8, max_length: 20, length: 12 };
        proof {
            lemma_account_rows();
            assert forall|k: int| 0 <= k < entries@.len() implies two_capitals(
                (#[trigger] entries@[k]).code@,
            ) && entries@[k].descriptor.wf() by {
                let e = entries@[k];
                assert(e.code == bank_lines()[k].0);
                assert(two_capitals(bank_lines()[k].0@));
                lemma_fields_of(account_rows(), e.code@);
                assert forall|j: int| 0 <= j < e.descriptor.fields@.len() implies !((
                #[trigger] e.descriptor.fields@[j]).class is Literal) && !is_check(
                    e.descriptor.fields@[j],
                ) by {
                    assert(from_row(account_rows(), e.code@, e.descriptor.fields@[j]));
                }
            }
            assert(catalog_wf(entries@, Some(fallback)));
        }
        let ghost listed = entries@;
        let catalog = Catalog::new(entries, Some(fallback)).unwrap();
        proof {
            assert(lines_of(listed) =~= bank_lines());
        }
        Registry { catalog }
    }

    /// Whether bank accounts of `country`, whose case does not matter, can
    /// be generated and checked: the country is listed, or is any other two
    /// ASCII letters.
    pub fn is_supported(&self, country: &str) -> (r: bool)
        ensures
            is_bank_catalog(self.catalog()),
            r == self.catalog().supports(upper(country@)),
            r == two_letters(upper(country@)),
    {
        proof {
            use_type_invariant(self);
        }
        self.catalog.is_supported(country)
    }

    /// Checks `raw` as a domestic account number of `country`, whose case
    /// does not matter. The result is `None` exactly where the country is
    /// not supported; an account number of the wrong length or alphabet
    /// gives `Some(false)`.
    pub fn validate(&self, country: &str, raw: &str) -> (r: Option<bool>)
        ensures
            is_bank_catalog(self.catalog()),
            r == self.catalog().verdict(upper(country@), raw@),
            r is Some <==> self.catalog().supports(upper(country@)),
            r is Some <==> two_letters(upper(country@)),
    {
        proof {
            use_type_invariant(self);
        }
        self.catalog.validate(country, raw)
    }

    /// Writes a domestic account number of `country` in groups of four
    /// characters with a space between them; `None` exactly where the
    /// country is not supported. What the account number holds is not looked
    /// at, and one that is formatted already comes back unchanged.
    pub fn format(&self, country: &str, raw: &str) -> (r: Option<String>)
        ensures
            is_bank_catalog(self.catalog()),
            r is Some <==> self.catalog().supports(upper(country@)),
            r is Some ==> r->0@ == formatted(raw@, 4, ' ') && formatted(r->0@, 4, ' ') == r->0@,
    {
        proof {
            use_type_invariant(self);
        }
        if self.catalog.is_supported(country) {
            Some(group_text(raw, 4, ' '))
        } else {
            None
        }
    }

    /// The listed countries, each with its code, its name, the name of its
    /// account number, and whether it has an IBAN: each code once, in rising
    /// order of the codes. Every country of the list is supported.
    pub fn list_countries(&self) -> (list: Vec<(&'static str, &'static str, &'static str, bool)>)
        ensures
            is_bank_catalog(self.catalog()),
            sorted_by_code(lines_in(list@)),
            forall|i: int|
                0 <= i < list@.len() ==> wins(bank_lines(), #[trigger] lines_in(list@)[i]),
            forall|k: int|
                0 <= k < bank_lines().len() ==> has_code(
                    lines_in(list@),
                    (#[trigger] bank_lines()[k]).0@,
                ),
            forall|i: int|
                0 <= i < list@.len() ==> (#[trigger] list@[i]).3 == iban_supported(list@[i].0@),
            forall|i: int|
                0 <= i < list@.len() ==> self.catalog().supports(upper((#[trigger] list@[i]).0@)),
    {
        proof {
            use_type_invariant(self);
        }
        let inner = self.catalog.list_countries();
        let table = bban_catalog();
        let mut list: Vec<(&'static str, &'static str, &'static str, bool)> = Vec::new();
        let mut i: usize = 0;
        while i < inner.len()
            invariant
                i <= inner.len(),
                table@ == bban_table(),
                list@.len() == i,
                forall|k: int|
                    0 <= k < i ==> (#[trigger] list@[k]) == (
                        inner@[k].0,
                        inner@[k].1,
                        inner@[k].2,
                        iban_supported(inner@[k].0@),
                    ),
            decreases inner.len() - i,
        {
            let (code, country_name, format_name) = inner[i];
            let cc = chars_of(code);
            let has_iban = fields_in(&table, &cc).len() > 0;
            list.push((code, country_name, format_name, has_iban));
            i += 1;
        }
        proof {
            assert(lines_in(list@) =~= inner@);
            assert forall|k: int| 0 <= k < bank_lines().len() implies has_code(
                lines_in(list@),
                (#[trigger] bank_lines()[k]).0@,
            ) by {
                assert(lines_of(self.catalog.entries())[k] == bank_lines()[k]);
                assert(self.catalog.entries()[k].code == bank_lines()[k].0);
            }
        }
        list
    }

    /// Generates a bank account of `country`, whose case does not matter:
    /// a domestic account number of the country's shape, with the bank code
    /// of `opts` where it fits the country's bank code field, and the IBAN
    /// made of it where the country has one. The result is `None` exactly
    /// where the country is not supported, and the account number passes
    /// `validate` for the country.
    pub fn generate(&self, country: &str, opts: &GenOptions, rng: &mut StdRng) -> (r: Option<
        AccountResult,
    >)
        ensures
            is_bank_catalog(self.catalog()),
            r is Some <==> self.catalog().supports(upper(country@)),
            r is Some <==> two_letters(upper(country@)),
            r is Some ==> {
                let res = r->0;
                &&& account_of(self.catalog(), upper(country@), res.raw@, res)
                &&& self.catalog().verdict(upper(country@), res.raw@) == Some(true)
                &&& written_by(
                    self.catalog().entries(),
                    self.catalog().fallback(),
                    upper(country@),
                    res.raw@,
                )
                &&& match find_entry(self.catalog().entries(), upper(country@)) {
                    Some(e) => preset_ok(
                        e.descriptor.fields@,
                        match opts.bank_code {
                            Some(b) => Some(b@),
                            None => None,
                        },
                        res.raw@,
                    ),
                    None => true,
                }
            },
    {
        proof {
            use_type_invariant(self);
        }
        let bank: Option<Vec<char>> = match &opts.bank_code {
            Some(b) => Some(chars_of(b.as_str())),
            None => None,
        };
        let raw = match self.catalog.generate_preset(country, &bank, rng) {
            Some(raw) => raw,
            None => {
                return None;
            },
        };
        let cc = upper_chars(country);
        let raw_chars = chars_of(raw.as_str());
        let parsed = self.catalog.parse(country, raw.as_str()).unwrap().unwrap();
        let names = self.catalog.names_of(country);
        let (country_name, format_name) = match names {
            Some((a, b)) => (String::from_str(a), String::from_str(b)),
            None => {
                let mut name = String::from_str("Country (");
                name.append(string_of(&cc).as_str());
                name.append(")");
                (name, String::from_str("Account number"))
            },
        };
        proof {
            let entries = self.catalog.entries();
            lemma_find_entry(entries, cc@);
            if find_entry(entries, cc@) is Some {
                let e = find_entry(entries, cc@)->0;
                let k = choose|k: int| 0 <= k < entries.len() && entries[k] == e;
                assert(!entries[k].descriptor.wraps_iban);
                assert(e.descriptor.body(raw@) == raw@);
            }
        }
        let table = bban_catalog();
        let has_iban = fields_in(&table, &cc).len() > 0;
        let mut iban: Option<String> = None;
        let mut check: Vec<char> = Vec::new();
        if has_iban {
            proof {
                lemma_bban_table();
                lemma_fields_of(bban_table(), cc@);
                assert(from_row(bban_table(), cc@, fields_of(bban_table(), cc@)[0]));
                let i = choose|i: int|
                    0 <= i < bban_table().len() && (#[trigger] bban_table()[i]).country@ == cc@;
                assert(two_capitals(bban_table()[i].country@));
                lemma_raw_is_alnum(self.catalog, cc@, raw@);
            }
            let code = wrap_iban(&cc, &raw_chars);
            check.push(code[2]);
            check.push(code[3]);
            assert(check@ =~= two_digits(iban_check(cc@, raw@)));
            iban = Some(string_of(&code));
        }
        Some(
            AccountResult {
                country_code: string_of(&cc),
                country_name,
                format_name,
                bank_code: parsed.bank_code,
                branch_code: parsed.branch_code,
                account_number: parsed.account_number,
                check_digits: string_of(&check),
                formatted: group_text(raw.as_str(), 4, ' '),
                raw,
                iban,
                valid: true,
            },
        )
    }
}

/// The lines of a country list with the flags left out.
pub open spec fn lines_in(list: Seq<(&'static str, &'static str, &'static str, bool)>) -> Seq<Entry> {
    Seq::new(list.len(), |i: int| (list[i].0, list[i].1, list[i].2))
}

/// A valid account number of the catalog of bank accounts is made of
/// letters and digits.
pub proof fn lemma_raw_is_alnum(c: Catalog, code: Seq<char>, raw: Seq<char>)
    requires
        is_bank_catalog(c),
        c.verdict(code, raw) == Some(true),
    ensures
        all_alnum(raw),
{
    lemma_find_entry(c.entries(), code);
    match find_entry(c.entries(), code) {
        Some(e) => {
            let fields = e.descriptor.fields@;
            lemma_account_rows();
            lemma_fields_of(account_rows(), e.code@);
            assert forall|k: int| 0 <= k < fields.len() implies match (#[trigger] fields[k]).class {
                CharClass::Literal(t) => all_alnum(t@),
                _ => true,
            } by {
                assert(from_row(account_rows(), e.code@, fields[k]));
            }
            lemma_shape_alnum(fields, raw, fields.len() as int);
            assert(fields.take(fields.len() as int) =~= fields);
            assert(raw.take(raw.len() as int) =~= raw);
        },
        None => {},
    }
}

} // verus!
