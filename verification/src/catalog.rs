//! Country format catalogs: for one domain, the descriptor of each country
//! that is listed by name, and a fallback shape for any other country.

use vstd::prelude::*;
use rand::rngs::StdRng;
use crate::format::{
    FormatDescriptor, ParsedFields, validate_chars, generate_with_bank, parse_with, all_plain,
    preset_ok, preset_of, role_text, Role,
};
use crate::listing::{Entry, sorted_by_code, has_code, wins, merge_sorted};
use crate::random::draw_alnum;
use crate::text::{
    is_digit, is_upper, is_alnum, all_alnum, two_letters, two_capitals, upper, chars_of,
    upper_chars, string_of, is_text, is_two_letters, alnum_between, char_is_upper,
    lemma_capitals_stay,
};

verus! {

/// One country of a catalog.
#[derive(Clone, Debug)]
pub struct CatalogEntry {
    /// The two-letter country code, in capitals.
    pub code: &'static str,
    /// The country's name in English.
    pub country_name: &'static str,
    /// What the code is called in that country.
    pub format_name: &'static str,
    /// The shape of the code.
    pub descriptor: FormatDescriptor,
}

/// The shape assumed for a country that is not listed by name: letters and
/// digits, of a length within a range.
#[derive(Clone, Copy, Debug)]
pub struct Fallback {
    /// The least length that is accepted.
    pub min_length: u8,
    /// The greatest length that is accepted.
    pub max_length: u8,
    /// The length that is generated.
    pub length: u8,
}

/// The first entry of `entries` whose country code is `code`, if there is
/// one.
pub open spec fn find_entry(entries: Seq<CatalogEntry>, code: Seq<char>) -> Option<CatalogEntry>
    decreases entries.len(),
{
    if entries.len() == 0 {
        None
    } else if entries[0].code@ == code {
        Some(entries[0])
    } else {
        find_entry(entries.drop_first(), code)
    }
}

/// `input` is accepted by the fallback shape.
pub open spec fn fallback_accepts(fallback: Fallback, input: Seq<char>) -> bool {
    fallback.min_length <= input.len() <= fallback.max_length && all_alnum(input)
}

/// Whether there is a shape for the country `code`, in capitals: the
/// country is listed, or there is a fallback and the code is two letters.
pub open spec fn supported_by(
    entries: Seq<CatalogEntry>,
    fallback: Option<Fallback>,
    code: Seq<char>,
) -> bool {
    find_entry(entries, code) is Some || (fallback is Some && two_letters(code))
}

/// The verdict on `input` as a code of the country `code`, in capitals:
/// `None` where there is no shape for the country.
pub open spec fn verdict_by(
    entries: Seq<CatalogEntry>,
    fallback: Option<Fallback>,
    code: Seq<char>,
    input: Seq<char>,
) -> Option<bool> {
    match find_entry(entries, code) {
        Some(e) => Some(e.descriptor.valid(input)),
        None => if fallback is Some && two_letters(code) {
            Some(fallback_accepts(fallback->0, input))
        } else {
            None
        },
    }
}

/// The entries and the fallback keep to the rules of a catalog: every
/// country code is two capital letters, every descriptor keeps to the rules
/// of its kind, and the fallback generates a length that it accepts.
pub open spec fn catalog_wf(entries: Seq<CatalogEntry>, fallback: Option<Fallback>) -> bool {
    &&& forall|i: int|
        0 <= i < entries.len() ==> two_capitals((#[trigger] entries[i]).code@)
            && entries[i].descriptor.wf()
    &&& fallback is Some ==> fallback->0.min_length <= fallback->0.length
        <= fallback->0.max_length
}

/// The line of an entry in a country list.
pub open spec fn line_of(e: CatalogEntry) -> Entry {
    (e.code, e.country_name, e.format_name)
}

/// The lines of all entries, in the order of the catalog.
pub open spec fn lines_of(entries: Seq<CatalogEntry>) -> Seq<Entry> {
    Seq::new(entries.len(), |i: int| line_of(entries[i]))
}

/// The place of the first entry whose country code is `code`, taken as
/// written.
pub fn find_index(entries: &Vec<CatalogEntry>, code: &Vec<char>) -> (found: Option<usize>)
    ensures
        match found {
            Some(i) => i < entries@.len() && find_entry(entries@, code@) == Some(entries@[i as int]),
            None => find_entry(entries@, code@) is None,
        },
{
    let mut i: usize = 0;
    proof {
        assert(entries@.subrange(0, entries@.len() as int) =~= entries@);
    }
    while i < entries.len()
        invariant
            i <= entries.len(),
            find_entry(entries@, code@) == find_entry(
                entries@.subrange(i as int, entries@.len() as int),
                code@,
            ),
        decreases entries.len() - i,
    {
        proof {
            let rest = entries@.subrange(i as int, entries@.len() as int);
            assert(rest.drop_first() =~= entries@.subrange(i + 1, entries@.len() as int));
            assert(rest[0] == entries@[i as int]);
        }
        if is_text(code, entries[i].code) {
            return Some(i);
        }
        i += 1;
    }
    None
}

/// The first entry found for a code is an entry of the catalog.
pub proof fn lemma_find_entry(entries: Seq<CatalogEntry>, code: Seq<char>)
    ensures
        find_entry(entries, code) is Some ==> entries.contains(find_entry(entries, code)->0)
            && find_entry(entries, code)->0.code@ == code,
        find_entry(entries, code) is None ==> forall|i: int|
            0 <= i < entries.len() ==> (#[trigger] entries[i]).code@ != code,
    decreases entries.len(),
{
    if entries.len() > 0 {
        if entries[0].code@ == code {
            assert(entries[0] == find_entry(entries, code)->0);
        } else {
            let rest = entries.drop_first();
            lemma_find_entry(rest, code);
            if find_entry(rest, code) is Some {
                let e = find_entry(rest, code)->0;
                let k = choose|k: int| 0 <= k < rest.len() && rest[k] == e;
                assert(entries[k + 1] == e);
            } else {
                assert forall|i: int| 0 <= i < entries.len() implies (
                #[trigger] entries[i]).code@ != code by {
                    if i > 0 {
                        assert(rest[i - 1] == entries[i]);
                    }
                }
            }
        }
    }
}

/// In a catalog with a fallback the countries with a shape are those whose
/// code is two ASCII letters: only a code of another length, or with
/// another character, has none.
pub proof fn lemma_supported_is_two_letters(
    entries: Seq<CatalogEntry>,
    fallback: Option<Fallback>,
    code: Seq<char>,
)
    requires
        catalog_wf(entries, fallback),
        fallback is Some,
    ensures
        supported_by(entries, fallback, code) <==> two_letters(code),
{
    lemma_find_entry(entries, code);
    if find_entry(entries, code) is Some {
        let e = find_entry(entries, code)->0;
        let k = choose|k: int| 0 <= k < entries.len() && entries[k] == e;
        assert(two_capitals(entries[k].code@));
        lemma_capitals_stay(code);
    }
}

/// `parsed` is the breakdown of `input`, a valid code of the country
/// `code`: by the fields of the country's descriptor, or, for a country that
/// is not listed, with the whole code as the account number.
pub open spec fn parsed_by(
    entries: Seq<CatalogEntry>,
    code: Seq<char>,
    input: Seq<char>,
    parsed: ParsedFields,
) -> bool {
    match find_entry(entries, code) {
        Some(e) => e.descriptor.parsed_as(input, parsed),
        None => {
            &&& parsed.account_number@ == input
            &&& parsed.bank_code@.len() == 0
            &&& parsed.branch_code@.len() == 0
            &&& parsed.check_digits@.len() == 0
        },
    }
}

/// `bank`, `branch` and `account` are the bank code, the branch code and
/// the account number of `input`, a valid code of the country `code`: by
/// the fields of the country's descriptor, or, for a country that is not
/// listed, with the whole code as the account number.
pub open spec fn parts_by(
    entries: Seq<CatalogEntry>,
    code: Seq<char>,
    input: Seq<char>,
    bank: Seq<char>,
    branch: Seq<char>,
    account: Seq<char>,
) -> bool {
    match find_entry(entries, code) {
        Some(e) => {
            let fields = e.descriptor.fields@;
            let body = e.descriptor.body(input);
            let n = fields.len() as int;
            &&& bank == role_text(fields, body, Role::BankCode, n)
            &&& branch == role_text(fields, body, Role::BranchCode, n)
            &&& account == role_text(fields, body, Role::AccountNumber, n)
        },
        None => account == input && bank.len() == 0 && branch.len() == 0,
    }
}

/// `text` is written as a generator writes a code of the country `code`.
pub open spec fn written_by(
    entries: Seq<CatalogEntry>,
    fallback: Option<Fallback>,
    code: Seq<char>,
    text: Seq<char>,
) -> bool {
    match find_entry(entries, code) {
        Some(e) => e.descriptor.written(text),
        None => fallback is Some && text.len() == fallback->0.length && all_plain(text),
    }
}

/// A catalog of one domain.
pub struct Catalog {
    entries: Vec<CatalogEntry>,
    fallback: Option<Fallback>,
}

impl Catalog {
    #[verifier::type_invariant]
    spec fn inv(&self) -> bool {
        catalog_wf(self.entries@, self.fallback)
    }

    /// The countries that the catalog lists, in its own order.
    pub closed spec fn entries(&self) -> Seq<CatalogEntry> {
        self.entries@
    }

    /// The fallback shape of the catalog, if it has one.
    pub closed spec fn fallback(&self) -> Option<Fallback> {
        self.fallback
    }

    /// Whether the catalog has a shape for the country `code`, in capitals.
    pub open spec fn supports(&self, code: Seq<char>) -> bool {
        supported_by(self.entries(), self.fallback(), code)
    }

    /// The verdict of the catalog on `input` as a code of the country
    /// `code`, in capitals.
    pub open spec fn verdict(&self, code: Seq<char>, input: Seq<char>) -> Option<bool> {
        verdict_by(self.entries(), self.fallback(), code, input)
    }

    /// Makes a catalog of the given countries and fallback: `None` where
    /// they do not keep to the rules of a catalog.
    pub fn new(entries: Vec<CatalogEntry>, fallback: Option<Fallback>) -> (r: Option<Catalog>)
        ensures
            r is Some <==> catalog_wf(entries@, fallback),
            r is Some ==> r->0.entries() == entries@ && r->0.fallback() == fallback,
    {
        match fallback {
            Some(f) => {
                if f.min_length > f.length || f.length > f.max_length {
                    return None;
                }
            },
            None => {},
        }
        let mut i: usize = 0;
        while i < entries.len()
            invariant
                i <= entries.len(),
                forall|k: int|
                    0 <= k < i ==> two_capitals((#[trigger] entries@[k]).code@)
                        && entries@[k].descriptor.wf(),
            decreases entries.len() - i,
        {
            let code = chars_of(entries[i].code);
            if code.len() != 2 || !char_is_upper(code[0]) || !char_is_upper(code[1]) {
                return None;
            }
            if !entries[i].descriptor.is_well_formed() {
                return None;
            }
            i += 1;
        }
        Some(Catalog { entries, fallback })
    }

    /// The name of `country`, whose case does not matter, and the name of
    /// its code, where the catalog lists the country.
    pub fn names_of(&self, country: &str) -> (r: Option<(&'static str, &'static str)>)
        ensures
            match find_entry(self.entries(), upper(country@)) {
                Some(e) => r == Some((e.country_name, e.format_name)),
                None => r is None,
            },
    {
        let cc = upper_chars(country);
        match find_index(&self.entries, &cc) {
            Some(i) => Some((self.entries[i].country_name, self.entries[i].format_name)),
            None => None,
        }
    }

    /// Whether codes of `country`, whose case does not matter, can be
    /// generated and checked.
    pub fn is_supported(&self, country: &str) -> (r: bool)
        ensures
            r == self.supports(upper(country@)),
            self.fallback() is Some ==> r == two_letters(upper(country@)),
    {
        proof {
            use_type_invariant(self);
            if self.fallback is Some {
                lemma_supported_is_two_letters(self.entries@, self.fallback, upper(country@));
            }
        }
        let cc = upper_chars(country);
        find_index(&self.entries, &cc).is_some() || (self.fallback.is_some() && is_two_letters(
            &cc,
        ))
    }

    /// Checks `input` as a code of `country`, whose case does not matter.
    /// The result is `None` exactly where the country is not supported; a
    /// code of the wrong length, alphabet or check digits gives
    /// `Some(false)`.
    pub fn validate(&self, country: &str, input: &str) -> (r: Option<bool>)
        ensures
            r == self.verdict(upper(country@), input@),
            r is Some <==> self.supports(upper(country@)),
            self.fallback() is Some ==> (r is Some <==> two_letters(upper(country@))),
    {
        proof {
            use_type_invariant(self);
            if self.fallback is Some {
                lemma_supported_is_two_letters(self.entries@, self.fallback, upper(country@));
            }
        }
        let cc = upper_chars(country);
        let chars = chars_of(input);
        match find_index(&self.entries, &cc) {
            Some(i) => Some(validate_chars(&self.entries[i].descriptor, &chars)),
            None => match self.fallback {
                Some(f) => {
                    if is_two_letters(&cc) {
                        assert(chars@.subrange(0, chars@.len() as int) =~= chars@);
                        Some(
                            f.min_length as usize <= chars.len() && chars.len()
                                <= f.max_length as usize && alnum_between(
                                &chars,
                                0,
                                chars.len(),
                            ),
                        )
                    } else {
                        None
                    }
                },
                None => None,
            },
        }
    }

    /// Generates a code of `country`, whose case does not matter: by the
    /// country's descriptor, with the bank code asked for where it fits a
    /// bank code field, or, for a country that is not listed, of the
    /// fallback's length from drawn digits and capital letters. The result
    /// is `None` exactly where the country is not supported, and what is
    /// generated passes `validate` for the country.
    pub fn generate_preset(&self, country: &str, bank: &Option<Vec<char>>, rng: &mut StdRng) -> (r:
        Option<String>)
        ensures
            r is Some <==> self.supports(upper(country@)),
            self.fallback() is Some ==> (r is Some <==> two_letters(upper(country@))),
            r is Some ==> self.verdict(upper(country@), r->0@) == Some(true),
            r is Some ==> written_by(self.entries(), self.fallback(), upper(country@), r->0@),
            r is Some ==> match find_entry(self.entries(), upper(country@)) {
                Some(e) => preset_ok(e.descriptor.fields@, preset_of(*bank), e.descriptor.body(r->0@)),
                None => true,
            },
    {
        proof {
            use_type_invariant(self);
            if self.fallback is Some {
                lemma_supported_is_two_letters(self.entries@, self.fallback, upper(country@));
            }
        }
        let cc = upper_chars(country);
        match find_index(&self.entries, &cc) {
            Some(i) => {
                proof {
                    assert(self.entries@[i as int].descriptor.wf());
                }
                Some(generate_with_bank(&self.entries[i].descriptor, bank, rng))
            },
            None => match self.fallback {
                Some(f) => {
                    if !is_two_letters(&cc) {
                        return None;
                    }
                    let mut text: Vec<char> = Vec::new();
                    let mut k: u8 = 0;
                    while k < f.length
                        invariant
                            k <= f.length,
                            text@.len() == k,
                            all_plain(text@),
                        decreases f.length - k,
                    {
                        text.push(draw_alnum(rng));
                        k += 1;
                    }
                    assert(all_alnum(text@)) by {
                        assert forall|p: int| 0 <= p < text@.len() implies is_alnum(
                            #[trigger] text@[p],
                        ) by {
                            assert(is_digit(text@[p]) || is_upper(text@[p]));
                        }
                    }
                    Some(string_of(&text))
                },
                None => None,
            },
        }
    }

    /// Generates a code of `country`, whose case does not matter, with
    /// every field drawn or derived. The result is `None` exactly where the
    /// country is not supported, and what is generated passes `validate`
    /// for the country.
    pub fn generate(&self, country: &str, rng: &mut StdRng) -> (r: Option<String>)
        ensures
            r is Some <==> self.supports(upper(country@)),
            r is Some ==> self.verdict(upper(country@), r->0@) == Some(true),
            r is Some ==> written_by(self.entries(), self.fallback(), upper(country@), r->0@),
    {
        self.generate_preset(country, &None, rng)
    }

    /// Breaks `input`, a code of `country`, whose case does not matter,
    /// into its fields. The result is `None` where the country is not
    /// supported, `Some(None)` where the code is not valid, and else the
    /// breakdown.
    pub fn parse(&self, country: &str, input: &str) -> (r: Option<Option<ParsedFields>>)
        ensures
            r is Some <==> self.supports(upper(country@)),
            r is Some ==> (r->0 is Some <==> self.verdict(upper(country@), input@) == Some(true)),
            r is Some && r->0 is Some ==> parsed_by(
                self.entries(),
                upper(country@),
                input@,
                r->0->0,
            ),
    {
        let cc = upper_chars(country);
        match find_index(&self.entries, &cc) {
            Some(i) => Some(parse_with(&self.entries[i].descriptor, input)),
            None => match self.validate(country, input) {
                Some(true) => {
                    let chars = chars_of(input);
                    Some(
                        Some(
                            ParsedFields {
                                bank_code: String::new(),
                                branch_code: String::new(),
                                account_number: string_of(&chars),
                                check_digits: String::new(),
                            },
                        ),
                    )
                },
                Some(false) => Some(None),
                None => None,
            },
        }
    }

    /// The countries that the catalog lists by name, each with its code,
    /// its name and the name of its code: each code once, with the first
    /// entry that has it, in rising order of the codes. Every country of the
    /// list is supported.
    pub fn list_countries(&self) -> (list: Vec<Entry>)
        ensures
            sorted_by_code(list@),
            forall|i: int| 0 <= i < list@.len() ==> wins(lines_of(self.entries()), #[trigger] list@[i]),
            forall|k: int|
                0 <= k < self.entries().len() ==> has_code(
                    list@,
                    (#[trigger] self.entries()[k]).code@,
                ),
            forall|i: int| 0 <= i < list@.len() ==> self.supports(upper((#[trigger] list@[i]).0@)),
    {
        proof {
            use_type_invariant(self);
        }
        let mut source: Vec<Entry> = Vec::new();
        let mut i: usize = 0;
        while i < self.entries.len()
            invariant
                i <= self.entries.len(),
                source@ == lines_of(self.entries@).take(i as int),
            decreases self.entries.len() - i,
        {
            let e = &self.entries[i];
            source.push((e.code, e.country_name, e.format_name));
            assert(source@ =~= lines_of(self.entries@).take(i + 1));
            i += 1;
        }
        assert(lines_of(self.entries@).take(self.entries@.len() as int) =~= lines_of(
            self.entries@,
        ));
        let list = merge_sorted(&source);
        proof {
            let lines = lines_of(self.entries@);
            assert forall|k: int| 0 <= k < self.entries@.len() implies has_code(
                list@,
                (#[trigger] self.entries@[k]).code@,
            ) by {
                assert(lines[k].0 == self.entries@[k].code);
                assert(has_code(list@, lines[k].0@));
            }
            assert forall|i: int| 0 <= i < list@.len() implies self.supports(
                upper((#[trigger] list@[i]).0@),
            ) by {
                assert(wins(lines, list@[i]));
                let k = choose|k: int| 0 <= k < lines.len() && #[trigger] lines[k] == list@[i];
                assert(lines[k].0 == self.entries@[k].code);
                assert(two_capitals(self.entries@[k].code@));
                lemma_capitals_stay(list@[i].0@);
                lemma_find_entry(self.entries@, list@[i].0@);
            }
        }
        list
    }
}

} // verus!
