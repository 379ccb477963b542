//! SWIFT/BIC codes: four characters for the bank, two letters for the
//! country, two characters for the location, and an optional branch of three.

use vstd::prelude::*;
use rand::rngs::StdRng;
use crate::random::{draw_in, draw_index, draw_ratio, draw_upper, draw_uppers};
use crate::text::{
    is_upper, is_letter, is_alnum, all_alnum, upper, chars_of, upper_chars, string_of,
    alnum_between, char_is_letter, two_letters, two_capitals, lemma_capitals_stay, all_upper,
    is_code,
};

verus! {

/// A generated SWIFT code with its parts.
#[derive(Debug, Clone)]
pub struct SwiftResult {
    /// The whole code: bank, country, location and branch, in this order.
    pub code: String,
    /// The four characters of the bank.
    pub bank: String,
    /// The country code, in capitals.
    pub country: String,
    /// The two characters of the location.
    pub location: String,
    /// The three characters of the branch, where the code has one.
    pub branch: Option<String>,
    /// Whether the code passes validation.
    pub valid: bool,
}

/// How to generate: for a given country, or for one drawn from a fixed list.
#[derive(Debug, Clone)]
pub struct GenOptions {
    /// The country code, in either case; `None` to have one drawn.
    pub country: Option<String>,
}

impl Default for GenOptions {
    fn default() -> (opts: Self)
        ensures
            opts.country is None,
    {
        GenOptions { country: None }
    }
}

/// A well-formed SWIFT code: eight or eleven ASCII letters and digits, the
/// fifth and the sixth being letters.
pub open spec fn swift_valid(s: Seq<char>) -> bool {
    (s.len() == 8 || s.len() == 11) && all_alnum(s) && is_letter(s[4]) && is_letter(s[5])
}

/// The countries that a code is generated for where none is asked for.
pub open spec fn swift_countries() -> Seq<&'static str> {
    seq!["US", "GB", "DE", "FR", "IN", "CN", "JP", "AU", "CA", "CH", "IT", "ES", "NL", "SG", "HK"]
}

/// The bank codes that are used for a country, in capitals; none for a
/// country whose bank codes are drawn letter by letter.
pub open spec fn bank_pool(country: Seq<char>) -> Seq<&'static str> {
    if country == seq!['U', 'S'] {
        seq!["CHAS", "CITI", "BOFA", "JPMC", "WFCU"]
    } else if country == seq!['G', 'B'] {
        seq!["BARC", "LLOY", "HSBC", "NWRS", "RBOS"]
    } else if country == seq!['D', 'E'] {
        seq!["DEUT", "COBA", "DABA", "DRE2", "DZAD"]
    } else if country == seq!['F', 'R'] {
        seq!["BNPA", "SOGE", "CRLY", "BCIT", "BCEP"]
    } else {
        Seq::empty()
    }
}

/// What a generator may use as the bank of a country, in capitals: one of
/// the country's bank codes, or four capital letters where it has none.
pub open spec fn bank_fits(country: Seq<char>, bank: Seq<char>) -> bool {
    if bank_pool(country).len() > 0 {
        exists|k: int| 0 <= k < bank_pool(country).len() && (#[trigger] bank_pool(country)[k])@ == bank
    } else {
        bank.len() == 4 && all_upper(bank)
    }
}

/// What a generator may use as a location: a capital letter and a digit
/// from two to nine.
pub open spec fn location_fits(location: Seq<char>) -> bool {
    location.len() == 2 && is_upper(location[0]) && '2' <= location[1] <= '9'
}

/// What a generator may use as a branch: three capital letters.
pub open spec fn branch_fits(branch: Seq<char>) -> bool {
    branch.len() == 3 && all_upper(branch)
}

/// The characters of a branch; none where there is no branch.
pub open spec fn branch_text(branch: Option<String>) -> Seq<char> {
    match branch {
        Some(b) => b@,
        None => Seq::empty(),
    }
}

/// `res` holds the given parts, its code is the parts one after another,
/// and its flag is the verdict of validation on that code.
pub open spec fn swift_assembled(
    bank: Seq<char>,
    country: Seq<char>,
    location: Seq<char>,
    branch: Option<Seq<char>>,
    res: SwiftResult,
) -> bool {
    &&& res.bank@ == bank
    &&& res.country@ == country
    &&& res.location@ == location
    &&& match branch {
        Some(b) => res.branch is Some && res.branch->0@ == b,
        None => res.branch is None,
    }
    &&& res.code@ == bank + country + location + branch_text(res.branch)
    &&& res.valid == swift_valid(res.code@)
}

/// Every bank code of every country is four ASCII letters or digits.
pub proof fn lemma_bank_pool(country: Seq<char>)
    ensures
        forall|k: int|
            0 <= k < bank_pool(country).len() ==> (#[trigger] bank_pool(country)[k])@.len() == 4
                && all_alnum(bank_pool(country)[k]@),
{
    reveal_strlit("CHAS");
    reveal_strlit("CITI");
    reveal_strlit("BOFA");
    reveal_strlit("JPMC");
    reveal_strlit("WFCU");
    reveal_strlit("BARC");
    reveal_strlit("LLOY");
    reveal_strlit("HSBC");
    reveal_strlit("NWRS");
    reveal_strlit("RBOS");
    reveal_strlit("DEUT");
    reveal_strlit("COBA");
    reveal_strlit("DABA");
    reveal_strlit("DRE2");
    reveal_strlit("DZAD");
    reveal_strlit("BNPA");
    reveal_strlit("SOGE");
    reveal_strlit("CRLY");
    reveal_strlit("BCIT");
    reveal_strlit("BCEP");
}

/// Every country that may be drawn is two capital letters.
pub proof fn lemma_swift_countries()
    ensures
        swift_countries().len() == 15,
        forall|k: int|
            0 <= k < swift_countries().len() ==> two_capitals((#[trigger] swift_countries()[k])@),
{
    reveal_strlit("US");
    reveal_strlit("GB");
    reveal_strlit("DE");
    reveal_strlit("FR");
    reveal_strlit("IN");
    reveal_strlit("CN");
    reveal_strlit("JP");
    reveal_strlit("AU");
    reveal_strlit("CA");
    reveal_strlit("CH");
    reveal_strlit("IT");
    reveal_strlit("ES");
    reveal_strlit("NL");
    reveal_strlit("SG");
    reveal_strlit("HK");
}

/// A code made of a bank, a country of two letters, a location and a
/// branch that a generator may use is well formed.
pub proof fn lemma_parts_make_valid(
    bank: Seq<char>,
    country: Seq<char>,
    location: Seq<char>,
    branch: Seq<char>,
)
    requires
        bank_fits(country, bank),
        two_letters(country),
        location_fits(location),
        branch.len() == 0 || branch_fits(branch),
    ensures
        swift_valid(bank + country + location + branch),
{
    lemma_bank_pool(country);
    let s = bank + country + location + branch;
    assert(bank.len() == 4 && all_alnum(bank)) by {
        if bank_pool(country).len() > 0 {
            let k = choose|k: int|
                0 <= k < bank_pool(country).len() && (#[trigger] bank_pool(country)[k])@ == bank;
            assert(all_alnum(bank_pool(country)[k]@));
        } else {
            assert forall|i: int| 0 <= i < bank.len() implies is_alnum(#[trigger] bank[i]) by {
                assert(is_upper(bank[i]));
            }
        }
    }
    assert forall|i: int| 0 <= i < s.len() implies is_alnum(#[trigger] s[i]) by {
        if i < 4 {
            assert(s[i] == bank[i]);
        } else if i < 6 {
            assert(s[i] == country[i - 4]);
        } else if i < 8 {
            assert(s[i] == location[i - 6]);
        } else {
            assert(s[i] == branch[i - 8]);
            assert(is_upper(branch[i - 8]));
        }
    }
    assert(s[4] == country[0]);
    assert(s[5] == country[1]);
}

/// Draws one of the texts of `pool`; `None` where the pool is empty.
pub fn pick(pool: &[&'static str], rng: &mut StdRng) -> (picked: Option<&'static str>)
    ensures
        picked is Some <==> pool@.len() > 0,
        picked is Some ==> exists|k: int| 0 <= k < pool@.len() && #[trigger] pool@[k] == picked->0,
{
    if pool.len() == 0 {
        None
    } else {
        let k = draw_index(rng, pool.len());
        Some(pool[k])
    }
}

/// Whether `code` is a well-formed SWIFT code.
pub fn check(code: &Vec<char>) -> (r: bool)
    ensures
        r == swift_valid(code@),
{
    let len = code.len();
    if len != 8 && len != 11 {
        return false;
    }
    assert(code@.subrange(0, len as int) =~= code@);
    if !alnum_between(code, 0, len) {
        return false;
    }
    char_is_letter(code[4]) && char_is_letter(code[5])
}

/// Puts a result together from its parts: the code is the bank, the
/// country, the location and the branch one after another, and the flag
/// says whether that code is well formed.
pub fn assemble(
    bank: &Vec<char>,
    country: &Vec<char>,
    location: &Vec<char>,
    branch: &Option<Vec<char>>,
) -> (res: SwiftResult)
    ensures
        swift_assembled(
            bank@,
            country@,
            location@,
            match *branch {
                Some(b) => Some(b@),
                None => None,
            },
            res,
        ),
{
    let mut code: Vec<char> = Vec::new();
    let mut i: usize = 0;
    while i < bank.len()
        invariant
            i <= bank.len(),
            code@ == bank@.take(i as int),
        decreases bank.len() - i,
    {
        code.push(bank[i]);
        assert(code@ =~= bank@.take(i + 1));
        i += 1;
    }
    assert(bank@.take(bank@.len() as int) =~= bank@);
    i = 0;
    while i < country.len()
        invariant
            i <= country.len(),
            code@ == bank@ + country@.take(i as int),
        decreases country.len() - i,
    {
        code.push(country[i]);
        assert(code@ =~= bank@ + country@.take(i + 1));
        i += 1;
    }
    assert(country@.take(country@.len() as int) =~= country@);
    i = 0;
    while i < location.len()
        invariant
            i <= location.len(),
            code@ == bank@ + country@ + location@.take(i as int),
        decreases location.len() - i,
    {
        code.push(location[i]);
        assert(code@ =~= bank@ + country@ + location@.take(i + 1));
        i += 1;
    }
    assert(location@.take(location@.len() as int) =~= location@);
    let branch_string: Option<String> = match branch {
        Some(b) => {
            i = 0;
            while i < b.len()
                invariant
                    i <= b.len(),
                    code@ == bank@ + country@ + location@ + b@.take(i as int),
                decreases b.len() - i,
            {
                code.push(b[i]);
                assert(code@ =~= bank@ + country@ + location@ + b@.take(i + 1));
                i += 1;
            }
            assert(b@.take(b@.len() as int) =~= b@);
            Some(string_of(b))
        },
        None => {
            assert(code@ =~= bank@ + country@ + location@ + Seq::<char>::empty());
            None
        },
    };
    let valid = check(&code);
    SwiftResult {
        code: string_of(&code),
        bank: string_of(bank),
        country: string_of(country),
        location: string_of(location),
        branch: branch_string,
        valid,
    }
}

/// The catalog of SWIFT codes.
pub struct Registry;

impl Default for Registry {
    fn default() -> (r: Self)
        ensures
            r == Registry,
    {
        Registry::new()
    }
}

impl Registry {
    /// Builds the catalog, which holds nothing of its own.
    pub fn new() -> (r: Self)
        ensures
            r == Registry,
    {
        Registry
    }

    /// Whether `code` is a well-formed SWIFT code: eight or eleven ASCII
    /// letters and digits, with letters at the two places of the country.
    pub fn validate(&self, code: &str) -> (r: bool)
        ensures
            r == swift_valid(code@),
    {
        let chars = chars_of(code);
        check(&chars)
    }

    /// Generates a SWIFT code: for the country of `opts`, taken in
    /// capitals, or, where `opts` names none, for one of `swift_countries`.
    /// The bank is one of the country's bank codes, or four drawn letters
    /// for a country without any; location and branch are drawn. The flag
    /// of the result is the verdict of `validate` on the code, and it is
    /// `true` whenever the country is two ASCII letters.
    pub fn generate(&self, opts: &GenOptions, rng: &mut StdRng) -> (res: SwiftResult)
        ensures
            match opts.country {
                Some(c) => res.country@ == upper(c@),
                None => exists|k: int|
                    0 <= k < swift_countries().len() && (#[trigger] swift_countries()[k])@
                        == res.country@,
            },
            bank_fits(res.country@, res.bank@),
            location_fits(res.location@),
            res.branch is Some ==> branch_fits(res.branch->0@),
            res.code@ == res.bank@ + res.country@ + res.location@ + branch_text(res.branch),
            res.valid == swift_valid(res.code@),
            two_letters(res.country@) ==> res.valid,
            opts.country is None ==> res.valid,
    {
        let country: Vec<char> = match &opts.country {
            Some(c) => upper_chars(c.as_str()),
            None => {
                let countries: [&'static str; 15] = [
                    "US", "GB", "DE", "FR", "IN", "CN", "JP", "AU", "CA", "CH", "IT", "ES", "NL",
                    "SG", "HK",
                ];
                assert(countries@ =~= swift_countries());
                let k = draw_index(rng, 15);
                let picked = upper_chars(countries[k]);
                proof {
                    lemma_swift_countries();
                    lemma_capitals_stay(swift_countries()[k as int]@);
                }
                picked
            },
        };
        let us: [&'static str; 5] = ["CHAS", "CITI", "BOFA", "JPMC", "WFCU"];
        let gb: [&'static str; 5] = ["BARC", "LLOY", "HSBC", "NWRS", "RBOS"];
        let de: [&'static str; 5] = ["DEUT", "COBA", "DABA", "DRE2", "DZAD"];
        let fr: [&'static str; 5] = ["BNPA", "SOGE", "CRLY", "BCIT", "BCEP"];
        let none: [&'static str; 0] = [];
        let pool: &[&'static str] = if is_code(&country, 'U', 'S') {
            us.as_slice()
        } else if is_code(&country, 'G', 'B') {
            gb.as_slice()
        } else if is_code(&country, 'D', 'E') {
            de.as_slice()
        } else if is_code(&country, 'F', 'R') {
            fr.as_slice()
        } else {
            none.as_slice()
        };
        assert(pool@ =~= bank_pool(country@));
        let bank: Vec<char> = match pick(pool, rng) {
            Some(b) => chars_of(b),
            None => draw_uppers(rng, 4),
        };
        let mut location: Vec<char> = Vec::new();
        location.push(draw_upper(rng));
        location.push((draw_in(rng, 50, 57) as u8) as char);
        let branch: Option<Vec<char>> = if draw_ratio(rng, 3, 10) {
            Some(draw_uppers(rng, 3))
        } else if draw_ratio(rng, 1, 5) {
            Some(vec!['X', 'X', 'X'])
        } else {
            None
        };
        let res = assemble(&bank, &country, &location, &branch);
        proof {
            if two_letters(country@) {
                lemma_parts_make_valid(
                    bank@,
                    country@,
                    location@,
                    branch_text(res.branch),
                );
            }
        }
        res
    }
}

} // verus!
