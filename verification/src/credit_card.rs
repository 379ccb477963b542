//! Payment card numbers: the prefix of a brand, drawn digits, and a Luhn
//! check digit.

use vstd::prelude::*;
use rand::rngs::StdRng;
use crate::checksum::{luhn_digit, luhn_check_digit, lemma_luhn_detects_substitution};
use crate::grouping::{formatted, formatted_at, group_text, group_text_at};
use crate::listing::{names, distinct};
use crate::random::{draw_digits, draw_index};
use crate::text::{
    is_digit, all_digits, digits_ok, digits_of, text_of, digit_value, upper, starts_with, chars_of,
    upper_chars, string_of, same_chars, to_digits, push_digits, digits_between,
    lemma_digits_of_text,
};

verus! {

/// A generated card number with its brand.
#[derive(Debug, Clone)]
pub struct CardResult {
    /// The name of the brand.
    pub brand: String,
    /// The card number, digits only.
    pub number: String,
    /// The card number in groups, as the brand writes it.
    pub formatted: String,
    /// Whether the number passes validation.
    pub valid: bool,
}

/// How to generate: for a given brand, or for a drawn one.
#[derive(Debug, Clone)]
pub struct GenOptions {
    /// The name of the brand, in either case; `None` to have one drawn.
    pub brand: Option<String>,
}

impl Default for GenOptions {
    fn default() -> (opts: Self)
        ensures
            opts.brand is None,
    {
        GenOptions { brand: None }
    }
}

/// One way in which the numbers of a brand begin.
#[derive(Clone, Copy, Debug)]
pub struct BrandInfo {
    /// The name of the brand.
    pub name: &'static str,
    /// The digits that the number begins with.
    pub prefix: &'static str,
    /// How many digits the number has, the check digit included.
    pub length: u8,
}

/// The brands and their prefixes; a brand with several prefixes has a row
/// for each.
pub open spec fn brand_table() -> Seq<BrandInfo> {
    seq![
        BrandInfo { name: "Visa", prefix: "4", length: 16 },
        BrandInfo { name: "Mastercard", prefix: "51", length: 16 },
        BrandInfo { name: "Mastercard", prefix: "52", length: 16 },
        BrandInfo { name: "Mastercard", prefix: "53", length: 16 },
        BrandInfo { name: "Mastercard", prefix: "54", length: 16 },
        BrandInfo { name: "Mastercard", prefix: "55", length: 16 },
        BrandInfo { name: "Amex", prefix: "34", length: 15 },
        BrandInfo { name: "Amex", prefix: "37", length: 15 },
        BrandInfo { name: "Discover", prefix: "6011", length: 16 },
        BrandInfo { name: "JCB", prefix: "3528", length: 16 },
        BrandInfo { name: "Diners", prefix: "36", length: 14 },
    ]
}

/// Builds the table of brands.
pub fn brand_catalog() -> (table: Vec<BrandInfo>)
    ensures
        table@ == brand_table(),
{
    let table = vec![
        BrandInfo { name: "Visa", prefix: "4", length: 16 },
        BrandInfo { name: "Mastercard", prefix: "51", length: 16 },
        BrandInfo { name: "Mastercard", prefix: "52", length: 16 },
        BrandInfo { name: "Mastercard", prefix: "53", length: 16 },
        BrandInfo { name: "Mastercard", prefix: "54", length: 16 },
        BrandInfo { name: "Mastercard", prefix: "55", length: 16 },
        BrandInfo { name: "Amex", prefix: "34", length: 15 },
        BrandInfo { name: "Amex", prefix: "37", length: 15 },
        BrandInfo { name: "Discover", prefix: "6011", length: 16 },
        BrandInfo { name: "JCB", prefix: "3528", length: 16 },
        BrandInfo { name: "Diners", prefix: "36", length: 14 },
    ];
    assert(table@ =~= brand_table());
    table
}

/// In the table every prefix is made of digits and is shorter than the
/// number by at least the check digit, and every number has between twelve
/// and nineteen digits.
pub proof fn lemma_brand_table()
    ensures
        forall|i: int|
            0 <= i < brand_table().len() ==> {
                let row = #[trigger] brand_table()[i];
                &&& all_digits(row.prefix@)
                &&& row.prefix@.len() < row.length
                &&& 12 <= row.length <= 19
            },
{
    reveal_strlit("4");
    reveal_strlit("51");
    reveal_strlit("52");
    reveal_strlit("53");
    reveal_strlit("54");
    reveal_strlit("55");
    reveal_strlit("34");
    reveal_strlit("37");
    reveal_strlit("6011");
    reveal_strlit("3528");
    reveal_strlit("36");
}

/// The rows of the brand `brand`, in capitals; the case of the names in
/// the table does not matter.
pub open spec fn rows_of(table: Seq<BrandInfo>, brand: Seq<char>) -> Seq<BrandInfo>
    decreases table.len(),
{
    if table.len() == 0 {
        Seq::empty()
    } else if upper(table.last().name@) == brand {
        rows_of(table.drop_last(), brand).push(table.last())
    } else {
        rows_of(table.drop_last(), brand)
    }
}

/// Every row found for a brand is a row of the table with that brand.
pub proof fn lemma_rows_of(table: Seq<BrandInfo>, brand: Seq<char>)
    ensures
        forall|k: int|
            0 <= k < rows_of(table, brand).len() ==> table.contains(
                #[trigger] rows_of(table, brand)[k],
            ) && upper(rows_of(table, brand)[k].name@) == brand,
        forall|i: int|
            0 <= i < table.len() && upper((#[trigger] table[i]).name@) == brand ==> rows_of(
                table,
                brand,
            ).len() > 0,
    decreases table.len(),
{
    if table.len() > 0 {
        let head = table.drop_last();
        lemma_rows_of(head, brand);
        assert forall|k: int| 0 <= k < rows_of(table, brand).len() implies table.contains(
            #[trigger] rows_of(table, brand)[k],
        ) && upper(rows_of(table, brand)[k].name@) == brand by {
            if k < rows_of(head, brand).len() {
                let row = rows_of(head, brand)[k];
                assert(head.contains(row));
                let i = choose|i: int| 0 <= i < head.len() && head[i] == row;
                assert(table[i] == row);
            } else {
                assert(table[table.len() - 1] == rows_of(table, brand)[k]);
            }
        }
        assert forall|i: int|
            0 <= i < table.len() && upper((#[trigger] table[i]).name@) == brand implies rows_of(
            table,
            brand,
        ).len() > 0 by {
            if i < head.len() {
                assert(head[i] == table[i]);
            }
        }
    }
}

/// The card number over a prefix and further digits: the prefix, the
/// digits, and the Luhn check digit of both together.
pub open spec fn card_text(prefix: Seq<char>, d: Seq<u8>) -> Seq<char> {
    prefix + text_of(d.push(luhn_digit(digits_of(prefix) + d) as u8))
}

/// A valid card number: twelve to nineteen digits of which the last is the
/// Luhn check digit of those before it.
pub open spec fn card_valid(s: Seq<char>) -> bool {
    12 <= s.len() <= 19 && all_digits(s) && luhn_digit(digits_of(s).drop_last()) == digits_of(
        s,
    ).last()
}

/// A card number built over a prefix of digits and further digits ends in
/// the Luhn check digit of all its other digits, and is valid where its
/// length is between twelve and nineteen.
pub proof fn lemma_card_text(prefix: Seq<char>, d: Seq<u8>)
    requires
        all_digits(prefix),
        digits_ok(d),
    ensures
        all_digits(card_text(prefix, d)),
        card_text(prefix, d).len() == prefix.len() + d.len() + 1,
        luhn_digit(digits_of(card_text(prefix, d)).drop_last()) == digits_of(
            card_text(prefix, d),
        ).last(),
        12 <= prefix.len() + d.len() + 1 <= 19 ==> card_valid(card_text(prefix, d)),
{
    let payload = digits_of(prefix) + d;
    let check = luhn_digit(payload) as u8;
    let tail = d.push(check);
    let s = card_text(prefix, d);
    assert(digits_ok(tail));
    lemma_digits_of_text(tail);
    assert forall|i: int| 0 <= i < s.len() implies is_digit(#[trigger] s[i]) by {
        if i < prefix.len() {
            assert(s[i] == prefix[i]);
        } else {
            assert(s[i] == text_of(tail)[i - prefix.len()]);
        }
    }
    assert(digits_of(s) =~= digits_of(prefix) + tail) by {
        assert forall|i: int| 0 <= i < s.len() implies digits_of(s)[i] == (digits_of(prefix)
            + tail)[i] by {
            if i < prefix.len() {
                assert(s[i] == prefix[i]);
            } else {
                assert(s[i] == text_of(tail)[i - prefix.len()]);
                assert(digits_of(text_of(tail))[i - prefix.len()] == tail[i - prefix.len()]);
            }
        }
    }
    assert(digits_of(s).drop_last() =~= payload);
    assert(digits_of(s).last() == check);
}

/// Writes the card number over a prefix and further digits.
pub fn build_number(prefix: &Vec<char>, digits: &Vec<u8>) -> (number: Vec<char>)
    requires
        all_digits(prefix@),
        digits_ok(digits@),
    ensures
        number@ == card_text(prefix@, digits@),
{
    let mut payload = to_digits(prefix);
    let mut i: usize = 0;
    while i < digits.len()
        invariant
            i <= digits.len(),
            payload@ == digits_of(prefix@) + digits@.take(i as int),
        decreases digits.len() - i,
    {
        payload.push(digits[i]);
        assert(payload@ =~= digits_of(prefix@) + digits@.take(i + 1));
        i += 1;
    }
    assert(digits@.take(digits@.len() as int) =~= digits@);
    let check = luhn_check_digit(payload.as_slice());
    let mut number: Vec<char> = Vec::new();
    i = 0;
    while i < prefix.len()
        invariant
            i <= prefix.len(),
            number@ == prefix@.take(i as int),
        decreases prefix.len() - i,
    {
        number.push(prefix[i]);
        assert(number@ =~= prefix@.take(i + 1));
        i += 1;
    }
    assert(prefix@.take(prefix@.len() as int) =~= prefix@);
    let mut tail = digits.clone();
    tail.push(check);
    assert(tail@ =~= digits@.push(check));
    push_digits(&mut number, tail.as_slice());
    number
}

/// The name of the brand whose numbers are written in groups of four, six
/// and five digits, in capitals.
pub open spec fn amex() -> Seq<char> {
    seq!['A', 'M', 'E', 'X']
}

/// The places at which a number of that brand is cut.
pub open spec fn amex_cuts() -> Seq<usize> {
    seq![4usize, 10usize]
}

/// A card number as a brand, in capitals, writes it: in groups of four,
/// six and five digits for one brand, and in groups of four for the others.
pub open spec fn card_formatted(brand: Seq<char>, number: Seq<char>) -> Seq<char> {
    if brand == amex() {
        formatted_at(number, amex_cuts(), ' ')
    } else {
        formatted(number, 4, ' ')
    }
}

/// `number` is a number of the brand row `row`: it begins with the row's
/// prefix, has the row's length, is made of digits, and ends in the Luhn
/// check digit of the digits before it.
pub open spec fn is_card_of(row: BrandInfo, number: Seq<char>) -> bool {
    &&& starts_with(number, row.prefix@)
    &&& number.len() == row.length
    &&& all_digits(number)
    &&& luhn_digit(digits_of(number).drop_last()) == digits_of(number).last()
}

/// `res` is a generated card of some row of the brand table, and of the
/// brand `brand`, in capitals, where one is asked for.
pub open spec fn card_generated(brand: Option<Seq<char>>, res: CardResult) -> bool {
    &&& exists|i: int|
        0 <= i < brand_table().len() && res.brand@ == (#[trigger] brand_table()[i]).name@
            && is_card_of(brand_table()[i], res.number@) && (brand is Some ==> upper(
            brand_table()[i].name@,
        ) == brand->0)
    &&& card_valid(res.number@)
    &&& res.formatted@ == card_formatted(upper(res.brand@), res.number@)
    &&& res.valid
}

/// The names of all rows of the brand table, in its order.
pub open spec fn row_names() -> Seq<&'static str> {
    Seq::new(brand_table().len(), |i: int| brand_table()[i].name)
}

/// The rows of `table` whose brand, in capitals, is `brand`.
pub fn rows_in(table: &Vec<BrandInfo>, brand: &Vec<char>) -> (rows: Vec<BrandInfo>)
    ensures
        rows@ == rows_of(table@, brand@),
{
    let mut rows: Vec<BrandInfo> = Vec::new();
    let mut i: usize = 0;
    proof {
        assert(table@.take(0).len() == 0);
    }
    while i < table.len()
        invariant
            i <= table.len(),
            rows@ == rows_of(table@.take(i as int), brand@),
        decreases table.len() - i,
    {
        proof {
            let head = table@.take(i + 1);
            assert(head.drop_last() =~= table@.take(i as int));
            assert(head.last() == table@[i as int]);
        }
        let name = upper_chars(table[i].name);
        if same_chars(&name, brand) {
            rows.push(table[i]);
        }
        i += 1;
    }
    proof {
        assert(table@.take(table@.len() as int) =~= table@);
    }
    rows
}

/// The catalog of payment cards.
pub struct Registry;

impl Default for Registry {
    fn default() -> (r: Self)
        ensures
            r == Registry,
    {
        Registry::new()
    }
}

impl Registry {
    /// Builds the catalog, which holds nothing of its own.
    pub fn new() -> (r: Self)
        ensures
            r == Registry,
    {
        Registry
    }

    /// Whether `number` is a valid card number: twelve to nineteen digits
    /// with a Luhn check digit at the end.
    pub fn validate(&self, number: &str) -> (r: bool)
        ensures
            r == card_valid(number@),
    {
        let chars = chars_of(number);
        let n = chars.len();
        if n < 12 || n > 19 {
            return false;
        }
        assert(chars@.subrange(0, n as int) =~= chars@);
        if !digits_between(&chars, 0, n) {
            return false;
        }
        let digits = to_digits(&chars);
        let head = vstd::slice::slice_subrange(digits.as_slice(), 0, n - 1);
        assert(head@ =~= digits@.drop_last());
        luhn_check_digit(head) == digits[n - 1]
    }

    /// Writes a card number in groups with a space between them, as the
    /// brand, whose case does not matter, writes it. Spaces that the number
    /// already holds are taken out first, so that a number that is
    /// formatted already comes back unchanged. What the number holds is not
    /// looked at.
    pub fn format(&self, brand: &str, number: &str) -> (out: String)
        ensures
            out@ == card_formatted(upper(brand@), number@),
            card_formatted(upper(brand@), out@) == out@,
    {
        let name = upper_chars(brand);
        let amex_name = vec!['A', 'M', 'E', 'X'];
        assert(amex_name@ =~= amex());
        if same_chars(&name, &amex_name) {
            let cuts: [usize; 2] = [4, 10];
            assert(cuts@ =~= amex_cuts());
            group_text_at(number, cuts.as_slice(), ' ')
        } else {
            group_text(number, 4, ' ')
        }
    }

    /// The names of the brands, each once, in the order of the table. For
    /// every brand of the list a card can be generated.
    pub fn list_brands(&self) -> (list: Vec<&'static str>)
        ensures
            list@.len() > 0,
            forall|i: int|
                0 <= i < list@.len() ==> rows_of(brand_table(), upper((#[trigger] list@[i])@)).len()
                    > 0,
            forall|k: int|
                0 <= k < brand_table().len() ==> names(list@, (#[trigger] brand_table()[k]).name@),
            forall|i: int, j: int|
                0 <= i < j < list@.len() ==> (#[trigger] list@[i])@ != (#[trigger] list@[j])@,
    {
        let table = brand_catalog();
        let mut all: Vec<&'static str> = Vec::new();
        let mut k: usize = 0;
        while k < table.len()
            invariant
                k <= table.len(),
                table@ == brand_table(),
                all@ == row_names().take(k as int),
            decreases table.len() - k,
        {
            all.push(table[k].name);
            assert(all@ =~= row_names().take(k + 1));
            k += 1;
        }
        assert(row_names().take(brand_table().len() as int) =~= row_names());
        let list = distinct(&all);
        proof {
            assert forall|i: int| 0 <= i < list@.len() implies rows_of(
                brand_table(),
                upper((#[trigger] list@[i])@),
            ).len() > 0 by {
                assert(names(all@, list@[i]@));
                let r = choose|r: int| 0 <= r < all@.len() && (#[trigger] all@[r])@ == list@[i]@;
                assert(brand_table()[r].name@ == list@[i]@);
                lemma_rows_of(brand_table(), upper(list@[i]@));
            }
            assert forall|k: int| 0 <= k < brand_table().len() implies names(
                list@,
                (#[trigger] brand_table()[k]).name@,
            ) by {
                assert(all@[k] == brand_table()[k].name);
                assert(names(list@, all@[k]@));
            }
            assert(names(list@, brand_table()[0].name@));
        }
        list
    }

    /// Generates a card number: for the brand of `opts`, whose case does
    /// not matter, or, where `opts` names none, for a brand drawn from
    /// `list_brands`. The result is `None` exactly where the brand named is
    /// not in the table. The number begins with a prefix of the brand, has
    /// the brand's length, and ends in the Luhn check digit of the digits
    /// before it; it passes `validate`.
    pub fn generate(&self, opts: &GenOptions, rng: &mut StdRng) -> (r: Option<CardResult>)
        ensures
            match opts.brand {
                Some(b) => (r is Some <==> rows_of(brand_table(), upper(b@)).len() > 0) && (r is Some
                    ==> card_generated(Some(upper(b@)), r->0)),
                None => r is Some && card_generated(None, r->0),
            },
    {
        let table = brand_catalog();
        let target: Vec<char> = match &opts.brand {
            Some(b) => upper_chars(b.as_str()),
            None => {
                let brands = self.list_brands();
                let k = draw_index(rng, brands.len());
                upper_chars(brands[k])
            },
        };
        let rows = rows_in(&table, &target);
        if rows.len() == 0 {
            return None;
        }
        let k = draw_index(rng, rows.len());
        let row = rows[k];
        proof {
            lemma_rows_of(brand_table(), target@);
            lemma_brand_table();
            assert(brand_table().contains(row));
        }
        let prefix = chars_of(row.prefix);
        let count: usize = row.length as usize - prefix.len() - 1;
        let digits = draw_digits(rng, count);
        let number = build_number(&prefix, &digits);
        proof {
            lemma_card_text(prefix@, digits@);
            assert(number@.subrange(0, prefix@.len() as int) =~= prefix@);
            assert(is_card_of(row, number@));
        }
        let text = string_of(&number);
        let formatted = self.format(row.name, text.as_str());
        let res = CardResult {
            brand: String::from_str(row.name),
            number: text,
            formatted,
            valid: true,
        };
        proof {
            let i = choose|i: int| 0 <= i < brand_table().len() && brand_table()[i] == row;
            assert(res.brand@ == brand_table()[i].name@);
        }
        Some(res)
    }
}

/// A replaced digit is detected: where a number is valid, the number with
/// one of its digits replaced by another digit is not.
pub proof fn lemma_card_detects_substitution(s: Seq<char>, i: int, c: char)
    requires
        card_valid(s),
        0 <= i < s.len(),
        is_digit(c),
        c != s[i],
    ensures
        !card_valid(s.update(i, c)),
{
    let t = s.update(i, c);
    let d = digits_of(s);
    let v = digit_value(c) as u8;
    assert(is_digit(s[i]));
    assert(digits_of(t) =~= d.update(i, v));
    assert(digits_ok(d)) by {
        assert forall|k: int| 0 <= k < d.len() implies #[trigger] d[k] < 10 by {
            assert(is_digit(s[k]));
        }
    }
    let p = d.drop_last();
    assert(digits_ok(p)) by {
        assert forall|k: int| 0 <= k < p.len() implies #[trigger] p[k] < 10 by {
            assert(p[k] == d[k]);
        }
    }
    if i == s.len() - 1 {
        assert(d.update(i, v).drop_last() =~= p);
    } else {
        assert(d.update(i, v).drop_last() =~= p.update(i, v));
        assert(d.update(i, v).last() == d.last());
        assert(p[i] == d[i]);
        lemma_luhn_detects_substitution(p, i, v);
    }
}

} // verus!
