//! Characters, digits and the conversions between strings and sequences.

use vstd::prelude::*;
use vstd::std_specs::iter::IteratorSpec;

verus! {

/// `c` is one of `'0'..='9'`.
pub open spec fn is_digit(c: char) -> bool {
    '0' <= c && c <= '9'
}

/// `c` is one of `'A'..='Z'`.
pub open spec fn is_upper(c: char) -> bool {
    'A' <= c && c <= 'Z'
}

/// `c` is one of `'a'..='z'`.
pub open spec fn is_lower(c: char) -> bool {
    'a' <= c && c <= 'z'
}

/// `c` is an ASCII letter of either case.
pub open spec fn is_letter(c: char) -> bool {
    is_upper(c) || is_lower(c)
}

/// `c` is one of the 128 ASCII characters.
pub open spec fn is_ascii(c: char) -> bool {
    c <= '\u{7f}'
}

/// `c` is an ASCII letter or a decimal digit.
pub open spec fn is_alnum(c: char) -> bool {
    is_letter(c) || is_digit(c)
}

/// The characters of `s`, in order.
pub fn chars_of(s: &str) -> (out: Vec<char>)
    ensures
        out@ == s@,
{
    let mut out: Vec<char> = Vec::new();
    let mut it = s.chars();
    let ghost start = it;
    loop
        invariant
            it.obeys_prophetic_iter_laws(),
            it.decrease() is Some,
            out@ + it.remaining() == s@,
        ensures
            out@ == s@,
        decreases it.decrease()->0,
    {
        let ghost before = it;
        match it.next() {
            Some(c) => {
                proof {
                    assert(before.remaining() =~= seq![c] + it.remaining());
                    assert(out@.push(c) + it.remaining() =~= out@ + before.remaining());
                }
                out.push(c);
            },
            None => {
                proof {
                    assert(it.remaining().len() == 0);
                    assert(out@ + it.remaining() =~= out@);
                }
                break;
            },
        }
    }
    out
}

/// The value of the decimal digit `c`; meaningful where `is_digit(c)`.
pub open spec fn digit_value(c: char) -> int {
    c as int - 48
}

/// The character that writes the digit `d`; meaningful where `d < 10`.
pub open spec fn digit_char(d: int) -> char {
    (d + 48) as char
}

/// `c` with a lower-case ASCII letter replaced by its capital; any other
/// character is left as it is.
pub open spec fn upper_char(c: char) -> char {
    if is_lower(c) {
        ((c as int) - 32) as char
    } else {
        c
    }
}

/// `s` with every lower-case ASCII letter replaced by its capital.
pub open spec fn upper(s: Seq<char>) -> Seq<char> {
    Seq::new(s.len(), |i: int| upper_char(s[i]))
}

/// Every character of `s` is a decimal digit.
pub open spec fn all_digits(s: Seq<char>) -> bool {
    forall|i: int| 0 <= i < s.len() ==> is_digit(#[trigger] s[i])
}

/// Every character of `s` is an ASCII letter or a decimal digit.
pub open spec fn all_alnum(s: Seq<char>) -> bool {
    forall|i: int| 0 <= i < s.len() ==> is_alnum(#[trigger] s[i])
}

/// Every character of `s` is a capital letter.
pub open spec fn all_upper(s: Seq<char>) -> bool {
    forall|i: int| 0 <= i < s.len() ==> is_upper(#[trigger] s[i])
}

/// Every item of `d` is a digit value, that is below ten.
pub open spec fn digits_ok(d: Seq<u8>) -> bool {
    forall|i: int| 0 <= i < d.len() ==> #[trigger] d[i] < 10
}

/// The digit values that the characters of `s` write, in order.
pub open spec fn digits_of(s: Seq<char>) -> Seq<u8> {
    Seq::new(s.len(), |i: int| digit_value(s[i]) as u8)
}

/// The characters that write the digit values `d`, in order.
pub open spec fn text_of(d: Seq<u8>) -> Seq<char> {
    Seq::new(d.len(), |i: int| digit_char(d[i] as int))
}

/// `p` stands at the start of `s`.
pub open spec fn starts_with(s: Seq<char>, p: Seq<char>) -> bool {
    p.len() <= s.len() && s.subrange(0, p.len() as int) == p
}

/// Whether `c` is an ASCII character.
pub fn char_is_ascii(c: char) -> (r: bool)
    ensures
        r == is_ascii(c),
{
    c <= '\u{7f}'
}

/// Whether `c` is a decimal digit.
pub fn char_is_digit(c: char) -> (r: bool)
    ensures
        r == is_digit(c),
{
    '0' <= c && c <= '9'
}

/// Whether `c` is an ASCII letter.
pub fn char_is_letter(c: char) -> (r: bool)
    ensures
        r == is_letter(c),
{
    ('A' <= c && c <= 'Z') || ('a' <= c && c <= 'z')
}

/// Whether `c` is an ASCII letter or a decimal digit.
pub fn char_is_alnum(c: char) -> (r: bool)
    ensures
        r == is_alnum(c),
{
    char_is_letter(c) || char_is_digit(c)
}

/// The digit value of a digit character.
pub fn char_to_digit(c: char) -> (d: u8)
    requires
        is_digit(c),
    ensures
        d == digit_value(c),
        d < 10,
{
    (c as u8) - 48
}

/// The character of a digit value.
pub fn digit_to_char(d: u8) -> (c: char)
    requires
        d < 10,
    ensures
        c == digit_char(d as int),
        is_digit(c),
        digit_value(c) == d,
{
    (d + 48) as char
}

/// The capital of an ASCII letter; any other character unchanged.
pub fn char_to_upper(c: char) -> (r: char)
    ensures
        r == upper_char(c),
{
    if 'a' <= c && c <= 'z' {
        ((c as u8) - 32) as char
    } else {
        c
    }
}

/// `String::push` of the standard library. Claimed and not proved: the
/// character is added at the end and the rest of the string is kept.
pub assume_specification[ String::push ](s: &mut String, c: char)
    ensures
        final(s)@ == old(s)@.push(c),
;

/// The characters of `s` with lower-case ASCII letters made capital.
pub fn upper_chars(s: &str) -> (out: Vec<char>)
    ensures
        out@ == upper(s@),
{
    let src = chars_of(s);
    let mut out: Vec<char> = Vec::new();
    let mut i: usize = 0;
    while i < src.len()
        invariant
            i <= src.len(),
            src@ == s@,
            out@.len() == i,
            forall|k: int| 0 <= k < i ==> out@[k] == upper_char(#[trigger] src@[k]),
        decreases src.len() - i,
    {
        out.push(char_to_upper(src[i]));
        i += 1;
    }
    assert(out@ =~= upper(s@));
    out
}

/// The string whose characters are `v`.
pub fn string_of(v: &Vec<char>) -> (out: String)
    ensures
        out@ == v@,
{
    let mut out = String::new();
    let mut i: usize = 0;
    while i < v.len()
        invariant
            i <= v.len(),
            out@ == v@.subrange(0, i as int),
        decreases v.len() - i,
    {
        out.push(v[i]);
        assert(v@.subrange(0, i as int).push(v@[i as int]) =~= v@.subrange(0, i + 1));
        i += 1;
    }
    assert(v@.subrange(0, v.len() as int) =~= v@);
    out
}

/// Whether two character vectors hold the same text.
pub fn same_chars(a: &Vec<char>, b: &Vec<char>) -> (r: bool)
    ensures
        r == (a@ == b@),
{
    if a.len() != b.len() {
        return false;
    }
    let mut i: usize = 0;
    while i < a.len()
        invariant
            i <= a.len(),
            a.len() == b.len(),
            forall|k: int| 0 <= k < i ==> a@[k] == b@[k],
        decreases a.len() - i,
    {
        if a[i] != b[i] {
            return false;
        }
        i += 1;
    }
    assert(a@ =~= b@);
    true
}

/// Whether `v` holds the text `t`.
pub fn is_text(v: &Vec<char>, t: &str) -> (r: bool)
    ensures
        r == (v@ == t@),
{
    let w = chars_of(t);
    same_chars(v, &w)
}

/// Whether `p` stands at the start of `v`.
pub fn has_prefix(v: &Vec<char>, p: &Vec<char>) -> (r: bool)
    ensures
        r == starts_with(v@, p@),
{
    if p.len() > v.len() {
        return false;
    }
    let mut i: usize = 0;
    while i < p.len()
        invariant
            i <= p.len(),
            p.len() <= v.len(),
            forall|k: int| 0 <= k < i ==> v@[k] == p@[k],
        decreases p.len() - i,
    {
        if v[i] != p[i] {
            assert(v@.subrange(0, p@.len() as int)[i as int] != p@[i as int]);
            return false;
        }
        i += 1;
    }
    assert(v@.subrange(0, p@.len() as int) =~= p@);
    true
}

/// Whether the characters of `v` from place `from` up to, not including,
/// place `to` are all decimal digits.
pub fn digits_between(v: &Vec<char>, from: usize, to: usize) -> (r: bool)
    requires
        from <= to <= v@.len(),
    ensures
        r == all_digits(v@.subrange(from as int, to as int)),
{
    let mut i: usize = from;
    while i < to
        invariant
            from <= i <= to,
            to <= v@.len(),
            forall|k: int| from <= k < i ==> is_digit(#[trigger] v@[k]),
        decreases to - i,
    {
        if !char_is_digit(v[i]) {
            assert(!is_digit(v@.subrange(from as int, to as int)[i - from]));
            return false;
        }
        i += 1;
    }
    assert forall|k: int| 0 <= k < to - from implies is_digit(
        #[trigger] v@.subrange(from as int, to as int)[k],
    ) by {
        assert(is_digit(v@[k + from]));
    }
    true
}

/// Whether the characters of `v` from place `from` up to, not including,
/// place `to` are all ASCII letters or decimal digits.
pub fn alnum_between(v: &Vec<char>, from: usize, to: usize) -> (r: bool)
    requires
        from <= to <= v@.len(),
    ensures
        r == all_alnum(v@.subrange(from as int, to as int)),
{
    let mut i: usize = from;
    while i < to
        invariant
            from <= i <= to,
            to <= v@.len(),
            forall|k: int| from <= k < i ==> is_alnum(#[trigger] v@[k]),
        decreases to - i,
    {
        if !char_is_alnum(v[i]) {
            assert(!is_alnum(v@.subrange(from as int, to as int)[i - from]));
            return false;
        }
        i += 1;
    }
    assert forall|k: int| 0 <= k < to - from implies is_alnum(
        #[trigger] v@.subrange(from as int, to as int)[k],
    ) by {
        assert(is_alnum(v@[k + from]));
    }
    true
}

/// The digit values of the decimal digits among the characters of `s`, in
/// order; every other character is passed over.
pub open spec fn digit_values(s: Seq<char>) -> Seq<u8>
    decreases s.len(),
{
    if s.len() == 0 {
        Seq::empty()
    } else if is_digit(s.last()) {
        digit_values(s.drop_last()).push(digit_value(s.last()) as u8)
    } else {
        digit_values(s.drop_last())
    }
}

/// `s` without `p` at its start; `s` itself where `p` does not stand there.
pub open spec fn without_prefix(s: Seq<char>, p: Seq<char>) -> Seq<char> {
    if starts_with(s, p) {
        s.subrange(p.len() as int, s.len() as int)
    } else {
        s
    }
}

/// The two characters that write `n`, a number below one hundred, with a
/// leading zero where it is below ten.
pub open spec fn two_digits(n: int) -> Seq<char> {
    seq![digit_char(n / 10), digit_char(n % 10)]
}

/// Digit values written out and read back are the same values.
pub proof fn lemma_digits_of_text(d: Seq<u8>)
    requires
        digits_ok(d),
    ensures
        all_digits(text_of(d)),
        digits_of(text_of(d)) == d,
{
    assert forall|i: int| 0 <= i < d.len() implies is_digit(#[trigger] text_of(d)[i]) by {
        assert(d[i] < 10);
    }
    assert forall|i: int| 0 <= i < d.len() implies digits_of(text_of(d))[i] == d[i] by {
        assert(d[i] < 10);
    }
    assert(digits_of(text_of(d)) =~= d);
}

/// The digits picked out of a text that ends in digits only are those picked
/// out of its start followed by the values of its end.
pub proof fn lemma_digit_values_append(p: Seq<char>, t: Seq<char>)
    requires
        all_digits(t),
    ensures
        digit_values(p + t) == digit_values(p) + digits_of(t),
    decreases t.len(),
{
    if t.len() == 0 {
        assert(p + t =~= p);
        assert(digit_values(p) + digits_of(t) =~= digit_values(p));
    } else {
        let t0 = t.drop_last();
        assert forall|i: int| 0 <= i < t0.len() implies is_digit(#[trigger] t0[i]) by {
            assert(t0[i] == t[i]);
        }
        lemma_digit_values_append(p, t0);
        assert((p + t).drop_last() =~= p + t0);
        assert((p + t).last() == t.last());
        assert(is_digit(t[t.len() - 1]));
        assert(digits_of(t) =~= digits_of(t0).push(digit_value(t.last()) as u8));
        assert(digit_values(p + t) =~= digit_values(p) + digits_of(t));
    }
}

/// The digits picked out of a text without any digit are none.
pub proof fn lemma_digit_values_none(p: Seq<char>)
    requires
        forall|i: int| 0 <= i < p.len() ==> !is_digit(#[trigger] p[i]),
    ensures
        digit_values(p) == Seq::<u8>::empty(),
    decreases p.len(),
{
    if p.len() > 0 {
        assert(!is_digit(p[p.len() - 1]));
        assert forall|i: int| 0 <= i < p.drop_last().len() implies !is_digit(
            #[trigger] p.drop_last()[i],
        ) by {
            assert(p.drop_last()[i] == p[i]);
        }
        lemma_digit_values_none(p.drop_last());
    }
}

/// Picks the decimal digits out of `v` and gives their values.
pub fn digits_in(v: &Vec<char>) -> (out: Vec<u8>)
    ensures
        out@ == digit_values(v@),
        digits_ok(out@),
{
    let mut out: Vec<u8> = Vec::new();
    let mut i: usize = 0;
    proof {
        assert(v@.subrange(0, 0).len() == 0);
    }
    while i < v.len()
        invariant
            i <= v.len(),
            out@ == digit_values(v@.subrange(0, i as int)),
            digits_ok(out@),
        decreases v.len() - i,
    {
        proof {
            let head = v@.subrange(0, i + 1);
            assert(head.drop_last() =~= v@.subrange(0, i as int));
            assert(head.last() == v@[i as int]);
        }
        if char_is_digit(v[i]) {
            out.push(char_to_digit(v[i]));
        }
        i += 1;
    }
    proof {
        assert(v@.subrange(0, v@.len() as int) =~= v@);
    }
    out
}

/// The values of the characters of `v`, all of them digits.
pub fn to_digits(v: &Vec<char>) -> (out: Vec<u8>)
    requires
        all_digits(v@),
    ensures
        out@ == digits_of(v@),
        digits_ok(out@),
{
    let mut out: Vec<u8> = Vec::new();
    let mut i: usize = 0;
    while i < v.len()
        invariant
            i <= v.len(),
            all_digits(v@),
            out@.len() == i,
            forall|k: int| 0 <= k < i ==> #[trigger] out@[k] == digit_value(v@[k]) as u8,
            digits_ok(out@),
        decreases v.len() - i,
    {
        assert(is_digit(v@[i as int]));
        out.push(char_to_digit(v[i]));
        i += 1;
    }
    assert(out@ =~= digits_of(v@));
    out
}

/// `v` without `p` at its start; a copy of `v` where `p` does not stand there.
pub fn strip_prefix(v: &Vec<char>, p: &Vec<char>) -> (out: Vec<char>)
    ensures
        out@ == without_prefix(v@, p@),
{
    let from: usize = if has_prefix(v, p) {
        p.len()
    } else {
        0
    };
    let mut out: Vec<char> = Vec::new();
    let mut i: usize = from;
    while i < v.len()
        invariant
            from <= i <= v.len(),
            out@ == v@.subrange(from as int, i as int),
        decreases v.len() - i,
    {
        out.push(v[i]);
        assert(v@.subrange(from as int, i as int).push(v@[i as int]) =~= v@.subrange(
            from as int,
            i + 1,
        ));
        i += 1;
    }
    assert(v@.subrange(0, v@.len() as int) =~= v@);
    out
}

/// Adds the characters of the digit values `d` to the end of `out`.
pub fn push_digits(out: &mut Vec<char>, d: &[u8])
    requires
        digits_ok(d@),
    ensures
        final(out)@ == old(out)@ + text_of(d@),
{
    let mut i: usize = 0;
    assert(out@ =~= old(out)@ + text_of(d@).subrange(0, 0));
    while i < d.len()
        invariant
            i <= d.len(),
            digits_ok(d@),
            out@ == old(out)@ + text_of(d@).subrange(0, i as int),
        decreases d.len() - i,
    {
        assert(d@[i as int] < 10);
        out.push(digit_to_char(d[i]));
        assert(out@ =~= old(out)@ + text_of(d@).subrange(0, i + 1));
        i += 1;
    }
    assert(text_of(d@).subrange(0, d@.len() as int) =~= text_of(d@));
}

/// Adds the two characters that write `n` to the end of `out`.
pub fn push_two_digits(out: &mut Vec<char>, n: u8)
    requires
        n < 100,
    ensures
        final(out)@ == old(out)@ + two_digits(n as int),
{
    out.push(digit_to_char(n / 10));
    out.push(digit_to_char(n % 10));
    assert(out@ =~= old(out)@ + two_digits(n as int));
}

/// `a` comes before `b` in dictionary order, characters compared by their
/// code points; a text comes after each of its proper beginnings.
pub open spec fn lex_lt(a: Seq<char>, b: Seq<char>) -> bool
    decreases a.len(),
{
    if b.len() == 0 {
        false
    } else if a.len() == 0 {
        true
    } else if a[0] != b[0] {
        a[0] < b[0]
    } else {
        lex_lt(a.drop_first(), b.drop_first())
    }
}

/// No text comes before itself.
pub proof fn lemma_lex_irreflexive(a: Seq<char>)
    ensures
        !lex_lt(a, a),
    decreases a.len(),
{
    if a.len() > 0 {
        lemma_lex_irreflexive(a.drop_first());
    }
}

/// Of two different texts one comes before the other.
pub proof fn lemma_lex_total(a: Seq<char>, b: Seq<char>)
    requires
        a != b,
    ensures
        lex_lt(a, b) || lex_lt(b, a),
    decreases a.len(),
{
    if a.len() > 0 && b.len() > 0 && a[0] == b[0] {
        if a.drop_first() == b.drop_first() {
            assert(a =~= seq![a[0]] + a.drop_first());
            assert(b =~= seq![b[0]] + b.drop_first());
        }
        lemma_lex_total(a.drop_first(), b.drop_first());
    } else if a.len() == 0 && b.len() == 0 {
        assert(a =~= b);
    }
}

/// Dictionary order is transitive.
pub proof fn lemma_lex_transitive(a: Seq<char>, b: Seq<char>, c: Seq<char>)
    requires
        lex_lt(a, b),
        lex_lt(b, c),
    ensures
        lex_lt(a, c),
    decreases a.len(),
{
    if a.len() > 0 && b.len() > 0 && c.len() > 0 && a[0] == b[0] && b[0] == c[0] {
        lemma_lex_transitive(a.drop_first(), b.drop_first(), c.drop_first());
    }
}

/// Whether `a` comes before `b` in dictionary order.
pub fn chars_lt(a: &Vec<char>, b: &Vec<char>) -> (r: bool)
    ensures
        r == lex_lt(a@, b@),
{
    let mut i: usize = 0;
    proof {
        assert(a@.subrange(0, a@.len() as int) =~= a@);
        assert(b@.subrange(0, b@.len() as int) =~= b@);
    }
    while i < a.len() && i < b.len()
        invariant
            i <= a.len(),
            i <= b.len(),
            lex_lt(a@, b@) == lex_lt(
                a@.subrange(i as int, a@.len() as int),
                b@.subrange(i as int, b@.len() as int),
            ),
        decreases a.len() - i,
    {
        proof {
            let ra = a@.subrange(i as int, a@.len() as int);
            let rb = b@.subrange(i as int, b@.len() as int);
            assert(ra[0] == a@[i as int]);
            assert(rb[0] == b@[i as int]);
            assert(ra.drop_first() =~= a@.subrange(i + 1, a@.len() as int));
            assert(rb.drop_first() =~= b@.subrange(i + 1, b@.len() as int));
        }
        if a[i] != b[i] {
            return a[i] < b[i];
        }
        i += 1;
    }
    i < b.len()
}

/// Whether the text `a` comes before the text `b` in dictionary order.
pub fn text_lt(a: &str, b: &str) -> (r: bool)
    ensures
        r == lex_lt(a@, b@),
{
    let x = chars_of(a);
    let y = chars_of(b);
    chars_lt(&x, &y)
}

/// Whether two texts are the same.
pub fn text_eq(a: &str, b: &str) -> (r: bool)
    ensures
        r == (a@ == b@),
{
    let x = chars_of(a);
    let y = chars_of(b);
    same_chars(&x, &y)
}

/// `code` is two ASCII letters.
pub open spec fn two_letters(code: Seq<char>) -> bool {
    code.len() == 2 && is_letter(code[0]) && is_letter(code[1])
}

/// Whether `code` is two ASCII letters.
pub fn is_two_letters(code: &Vec<char>) -> (r: bool)
    ensures
        r == two_letters(code@),
{
    code.len() == 2 && char_is_letter(code[0]) && char_is_letter(code[1])
}

/// `code` is two capital letters.
pub open spec fn two_capitals(code: Seq<char>) -> bool {
    code.len() == 2 && is_upper(code[0]) && is_upper(code[1])
}

/// Two capital letters are their own capitals, and are two letters.
pub proof fn lemma_capitals_stay(code: Seq<char>)
    requires
        two_capitals(code),
    ensures
        upper(code) == code,
        two_letters(code),
{
    assert(upper(code) =~= code);
}

/// Whether `c` is a capital letter.
pub fn char_is_upper(c: char) -> (r: bool)
    ensures
        r == is_upper(c),
{
    'A' <= c && c <= 'Z'
}

/// Whether the characters of `v` from place `from` up to, not including,
/// place `to` are all capital letters.
pub fn upper_between(v: &Vec<char>, from: usize, to: usize) -> (r: bool)
    requires
        from <= to <= v@.len(),
    ensures
        r == all_upper(v@.subrange(from as int, to as int)),
{
    let mut i: usize = from;
    while i < to
        invariant
            from <= i <= to,
            to <= v@.len(),
            forall|k: int| from <= k < i ==> is_upper(#[trigger] v@[k]),
        decreases to - i,
    {
        if !char_is_upper(v[i]) {
            assert(!is_upper(v@.subrange(from as int, to as int)[i - from]));
            return false;
        }
        i += 1;
    }
    assert forall|k: int| 0 <= k < to - from implies is_upper(
        #[trigger] v@.subrange(from as int, to as int)[k],
    ) by {
        assert(is_upper(v@[k + from]));
    }
    true
}

/// Whether the characters of `v` from place `from` on begin with `t`.
pub fn text_at(v: &Vec<char>, from: usize, t: &Vec<char>) -> (r: bool)
    requires
        from <= v@.len(),
    ensures
        r == (t@.len() <= v@.len() - from && v@.subrange(from as int, from + t@.len()) == t@),
{
    if t.len() > v.len() - from {
        return false;
    }
    let mut i: usize = 0;
    while i < t.len()
        invariant
            i <= t.len(),
            from + t.len() <= v.len(),
            forall|k: int| 0 <= k < i ==> v@[from + k] == t@[k],
        decreases t.len() - i,
    {
        if v[from + i] != t[i] {
            assert(v@.subrange(from as int, from + t@.len())[i as int] != t@[i as int]);
            return false;
        }
        i += 1;
    }
    assert(v@.subrange(from as int, from + t@.len()) =~= t@);
    true
}

/// Picks the decimal digits out of the first `to` characters of `v` and
/// gives their values.
pub fn digits_before(v: &Vec<char>, to: usize) -> (out: Vec<u8>)
    requires
        to <= v@.len(),
    ensures
        out@ == digit_values(v@.take(to as int)),
        digits_ok(out@),
{
    let mut out: Vec<u8> = Vec::new();
    let mut i: usize = 0;
    proof {
        assert(v@.take(0).len() == 0);
    }
    while i < to
        invariant
            i <= to <= v@.len(),
            out@ == digit_values(v@.take(i as int)),
            digits_ok(out@),
        decreases to - i,
    {
        proof {
            let head = v@.take(i + 1);
            assert(head.drop_last() =~= v@.take(i as int));
            assert(head.last() == v@[i as int]);
        }
        if char_is_digit(v[i]) {
            out.push(char_to_digit(v[i]));
        }
        i += 1;
    }
    out
}

/// Whether `v` is the two characters `a` and `b`.
pub fn is_code(v: &Vec<char>, a: char, b: char) -> (r: bool)
    ensures
        r == (v@ == seq![a, b]),
{
    if v.len() == 2 && v[0] == a && v[1] == b {
        assert(v@ =~= seq![a, b]);
        true
    } else {
        false
    }
}

} // verus!
