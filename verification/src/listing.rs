//! Country lists: entries ordered by country code, one entry for each code.

use vstd::prelude::*;
use crate::text::{
    lex_lt, text_lt, text_eq, lemma_lex_irreflexive, lemma_lex_total, lemma_lex_transitive,
};

verus! {

/// One line of a country list: the country code, the country's name, and
/// the name of the identifier there.
pub type Entry = (&'static str, &'static str, &'static str);

/// The entries stand in strictly rising order of their codes, so that no
/// code occurs twice.
pub open spec fn sorted_by_code(list: Seq<Entry>) -> bool {
    forall|i: int, j: int| 0 <= i < j < list.len() ==> lex_lt(#[trigger] list[i].0@, #[trigger] list[j].0@)
}

/// Some entry of `list` has the code `code`.
pub open spec fn has_code(list: Seq<Entry>, code: Seq<char>) -> bool {
    exists|i: int| 0 <= i < list.len() && (#[trigger] list[i]).0@ == code
}

/// `e` is the first entry of `entries` that has its code.
pub open spec fn wins(entries: Seq<Entry>, e: Entry) -> bool {
    exists|k: int|
        0 <= k < entries.len() && #[trigger] entries[k] == e && forall|j: int|
            0 <= j < k ==> (#[trigger] entries[j]).0@ != e.0@
}

/// Puts `item` at its place in a sorted list, unless the list already has
/// an entry with the same code: then the list is left as it is.
pub fn insert_sorted(list: &mut Vec<Entry>, item: Entry)
    requires
        sorted_by_code(old(list)@),
        old(list)@.len() < usize::MAX,
    ensures
        sorted_by_code(final(list)@),
        has_code(old(list)@, item.0@) ==> final(list)@ == old(list)@,
        !has_code(old(list)@, item.0@) ==> exists|p: int|
            0 <= p <= old(list)@.len() && final(list)@ == #[trigger] old(list)@.insert(p, item),
{
    let mut p: usize = 0;
    while p < list.len() && text_lt(list[p].0, item.0)
        invariant
            p <= list.len(),
            *list == *old(list),
            forall|j: int| 0 <= j < p ==> lex_lt((#[trigger] list@[j]).0@, item.0@),
        decreases list.len() - p,
    {
        p += 1;
    }
    let ghost before = list@;
    if p < list.len() && text_eq(list[p].0, item.0) {
        assert(has_code(before, item.0@));
        return ;
    }
    proof {
        assert forall|j: int| 0 <= j < before.len() implies (#[trigger] before[j]).0@
            != item.0@ by {
            if j < p {
                lemma_lex_irreflexive(item.0@);
            } else if j > p {
                assert(lex_lt(before[p as int].0@, before[j].0@));
            }
        }
        assert(!has_code(before, item.0@));
        assert forall|j: int| p <= j < before.len() implies lex_lt(
            item.0@,
            (#[trigger] before[j]).0@,
        ) by {
            lemma_lex_total(item.0@, before[p as int].0@);
            if j > p {
                assert(lex_lt(before[p as int].0@, before[j].0@));
                lemma_lex_transitive(item.0@, before[p as int].0@, before[j].0@);
            }
        }
    }
    list.insert(p, item);
    proof {
        let after = list@;
        assert(after == before.insert(p as int, item));
        assert forall|i: int, j: int| 0 <= i < j < after.len() implies lex_lt(
            #[trigger] after[i].0@,
            #[trigger] after[j].0@,
        ) by {
            if j < p {
                assert(after[i] == before[i] && after[j] == before[j]);
            } else if j == p {
                assert(after[i] == before[i]);
            } else if i < p {
                assert(after[i] == before[i] && after[j] == before[j - 1]);
                assert(lex_lt(before[i].0@, before[j - 1].0@));
            } else if i == p {
                assert(after[j] == before[j - 1]);
            } else {
                assert(after[i] == before[i - 1] && after[j] == before[j - 1]);
            }
        }
    }
}

/// The country list of `source`: every code of `source` once, with the
/// first entry that has it, in rising order of the codes.
pub fn merge_sorted(source: &Vec<Entry>) -> (list: Vec<Entry>)
    ensures
        sorted_by_code(list@),
        forall|i: int| 0 <= i < list@.len() ==> wins(source@, #[trigger] list@[i]),
        forall|k: int| 0 <= k < source@.len() ==> has_code(list@, (#[trigger] source@[k]).0@),
{
    let mut list: Vec<Entry> = Vec::new();
    let mut k: usize = 0;
    while k < source.len()
        invariant
            k <= source.len(),
            list@.len() <= k,
            sorted_by_code(list@),
            forall|i: int| 0 <= i < list@.len() ==> wins(source@, #[trigger] list@[i]),
            forall|j: int| 0 <= j < k ==> has_code(list@, (#[trigger] source@[j]).0@),
        decreases source.len() - k,
    {
        let ghost before = list@;
        let item = source[k];
        insert_sorted(&mut list, item);
        proof {
            if has_code(before, item.0@) {
                assert(list@ == before);
                assert(has_code(list@, source@[k as int].0@));
            } else {
                let p = choose|p: int|
                    0 <= p <= before.len() && list@ == #[trigger] before.insert(p, item);
                assert(list@[p] == item);
                assert(has_code(list@, source@[k as int].0@));
                assert forall|j: int| 0 <= j < k implies has_code(
                    list@,
                    (#[trigger] source@[j]).0@,
                ) by {
                    let i = choose|i: int|
                        0 <= i < before.len() && (#[trigger] before[i]).0@ == source@[j].0@;
                    if i < p {
                        assert(list@[i] == before[i]);
                    } else {
                        assert(list@[i + 1] == before[i]);
                    }
                }
                assert(wins(source@, item)) by {
                    assert forall|j: int| 0 <= j < k implies (#[trigger] source@[j]).0@
                        != item.0@ by {
                        if source@[j].0@ == item.0@ {
                            assert(has_code(before, source@[j].0@));
                        }
                    }
                    assert(source@[k as int] == item);
                }
                assert forall|i: int| 0 <= i < list@.len() implies wins(
                    source@,
                    #[trigger] list@[i],
                ) by {
                    if i < p {
                        assert(list@[i] == before[i]);
                    } else if i > p {
                        assert(list@[i] == before[i - 1]);
                    }
                }
            }
        }
        k += 1;
    }
    list
}

/// Some text of `list` is `text`.
pub open spec fn names(list: Seq<&'static str>, text: Seq<char>) -> bool {
    exists|i: int| 0 <= i < list.len() && (#[trigger] list[i])@ == text
}

/// The texts of `source`, each once, in the order in which they first
/// occur.
pub fn distinct(source: &Vec<&'static str>) -> (list: Vec<&'static str>)
    ensures
        forall|i: int| 0 <= i < list@.len() ==> names(source@, (#[trigger] list@[i])@),
        forall|k: int| 0 <= k < source@.len() ==> names(list@, (#[trigger] source@[k])@),
        forall|i: int, j: int|
            0 <= i < j < list@.len() ==> (#[trigger] list@[i])@ != (#[trigger] list@[j])@,
{
    let mut list: Vec<&'static str> = Vec::new();
    let mut k: usize = 0;
    while k < source.len()
        invariant
            k <= source.len(),
            forall|i: int| 0 <= i < list@.len() ==> names(source@, (#[trigger] list@[i])@),
            forall|r: int| 0 <= r < k ==> names(list@, (#[trigger] source@[r])@),
            forall|i: int, j: int|
                0 <= i < j < list@.len() ==> (#[trigger] list@[i])@ != (#[trigger] list@[j])@,
        decreases source.len() - k,
    {
        let text = source[k];
        let mut seen = false;
        let mut j: usize = 0;
        while j < list.len()
            invariant
                j <= list.len(),
                seen <==> exists|i: int| 0 <= i < j && (#[trigger] list@[i])@ == text@,
            decreases list.len() - j,
        {
            if text_eq(list[j], text) {
                seen = true;
            }
            j += 1;
        }
        let ghost before = list@;
        if !seen {
            list.push(text);
            assert(list@[list@.len() - 1]@ == text@);
        }
        proof {
            assert(names(list@, source@[k as int]@)) by {
                if seen {
                    let i = choose|i: int| 0 <= i < before.len() && (#[trigger] before[i])@ == text@;
                    assert(list@[i] == before[i]);
                }
            }
            assert forall|r: int| 0 <= r < k implies names(list@, (#[trigger] source@[r])@) by {
                assert(names(before, source@[r]@));
                let i = choose|i: int|
                    0 <= i < before.len() && (#[trigger] before[i])@ == source@[r]@;
                assert(list@[i] == before[i]);
            }
            assert forall|i: int| 0 <= i < list@.len() implies names(
                source@,
                (#[trigger] list@[i])@,
            ) by {
                if i < before.len() {
                    assert(list@[i] == before[i]);
                } else {
                    assert(source@[k as int]@ == list@[i]@);
                }
            }
        }
        k += 1;
    }
    list
}

} // verus!
