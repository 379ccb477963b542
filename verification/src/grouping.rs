//! Formatting: a code written in groups of a fixed size with a separator
//! between them. Formatting does not look at what the code means.

use vstd::prelude::*;
use crate::text::{chars_of, string_of};

verus! {

/// `s` with every `sep` left out.
pub open spec fn without(s: Seq<char>, sep: char) -> Seq<char>
    decreases s.len(),
{
    if s.len() == 0 {
        s
    } else if s.last() == sep {
        without(s.drop_last(), sep)
    } else {
        without(s.drop_last(), sep).push(s.last())
    }
}

/// `s` with a `sep` put in after every `size` characters that more follow.
pub open spec fn grouped(s: Seq<char>, size: int, sep: char) -> Seq<char>
    decreases s.len(),
{
    if s.len() == 0 {
        s
    } else if s.len() > 1 && (s.len() - 1) % size == 0 {
        grouped(s.drop_last(), size, sep).push(sep).push(s.last())
    } else {
        grouped(s.drop_last(), size, sep).push(s.last())
    }
}

/// A code as it is formatted: its separators are taken out, and what is
/// left is written in groups.
pub open spec fn formatted(s: Seq<char>, size: int, sep: char) -> Seq<char> {
    grouped(without(s, sep), size, sep)
}

/// What is left when the separators are taken out holds no separator.
pub proof fn lemma_without_is_clean(s: Seq<char>, sep: char)
    ensures
        forall|i: int| 0 <= i < without(s, sep).len() ==> #[trigger] without(s, sep)[i] != sep,
        without(s, sep).len() <= s.len(),
    decreases s.len(),
{
    if s.len() > 0 {
        lemma_without_is_clean(s.drop_last(), sep);
    }
}

/// Grouping a text without separators and taking the separators out again
/// gives the text back.
pub proof fn lemma_ungroup(s: Seq<char>, size: int, sep: char)
    requires
        size > 0,
        forall|i: int| 0 <= i < s.len() ==> #[trigger] s[i] != sep,
    ensures
        without(grouped(s, size, sep), sep) == s,
    decreases s.len(),
{
    if s.len() > 0 {
        let head = s.drop_last();
        assert(s[s.len() - 1] != sep);
        assert forall|i: int| 0 <= i < head.len() implies #[trigger] head[i] != sep by {
            assert(head[i] == s[i]);
        }
        lemma_ungroup(head, size, sep);
        let g = grouped(head, size, sep);
        if s.len() > 1 && (s.len() - 1) % size == 0 {
            let full = g.push(sep).push(s.last());
            assert(full.drop_last() =~= g.push(sep));
            assert(g.push(sep).drop_last() =~= g);
            assert(without(g.push(sep), sep) == without(g, sep));
            assert(without(full, sep) == without(g.push(sep), sep).push(s.last()));
        } else {
            let full = g.push(s.last());
            assert(full.drop_last() =~= g);
            assert(without(full, sep) == without(g, sep).push(s.last()));
        }
        assert(head.push(s.last()) =~= s);
    }
}

/// Formatting is idempotent: a formatted code is left as it is when it is
/// formatted once more.
pub proof fn lemma_format_idempotent(s: Seq<char>, size: int, sep: char)
    requires
        size > 0,
    ensures
        formatted(formatted(s, size, sep), size, sep) == formatted(s, size, sep),
{
    lemma_without_is_clean(s, sep);
    lemma_ungroup(without(s, sep), size, sep);
}

/// Writes `code` in groups of `size` characters with `sep` between them;
/// separators that `code` already holds are taken out first.
pub fn group_chars(code: &Vec<char>, size: usize, sep: char) -> (out: Vec<char>)
    requires
        size > 0,
    ensures
        out@ == formatted(code@, size as int, sep),
{
    let mut out: Vec<char> = Vec::new();
    let mut kept: usize = 0;
    let mut i: usize = 0;
    proof {
        assert(code@.take(0).len() == 0);
    }
    while i < code.len()
        invariant
            i <= code.len(),
            size > 0,
            kept == without(code@.take(i as int), sep).len(),
            kept <= i,
            out@ == grouped(without(code@.take(i as int), sep), size as int, sep),
        decreases code.len() - i,
    {
        proof {
            let head = code@.take(i + 1);
            assert(head.drop_last() =~= code@.take(i as int));
            assert(head.last() == code@[i as int]);
            let clean = without(head, sep);
            if code@[i as int] != sep {
                assert(clean.drop_last() =~= without(code@.take(i as int), sep));
            }
        }
        let c = code[i];
        if c != sep {
            if kept > 0 && kept % size == 0 {
                out.push(sep);
            }
            out.push(c);
            kept += 1;
        }
        i += 1;
    }
    proof {
        assert(code@.take(code@.len() as int) =~= code@);
    }
    out
}

/// Writes `code` in groups of `size` characters with `sep` between them;
/// separators that `code` already holds are taken out first. A code that
/// is written so already comes back unchanged.
pub fn group_text(code: &str, size: usize, sep: char) -> (out: String)
    requires
        size > 0,
    ensures
        out@ == formatted(code@, size as int, sep),
        formatted(out@, size as int, sep) == out@,
{
    let chars = chars_of(code);
    let out = group_chars(&chars, size, sep);
    proof {
        lemma_format_idempotent(code@, size as int, sep);
    }
    string_of(&out)
}

/// `s` with a `sep` put in before each place that `cuts` names, the first
/// place and places beyond the end left aside.
pub open spec fn grouped_at(s: Seq<char>, cuts: Seq<usize>, sep: char) -> Seq<char>
    decreases s.len(),
{
    if s.len() == 0 {
        s
    } else if s.len() > 1 && cuts.contains((s.len() - 1) as usize) {
        grouped_at(s.drop_last(), cuts, sep).push(sep).push(s.last())
    } else {
        grouped_at(s.drop_last(), cuts, sep).push(s.last())
    }
}

/// A code as it is formatted after a pattern: its separators are taken
/// out, and what is left is cut at the places of the pattern.
pub open spec fn formatted_at(s: Seq<char>, cuts: Seq<usize>, sep: char) -> Seq<char> {
    grouped_at(without(s, sep), cuts, sep)
}

/// Cutting a text without separators and taking the separators out again
/// gives the text back.
pub proof fn lemma_ungroup_at(s: Seq<char>, cuts: Seq<usize>, sep: char)
    requires
        forall|i: int| 0 <= i < s.len() ==> #[trigger] s[i] != sep,
    ensures
        without(grouped_at(s, cuts, sep), sep) == s,
    decreases s.len(),
{
    if s.len() > 0 {
        let head = s.drop_last();
        assert(s[s.len() - 1] != sep);
        assert forall|i: int| 0 <= i < head.len() implies #[trigger] head[i] != sep by {
            assert(head[i] == s[i]);
        }
        lemma_ungroup_at(head, cuts, sep);
        let g = grouped_at(head, cuts, sep);
        if s.len() > 1 && cuts.contains((s.len() - 1) as usize) {
            let full = g.push(sep).push(s.last());
            assert(full.drop_last() =~= g.push(sep));
            assert(g.push(sep).drop_last() =~= g);
            assert(without(g.push(sep), sep) == without(g, sep));
            assert(without(full, sep) == without(g.push(sep), sep).push(s.last()));
        } else {
            let full = g.push(s.last());
            assert(full.drop_last() =~= g);
            assert(without(full, sep) == without(g, sep).push(s.last()));
        }
        assert(head.push(s.last()) =~= s);
    }
}

/// Formatting after a pattern is idempotent.
pub proof fn lemma_format_at_idempotent(s: Seq<char>, cuts: Seq<usize>, sep: char)
    ensures
        formatted_at(formatted_at(s, cuts, sep), cuts, sep) == formatted_at(s, cuts, sep),
{
    lemma_without_is_clean(s, sep);
    lemma_ungroup_at(without(s, sep), cuts, sep);
}

/// Whether `cuts` names the place `place`.
pub fn is_cut(cuts: &[usize], place: usize) -> (r: bool)
    ensures
        r == cuts@.contains(place),
{
    let mut i: usize = 0;
    while i < cuts.len()
        invariant
            i <= cuts.len(),
            forall|k: int| 0 <= k < i ==> cuts@[k] != place,
        decreases cuts.len() - i,
    {
        if cuts[i] == place {
            return true;
        }
        i += 1;
    }
    false
}

/// Writes `code` with `sep` put in before each place that `cuts` names;
/// separators that `code` already holds are taken out first. A code that
/// is written so already comes back unchanged.
pub fn group_text_at(code: &str, cuts: &[usize], sep: char) -> (out: String)
    ensures
        out@ == formatted_at(code@, cuts@, sep),
        formatted_at(out@, cuts@, sep) == out@,
{
    let chars = chars_of(code);
    let mut out: Vec<char> = Vec::new();
    let mut kept: usize = 0;
    let mut i: usize = 0;
    proof {
        assert(chars@.take(0).len() == 0);
    }
    while i < chars.len()
        invariant
            i <= chars.len(),
            kept == without(chars@.take(i as int), sep).len(),
            kept <= i,
            out@ == grouped_at(without(chars@.take(i as int), sep), cuts@, sep),
        decreases chars.len() - i,
    {
        proof {
            let head = chars@.take(i + 1);
            assert(head.drop_last() =~= chars@.take(i as int));
            assert(head.last() == chars@[i as int]);
            let clean = without(head, sep);
            if chars@[i as int] != sep {
                assert(clean.drop_last() =~= without(chars@.take(i as int), sep));
            }
        }
        let c = chars[i];
        if c != sep {
            if kept > 0 && is_cut(cuts, kept) {
                out.push(sep);
            }
            out.push(c);
            kept += 1;
        }
        i += 1;
    }
    proof {
        assert(chars@.take(chars@.len() as int) =~= chars@);
        lemma_format_at_idempotent(code@, cuts@, sep);
    }
    string_of(&out)
}

} // verus!
