//! Trimming, joining and comparing texts.

use crate::text::{
    ascii_lower, begins, blank_is_all_white, ends, is_white, joined, lowered, nonblank, nonempty,
    trimmed, trimmed_end, trimmed_has_no_white_ends, trimmed_start, without_trailing,
};
use vstd::prelude::*;

verus! {

/// Whether a text holds nothing but white space.
pub open spec fn all_white(s: Seq<char>) -> bool {
    forall|i: int| 0 <= i < s.len() ==> is_white(#[trigger] s[i])
}

/// What leading white space is cut is white space, and none is left.
pub proof fn leading_white_space_is_cut(s: Seq<char>) -> (cut: Seq<char>)
    ensures
        s == cut + trimmed_start(s),
        all_white(cut),
        trimmed_start(s).len() > 0 ==> !is_white(trimmed_start(s)[0]),
    decreases s.len(),
{
    if s.len() > 0 && is_white(s[0]) {
        let more = leading_white_space_is_cut(s.drop_first());
        let cut = seq![s[0]] + more;
        let left = trimmed_start(s.drop_first());
        assert(s =~= seq![s[0]] + s.drop_first());
        assert(seq![s[0]] + (more + left) =~= cut + left);
        assert forall|i: int| 0 <= i < cut.len() implies is_white(#[trigger] cut[i]) by {
            if i > 0 {
                assert(cut[i] == more[i - 1]);
            }
        }
        cut
    } else {
        assert(s =~= Seq::<char>::empty() + s);
        Seq::empty()
    }
}

proof fn trailing_white_space_is_cut(s: Seq<char>) -> (cut: Seq<char>)
    ensures
        s == trimmed_end(s) + cut,
        all_white(cut),
    decreases s.len(),
{
    if s.len() > 0 && is_white(s.last()) {
        let more = trailing_white_space_is_cut(s.drop_last());
        let cut = more.push(s.last());
        let left = trimmed_end(s.drop_last());
        assert(s =~= s.drop_last().push(s.last()));
        assert((left + more).push(s.last()) =~= left + cut);
        assert forall|i: int| 0 <= i < cut.len() implies is_white(#[trigger] cut[i]) by {
            if i < more.len() {
                assert(cut[i] == more[i]);
            }
        }
        cut
    } else {
        assert(s =~= s + Seq::<char>::empty());
        Seq::empty()
    }
}

/// Trimming cuts white space off either end, all of it, and nothing else: what is
/// cut is white space, and what is left neither begins nor ends with any.
pub proof fn trimming_cuts_white_space_alone(s: Seq<char>) -> (cut: (Seq<char>, Seq<char>))
    ensures
        s == cut.0 + trimmed(s) + cut.1,
        all_white(cut.0),
        all_white(cut.1),
        trimmed(s).len() > 0 ==> !is_white(trimmed(s)[0]) && !is_white(trimmed(s).last()),
{
    let before = leading_white_space_is_cut(s);
    let behind = trailing_white_space_is_cut(trimmed_start(s));
    trimmed_has_no_white_ends(s);
    assert(s =~= before + trimmed(s) + behind);
    (before, behind)
}

/// White space around a text goes, and the text stays as it is.
pub proof fn white_space_around_goes(before: Seq<char>, s: Seq<char>, behind: Seq<char>)
    requires
        all_white(before),
        all_white(behind),
        s.len() > 0,
        !is_white(s[0]),
        !is_white(s.last()),
    ensures
        trimmed(before + s + behind) == s,
        trimmed_start(before + s + behind) == s + behind,
    decreases before.len() + behind.len(),
{
    let all = before + s + behind;
    if before.len() > 0 {
        assert(is_white(before[0]));
        assert forall|i: int| 0 <= i < before.drop_first().len() implies is_white(
            #[trigger] before.drop_first()[i],
        ) by {
            assert(before.drop_first()[i] == before[i + 1]);
        }
        white_space_around_goes(before.drop_first(), s, behind);
        assert(all.drop_first() =~= before.drop_first() + s + behind);
        assert(all[0] == before[0]);
    } else {
        assert(all =~= s + behind);
        lemma_end_goes(s, behind);
    }
}

proof fn lemma_end_goes(s: Seq<char>, behind: Seq<char>)
    requires
        all_white(behind),
        s.len() > 0,
        !is_white(s.last()),
    ensures
        trimmed_end(s + behind) == s,
    decreases behind.len(),
{
    if behind.len() > 0 {
        assert(is_white(behind[behind.len() - 1]));
        assert forall|i: int| 0 <= i < behind.drop_last().len() implies is_white(
            #[trigger] behind.drop_last()[i],
        ) by {
            assert(behind.drop_last()[i] == behind[i]);
        }
        lemma_end_goes(s, behind.drop_last());
        assert((s + behind).drop_last() =~= s + behind.drop_last());
    } else {
        assert(s + behind =~= s);
    }
}

/// A text that is not blank is given trimmed, and a blank one not at all; nothing
/// comes of nothing.
pub proof fn blank_texts_do_not_count(s: Seq<char>)
    ensures
        nonblank(None) is None,
        all_white(s) <==> nonblank(Some(s)) is None,
        !all_white(s) ==> nonblank(Some(s)) == Some(trimmed(s)) && trimmed(s).len() > 0,
{
    blank_is_all_white(s);
}

/// A text that is not empty is given as it stands, white space and all.
pub proof fn nonempty_texts_stay(s: Seq<char>)
    ensures
        nonempty(None) is None,
        s.len() > 0 ==> nonempty(Some(s)) == Some(s),
        s.len() == 0 ==> nonempty(Some(s)) is None,
{
}

/// However many of a character stand at the end of a text, all go, and nothing else
/// does.
pub proof fn trailing_characters_go(s: Seq<char>, c: char, n: nat)
    requires
        s.len() > 0 ==> s.last() != c,
    ensures
        without_trailing(s + Seq::new(n, |i: int| c), c) == s,
    decreases n,
{
    let more = Seq::new(n, |i: int| c);
    if n > 0 {
        let fewer = (n - 1) as nat;
        trailing_characters_go(s, c, fewer);
        assert((s + more).drop_last() =~= s + Seq::new(fewer, |i: int| c));
    } else {
        assert(s + more =~= s);
    }
}

/// What is left of a text without its trailing characters ends with another, and
/// only those were cut.
pub proof fn trailing_characters_are_cut(s: Seq<char>, c: char) -> (n: nat)
    ensures
        s == without_trailing(s, c) + Seq::new(n, |i: int| c),
        without_trailing(s, c).len() > 0 ==> without_trailing(s, c).last() != c,
    decreases s.len(),
{
    if s.len() > 0 && s.last() == c {
        let n = trailing_characters_are_cut(s.drop_last(), c);
        let left = without_trailing(s.drop_last(), c);
        assert(s =~= s.drop_last().push(c));
        assert((left + Seq::new(n, |i: int| c)).push(c) =~= left + Seq::new(
            (n + 1) as nat,
            |i: int| c,
        ));
        (n + 1) as nat
    } else {
        assert(s =~= s + Seq::new(0, |i: int| c));
        0
    }
}

/// A text begins with another exactly if that stands at its beginning, and ends with
/// another exactly if that stands at its end.
pub proof fn beginnings_and_ends(s: Seq<char>, p: Seq<char>)
    ensures
        begins(p + s, p),
        ends(s + p, p),
        begins(s, p) ==> s == p + s.skip(p.len() as int),
        ends(s, p) ==> s == s.take(s.len() - p.len()) + p,
        begins(s, p) || ends(s, p) ==> p.len() <= s.len(),
{
    assert((p + s).take(p.len() as int) =~= p);
    assert((s + p).skip((s + p).len() - p.len()) =~= p);
    if begins(s, p) {
        assert(s =~= s.take(p.len() as int) + s.skip(p.len() as int));
    }
    if ends(s, p) {
        assert(s =~= s.take(s.len() - p.len()) + s.skip(s.len() - p.len()));
    }
}

/// Texts are joined in order, each as it stands, with the separator between any two
/// and nowhere else.
pub proof fn joining_puts_the_separator_between(
    parts: Seq<Seq<char>>,
    more: Seq<Seq<char>>,
    one: Seq<char>,
    sep: Seq<char>,
)
    ensures
        joined(Seq::empty(), sep) == Seq::<char>::empty(),
        joined(seq![one], sep) == one,
        parts.len() > 0 && more.len() > 0 ==> joined(parts + more, sep) == joined(parts, sep) + sep
            + joined(more, sep),
    decreases more.len(),
{
    if parts.len() > 0 && more.len() > 0 {
        let all = parts + more;
        assert(all.drop_last() =~= parts + more.drop_last());
        assert(all.last() == more.last());
        if more.len() == 1 {
            assert(parts + more.drop_last() =~= parts);
        } else {
            joining_puts_the_separator_between(parts, more.drop_last(), one, sep);
            let (a, b) = (joined(parts, sep), joined(more.drop_last(), sep));
            assert(a + sep + b + sep + more.last() =~= a + sep + (b + sep + more.last()));
        }
    }
}

/// Each ASCII capital becomes its small letter, and every other character stays.
pub proof fn lower_case_goes_letter_by_letter(s: Seq<char>, i: int)
    requires
        0 <= i < s.len(),
    ensures
        lowered(s).len() == s.len(),
        'A' <= s[i] <= 'Z' ==> lowered(s)[i] as u32 == s[i] as u32 + 32 && 'a' <= lowered(s)[i]
            <= 'z',
        !('A' <= s[i] <= 'Z') ==> lowered(s)[i] == s[i],
        lowered(lowered(s)) == lowered(s),
{
    assert forall|k: int| 0 <= k < s.len() implies lowered(lowered(s))[k] == lowered(s)[k] by {
        assert(lowered(s)[k] == ascii_lower(s[k]));
    }
    assert(lowered(lowered(s)) =~= lowered(s));
}

} // verus!
