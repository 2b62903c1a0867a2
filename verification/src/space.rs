//! White space: trimming a text and splitting it into words.

use vstd::prelude::*;

verus! {

/// Whether `c` is white space as `char::is_whitespace` tells it: whether it
/// has the Unicode property White_Space.
pub uninterp spec fn is_space(c: char) -> bool;

/// `char::is_whitespace` is the test that `is_space` names.
pub assume_specification[ char::is_whitespace ](c: char) -> (r: bool)
    ensures
        r == is_space(c),
;

/// The number of white-space characters at the start of `s`.
pub open spec fn leading(s: Seq<char>) -> int
    decreases s.len(),
{
    if s.len() == 0 || !is_space(s[0]) {
        0
    } else {
        1 + leading(s.skip(1))
    }
}

/// The number of white-space characters at the end of `s`.
pub open spec fn trailing(s: Seq<char>) -> int
    decreases s.len(),
{
    if s.len() == 0 || !is_space(s.last()) {
        0
    } else {
        1 + trailing(s.drop_last())
    }
}

/// `s` without the white space at its start and at its end.
pub open spec fn trimmed(s: Seq<char>) -> Seq<char> {
    let rest = s.skip(leading(s));
    rest.take(rest.len() - trailing(rest))
}

/// A position up to which `s` holds white space only, and which is the end or
/// holds another character, is the one that `leading` returns.
pub proof fn lemma_leading_is(s: Seq<char>, i: int)
    requires
        0 <= i <= s.len(),
        i < s.len() ==> !is_space(s[i]),
        forall|k: int| 0 <= k < i ==> is_space(s[k]),
    ensures
        leading(s) == i,
    decreases s.len(),
{
    if s.len() == 0 || !is_space(s[0]) {
        if i > 0 {
            assert(is_space(s[0]));
        }
    } else {
        assert(i > 0);
        let t = s.skip(1);
        assert forall|k: int| 0 <= k < i - 1 implies is_space(t[k]) by {
            assert(t[k] == s[k + 1]);
        }
        lemma_leading_is(t, i - 1);
    }
}

/// A position from which `s` holds white space only, and before which is the
/// start or another character, is where the run that `trailing` counts starts.
pub proof fn lemma_trailing_is(s: Seq<char>, i: int)
    requires
        0 <= i <= s.len(),
        i > 0 ==> !is_space(s[i - 1]),
        forall|k: int| i <= k < s.len() ==> is_space(s[k]),
    ensures
        trailing(s) == s.len() - i,
    decreases s.len(),
{
    if s.len() == 0 || !is_space(s.last()) {
        if i < s.len() {
            assert(is_space(s[s.len() - 1]));
        }
    } else {
        assert(i < s.len());
        let t = s.drop_last();
        assert forall|k: int| i <= k < t.len() implies is_space(t[k]) by {
            assert(t[k] == s[k]);
        }
        lemma_trailing_is(t, i);
    }
}

/// A copy of `s` without the white space at its start and at its end.
pub fn trim(s: &[char]) -> (v: Vec<char>)
    ensures
        v@ == trimmed(s@),
{
    let mut a: usize = 0;
    while a < s.len() && s[a].is_whitespace()
        invariant
            a <= s.len(),
            forall|k: int| 0 <= k < a ==> is_space(s@[k]),
        decreases s.len() - a,
    {
        a += 1;
    }
    let mut b: usize = s.len();
    while b > a && s[b - 1].is_whitespace()
        invariant
            a <= b <= s.len(),
            forall|k: int| b <= k < s.len() ==> is_space(s@[k]),
        decreases b,
    {
        b -= 1;
    }
    proof {
        lemma_leading_is(s@, a as int);
        let rest = s@.skip(a as int);
        assert forall|k: int| b - a <= k < rest.len() implies is_space(rest[k]) by {
            assert(rest[k] == s@[k + a]);
        }
        if b > a {
            assert(rest[b - a - 1] == s@[b - 1]);
        }
        lemma_trailing_is(rest, b - a);
        assert(rest.take(b - a) =~= s@.subrange(a as int, b as int));
    }
    crate::text::slice_of(s, a, b)
}

/// `word` as a one-element sequence, or nothing where `word` is empty.
pub open spec fn word_if_any(word: Seq<char>) -> Seq<Seq<char>> {
    if word.len() > 0 {
        seq![word]
    } else {
        Seq::empty()
    }
}

/// The words of `cur + s`, where `cur` is the part of a word already read.
pub open spec fn words_after(s: Seq<char>, cur: Seq<char>) -> Seq<Seq<char>>
    decreases s.len(),
{
    if s.len() == 0 {
        word_if_any(cur)
    } else if is_space(s[0]) {
        word_if_any(cur) + words_after(s.skip(1), Seq::empty())
    } else {
        words_after(s.skip(1), cur.push(s[0]))
    }
}

/// The words of `s`: its longest runs of characters that are not white space,
/// in order.
pub open spec fn words(s: Seq<char>) -> Seq<Seq<char>> {
    words_after(s, Seq::empty())
}

/// Splits `s` at white space into its words.
pub fn split_words(s: &[char]) -> (out: Vec<Vec<char>>)
    ensures
        crate::text::texts(out@) == words(s@),
{
    let mut out: Vec<Vec<char>> = Vec::new();
    let mut cur: Vec<char> = Vec::new();
    let mut i: usize = 0;
    assert(s@.skip(0) =~= s@);
    assert(crate::text::texts(out@) =~= Seq::<Seq<char>>::empty());
    assert(Seq::<Seq<char>>::empty() + words(s@) =~= words(s@));
    while i < s.len()
        invariant
            i <= s.len(),
            crate::text::texts(out@) + words_after(s@.skip(i as int), cur@) == words(s@),
        decreases s.len() - i,
    {
        let ghost rest = s@.skip(i as int);
        let ghost before = crate::text::texts(out@);
        let ghost tail = rest.skip(1);
        assert(tail =~= s@.skip(i as int + 1));
        assert(rest[0] == s@[i as int]);
        if s[i].is_whitespace() {
            if cur.len() > 0 {
                let ghost w = cur@;
                out.push(cur);
                cur = Vec::new();
                proof {
                    assert(crate::text::texts(out@) =~= before + seq![w]);
                    assert(before + (seq![w] + words_after(tail, Seq::empty())) =~= (before
                        + seq![w]) + words_after(tail, Seq::empty()));
                }
            } else {
                proof {
                    assert(cur@ =~= Seq::<char>::empty());
                    assert(Seq::<Seq<char>>::empty() + words_after(tail, Seq::empty())
                        =~= words_after(tail, Seq::empty()));
                }
            }
        } else {
            cur.push(s[i]);
        }
        i += 1;
    }
    assert(s@.skip(s.len() as int).len() == 0);
    if cur.len() > 0 {
        let ghost before = crate::text::texts(out@);
        let ghost w = cur@;
        out.push(cur);
        assert(crate::text::texts(out@) =~= before + seq![w]);
    } else {
        assert(crate::text::texts(out@) + Seq::<Seq<char>>::empty() =~= crate::text::texts(out@));
    }
    out
}

} // verus!
