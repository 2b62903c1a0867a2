//! Text as a sequence of characters: searching, splitting into lines and
//! removing characters. Every function here states its result over `Seq<char>`.

use vstd::prelude::*;

verus! {

/// `String::push` appends one character.
pub assume_specification[ String::push ](s: &mut String, c: char)
    ensures
        final(s)@ == old(s)@.push(c),
;

/// The text of an optional string.
pub open spec fn text_of(s: Option<String>) -> Option<Seq<char>> {
    match s {
        Some(t) => Some(t@),
        None => None,
    }
}

/// The text of a string that is the result of an operation that may fail.
pub open spec fn text_result<E>(r: Result<String, E>) -> Result<Seq<char>, E> {
    match r {
        Ok(t) => Ok(t@),
        Err(e) => Err(e),
    }
}

/// The characters of `s`, in order.
pub fn to_chars(s: &str) -> (v: Vec<char>)
    ensures
        v@ == s@,
{
    let mut v: Vec<char> = Vec::new();
    for c in it: s.chars()
        invariant
            v@ == it.seq().take(it.index() as int),
            it.seq() == s@,
    {
        v.push(c);
    }
    v
}

/// The string made of the characters of `v`, in order.
pub fn to_text(v: &[char]) -> (s: String)
    ensures
        s@ == v@,
{
    let mut s = String::new();
    let mut i: usize = 0;
    while i < v.len()
        invariant
            i <= v.len(),
            s@ == v@.take(i as int),
        decreases v.len() - i,
    {
        s.push(v[i]);
        assert(v@.take(i as int + 1) =~= v@.take(i as int).push(v@[i as int]));
        i += 1;
    }
    assert(v@.take(v.len() as int) =~= v@);
    s
}

/// Appends the characters of `piece` to `out`.
pub fn append(out: &mut Vec<char>, piece: &[char])
    ensures
        final(out)@ == old(out)@ + piece@,
{
    let mut i: usize = 0;
    while i < piece.len()
        invariant
            i <= piece.len(),
            out@ == old(out)@ + piece@.take(i as int),
        decreases piece.len() - i,
    {
        out.push(piece[i]);
        assert(piece@.take(i as int + 1) =~= piece@.take(i as int).push(piece@[i as int]));
        i += 1;
    }
    assert(piece@.take(piece.len() as int) =~= piece@);
}

/// Appends the characters of the string `piece` to `out`.
pub fn append_str(out: &mut Vec<char>, piece: &str)
    ensures
        final(out)@ == old(out)@ + piece@,
{
    let chars = to_chars(piece);
    append(out, chars.as_slice());
}

/// A copy of `s[from..to]`.
pub fn slice_of(s: &[char], from: usize, to: usize) -> (v: Vec<char>)
    requires
        from <= to <= s.len(),
    ensures
        v@ == s@.subrange(from as int, to as int),
{
    let mut v: Vec<char> = Vec::new();
    let mut i: usize = from;
    while i < to
        invariant
            from <= i <= to <= s.len(),
            v@ == s@.subrange(from as int, i as int),
        decreases to - i,
    {
        v.push(s[i]);
        assert(s@.subrange(from as int, i as int + 1) =~= s@.subrange(from as int, i as int).push(
            s@[i as int],
        ));
        i += 1;
    }
    v
}

/// Whether `line` begins with `prefix`.
pub fn starts_with(line: &[char], prefix: &[char]) -> (found: bool)
    ensures
        found == prefix@.is_prefix_of(line@),
{
    if line.len() < prefix.len() {
        return false;
    }
    let mut i: usize = 0;
    while i < prefix.len()
        invariant
            i <= prefix.len() <= line.len(),
            forall|k: int| 0 <= k < i ==> line@[k] == prefix@[k],
        decreases prefix.len() - i,
    {
        if line[i] != prefix[i] {
            assert(line@.subrange(0, prefix.len() as int)[i as int] == line@[i as int]);
            return false;
        }
        i += 1;
    }
    assert(line@.subrange(0, prefix.len() as int) =~= prefix@);
    true
}

/// Whether `line` begins with the string `prefix`.
pub fn starts_with_str(line: &[char], prefix: &str) -> (found: bool)
    ensures
        found == prefix@.is_prefix_of(line@),
{
    let p = to_chars(prefix);
    starts_with(line, p.as_slice())
}

/// Whether `line` ends with `suffix`.
pub fn ends_with(line: &[char], suffix: &[char]) -> (found: bool)
    ensures
        found == suffix@.is_suffix_of(line@),
{
    if line.len() < suffix.len() {
        return false;
    }
    let base: usize = line.len() - suffix.len();
    let mut i: usize = 0;
    while i < suffix.len()
        invariant
            i <= suffix.len() <= line.len(),
            base == line.len() - suffix.len(),
            forall|k: int| 0 <= k < i ==> line@[base + k] == suffix@[k],
        decreases suffix.len() - i,
    {
        if line[base + i] != suffix[i] {
            assert(line@.subrange(base as int, line.len() as int)[i as int] == line@[base + i]);
            return false;
        }
        i += 1;
    }
    assert(line@.subrange(base as int, line.len() as int) =~= suffix@);
    true
}

/// Whether `line` ends with the string `suffix`.
pub fn ends_with_str(line: &[char], suffix: &str) -> (found: bool)
    ensures
        found == suffix@.is_suffix_of(line@),
{
    let p = to_chars(suffix);
    ends_with(line, p.as_slice())
}

/// Whether two texts hold the same characters.
pub fn same_text(a: &[char], b: &[char]) -> (same: bool)
    ensures
        same == (a@ == b@),
{
    if a.len() != b.len() {
        return false;
    }
    let found = starts_with(a, b);
    proof {
        if found {
            assert(a@.subrange(0, b.len() as int) =~= a@);
        }
    }
    found
}

/// Whether two strings hold the same characters.
pub fn same_str(a: &str, b: &str) -> (same: bool)
    ensures
        same == (a@ == b@),
{
    let x = a.to_owned();
    let y = b.to_owned();
    x == y
}

/// The position of the first `c` in `s`, or the length of `s` where it holds none.
pub open spec fn find(s: Seq<char>, c: char) -> int
    decreases s.len(),
{
    if s.len() == 0 || s[0] == c {
        0
    } else {
        1 + find(s.skip(1), c)
    }
}

/// `find` returns a position within `s`, with no `c` before it and `c` at it
/// unless it is the end.
pub proof fn lemma_find(s: Seq<char>, c: char)
    ensures
        0 <= find(s, c) <= s.len(),
        find(s, c) < s.len() ==> s[find(s, c)] == c,
        forall|k: int| 0 <= k < find(s, c) ==> s[k] != c,
    decreases s.len(),
{
    if s.len() == 0 || s[0] == c {
    } else {
        lemma_find(s.skip(1), c);
        assert forall|k: int| 0 <= k < find(s, c) implies s[k] != c by {
            if k > 0 {
                assert(s.skip(1)[k - 1] == s[k]);
            }
        }
    }
}

/// A position with no `c` before it, and `c` at it unless it is the end, is
/// the one that `find` returns.
pub proof fn lemma_find_is(s: Seq<char>, c: char, i: int)
    requires
        0 <= i <= s.len(),
        i < s.len() ==> s[i] == c,
        forall|k: int| 0 <= k < i ==> s[k] != c,
    ensures
        find(s, c) == i,
{
    lemma_find(s, c);
    let f = find(s, c);
    if f < i {
        assert(s[f] == c);
    } else if i < f {
        assert(s[i] == c);
    }
}

/// The first position at or after `from` that holds `c`, or the length of `s`.
pub fn find_from(s: &[char], from: usize, c: char) -> (at: usize)
    requires
        from <= s.len(),
    ensures
        at == from + find(s@.skip(from as int), c),
        from <= at <= s.len(),
{
    let mut i: usize = from;
    while i < s.len() && s[i] != c
        invariant
            from <= i <= s.len(),
            forall|k: int| from <= k < i ==> s@[k] != c,
        decreases s.len() - i,
    {
        i += 1;
    }
    proof {
        lemma_find_is(s@.skip(from as int), c, i - from);
    }
    i
}

/// `s` without the characters equal to `c`.
pub open spec fn without(s: Seq<char>, c: char) -> Seq<char>
    decreases s.len(),
{
    if s.len() == 0 {
        s
    } else if s.last() == c {
        without(s.drop_last(), c)
    } else {
        without(s.drop_last(), c).push(s.last())
    }
}

/// A copy of `s` that leaves out every `c`.
pub fn remove_char(s: &[char], c: char) -> (v: Vec<char>)
    ensures
        v@ == without(s@, c),
{
    let mut v: Vec<char> = Vec::new();
    let mut i: usize = 0;
    while i < s.len()
        invariant
            i <= s.len(),
            v@ == without(s@.take(i as int), c),
        decreases s.len() - i,
    {
        proof {
            assert(s@.take(i as int + 1).drop_last() =~= s@.take(i as int));
        }
        if s[i] != c {
            v.push(s[i]);
        }
        i += 1;
    }
    assert(s@.take(s.len() as int) =~= s@);
    v
}

/// The text before the first line feed of `s` (all of `s` where it has none).
pub open spec fn first_line(s: Seq<char>) -> Seq<char> {
    s.take(find(s, '\n'))
}

/// A copy of the text before the first line feed of `s`.
pub fn first_line_of(s: &[char]) -> (v: Vec<char>)
    ensures
        v@ == first_line(s@),
{
    let at = find_from(s, 0, '\n');
    assert(s@.skip(0) =~= s@);
    slice_of(s, 0, at)
}

/// `s` without one trailing carriage return.
pub open spec fn strip_cr(s: Seq<char>) -> Seq<char> {
    if s.len() > 0 && s.last() == '\r' {
        s.drop_last()
    } else {
        s
    }
}

/// The lines of `text`. A line ends at a line feed; the line feed, and a
/// carriage return directly before it, belong to no line. Text after the last
/// line feed is a line of its own unless it is empty.
pub open spec fn lines_of(text: Seq<char>) -> Seq<Seq<char>>
    decreases text.len(),
{
    if text.len() == 0 {
        Seq::empty()
    } else {
        let n = find(text, '\n');
        if 0 <= n < text.len() {
            seq![strip_cr(text.take(n))] + lines_of(text.skip(n + 1))
        } else {
            seq![text]
        }
    }
}

/// The texts that the vectors of `v` hold.
pub open spec fn texts(v: Seq<Vec<char>>) -> Seq<Seq<char>> {
    Seq::new(v.len(), |i: int| v[i]@)
}

/// Splits `text` into its lines.
pub fn split_lines(text: &[char]) -> (lines: Vec<Vec<char>>)
    ensures
        texts(lines@) == lines_of(text@),
{
    let mut lines: Vec<Vec<char>> = Vec::new();
    let mut pos: usize = 0;
    assert(text@.skip(0) =~= text@);
    assert(texts(lines@) =~= Seq::<Seq<char>>::empty());
    while pos < text.len()
        invariant
            pos <= text.len(),
            texts(lines@) + lines_of(text@.skip(pos as int)) == lines_of(text@),
        decreases text.len() - pos,
    {
        let ghost rest = text@.skip(pos as int);
        let ghost before = texts(lines@);
        let at = find_from(text, pos, '\n');
        proof {
            lemma_find(rest, '\n');
        }
        if at < text.len() {
            let mut end: usize = at;
            if end > pos && text[end - 1] == '\r' {
                end -= 1;
            }
            let line = slice_of(text, pos, end);
            proof {
                let n = at - pos;
                assert(rest.take(n) =~= text@.subrange(pos as int, at as int));
                assert(line@ =~= strip_cr(rest.take(n)));
                assert(rest.skip(n + 1) =~= text@.skip(at as int + 1));
            }
            lines.push(line);
            proof {
                assert(texts(lines@) =~= before + seq![line@]);
                assert(before + (seq![line@] + lines_of(text@.skip(at as int + 1))) =~= (before
                    + seq![line@]) + lines_of(text@.skip(at as int + 1)));
            }
            pos = at + 1;
        } else {
            let line = slice_of(text, pos, text.len());
            proof {
                assert(line@ =~= rest);
                assert(text@.skip(text.len() as int).len() == 0);
            }
            lines.push(line);
            proof {
                assert(texts(lines@) =~= before + seq![line@]);
                assert(lines_of(text@.skip(text.len() as int)) =~= Seq::<Seq<char>>::empty());
            }
            pos = text.len();
        }
    }
    proof {
        assert(text@.skip(pos as int).len() == 0);
        assert(texts(lines@) + Seq::<Seq<char>>::empty() =~= texts(lines@));
    }
    lines
}

} // verus!
