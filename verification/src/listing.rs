//! The list of the assets of a package: each with its identifier and its
//! path, ordered by path.

use vstd::prelude::*;
use vstd::seq_lib::{to_multiset_build, to_multiset_remove};
use vstd::utf8::{decode_utf8, valid_utf8};
use crate::entry::{decode, PackageEntry};
use crate::error::PackageError;
use crate::text::{ends_with_str, first_line, first_line_of, same_str, to_chars, to_text};

verus! {

/// Whether `a` comes before `b` or is `b`, in the order of a dictionary by
/// the code points of the characters.
pub open spec fn text_le(a: Seq<char>, b: Seq<char>) -> bool
    decreases a.len(),
{
    if a.len() == 0 {
        true
    } else if b.len() == 0 {
        false
    } else if a[0] == b[0] {
        text_le(a.skip(1), b.skip(1))
    } else {
        a[0] < b[0]
    }
}

/// Of two texts, one comes before the other or is the other.
pub proof fn lemma_text_le_total(a: Seq<char>, b: Seq<char>)
    ensures
        text_le(a, b) || text_le(b, a),
    decreases a.len(),
{
    if a.len() > 0 && b.len() > 0 && a[0] == b[0] {
        lemma_text_le_total(a.skip(1), b.skip(1));
    }
}

/// What comes before a text that comes before a third comes before the third.
pub proof fn lemma_text_le_transitive(a: Seq<char>, b: Seq<char>, c: Seq<char>)
    requires
        text_le(a, b),
        text_le(b, c),
    ensures
        text_le(a, c),
    decreases a.len(),
{
    if a.len() > 0 {
        if a[0] == b[0] && b[0] == c[0] {
            lemma_text_le_transitive(a.skip(1), b.skip(1), c.skip(1));
        }
    }
}

/// Whether `a` comes before `b` or is `b`.
pub fn comes_first(a: &[char], b: &[char]) -> (yes: bool)
    ensures
        yes == text_le(a@, b@),
{
    let mut i: usize = 0;
    assert(a@.skip(0) =~= a@);
    assert(b@.skip(0) =~= b@);
    loop
        invariant
            i <= a.len(),
            i <= b.len(),
            text_le(a@, b@) == text_le(a@.skip(i as int), b@.skip(i as int)),
        decreases a.len() - i,
    {
        if i == a.len() {
            return true;
        }
        if i == b.len() {
            return false;
        }
        assert(a@.skip(i as int)[0] == a@[i as int]);
        assert(b@.skip(i as int)[0] == b@[i as int]);
        if a[i] != b[i] {
            return a[i] < b[i];
        }
        assert(a@.skip(i as int).skip(1) =~= a@.skip(i as int + 1));
        assert(b@.skip(i as int).skip(1) =~= b@.skip(i as int + 1));
        i += 1;
    }
}

/// An asset in the list.
pub struct ListItem {
    /// The identifier of the asset.
    pub guid: String,
    /// The path of the asset in its project.
    pub pathname: String,
}

/// An asset in the list, as mathematical values.
pub struct ListItemModel {
    /// The identifier of the asset.
    pub guid: Seq<char>,
    /// The path of the asset in its project.
    pub pathname: Seq<char>,
}

impl View for ListItem {
    type V = ListItemModel;

    open spec fn view(&self) -> ListItemModel {
        ListItemModel { guid: self.guid@, pathname: self.pathname@ }
    }
}

/// The items that the vector holds, as mathematical values.
pub open spec fn models(items: Seq<ListItem>) -> Seq<ListItemModel> {
    Seq::new(items.len(), |i: int| items[i]@)
}

/// What the file `entry` adds to the list: an item with the identifier of
/// its asset and the first line of its text, where it is the `pathname` file
/// of an asset, and nothing where it is not. Such a file fails with `Io`
/// where it is not valid UTF-8.
pub open spec fn listed(entry: PackageEntry) -> Result<Option<ListItemModel>, PackageError> {
    if !entry.in_bucket() || !"/pathname"@.is_suffix_of(entry.relative_path()) {
        Ok(None)
    } else if valid_utf8(entry.file().content@) {
        Ok(
            Some(
                ListItemModel {
                    guid: entry.bucket(),
                    pathname: first_line(decode_utf8(entry.file().content@)),
                },
            ),
        )
    } else {
        Err(PackageError::Io)
    }
}

/// What the file `entry` adds to the list.
pub fn list_item(entry: &PackageEntry) -> (r: Result<Option<ListItem>, PackageError>)
    ensures
        match listed(*entry) {
            Ok(Some(m)) => r matches Ok(Some(item)) && item@ == m,
            Ok(None) => r matches Ok(None),
            Err(e) => r matches Err(f) && f == e,
        },
{
    if !entry.is_asset_file() {
        return Ok(None);
    }
    let path = entry.path_text();
    let chars = to_chars(path.as_str());
    if !ends_with_str(chars.as_slice(), "/pathname") {
        return Ok(None);
    }
    let content = entry.content();
    match decode(content.as_slice()) {
        Some(text) => {
            let all = to_chars(text);
            let line = first_line_of(all.as_slice());
            Ok(Some(ListItem { guid: entry.guid(), pathname: to_text(line.as_slice()) }))
        },
        None => Err(PackageError::Io),
    }
}

/// `std::path::Path::parent`: the path without its last component, where it
/// has one. What counts as a component differs between platforms, so the
/// parent itself is not stated; on every platform it is a leading part of
/// the path, and the empty path has none.
#[verifier::external_body]
pub(crate) fn parent_of(path: &str) -> (parent: Option<String>)
    ensures
        path@.len() == 0 ==> parent is None,
        parent matches Some(p) ==> p@.is_prefix_of(path@),
{
    std::path::Path::new(path).parent().and_then(|p| p.to_str()).map(|p| p.to_owned())
}

/// Whether an asset whose path has the parent `parent` passes the filter
/// `dir`: no filter lets every asset pass, and a filter lets those pass whose
/// parent it is.
pub open spec fn passes(parent: Option<Seq<char>>, dir: Option<Seq<char>>) -> bool {
    match dir {
        Some(d) => parent == Some(d),
        None => true,
    }
}

/// Whether an asset whose path has the parent `parent` passes the filter `dir`.
pub fn passes_filter(parent: Option<&str>, dir: Option<&str>) -> (yes: bool)
    ensures
        yes == passes(
            match parent {
                Some(p) => Some(p@),
                None => None,
            },
            match dir {
                Some(d) => Some(d@),
                None => None,
            },
        ),
{
    match dir {
        Some(d) => match parent {
            Some(p) => same_str(p, d),
            None => false,
        },
        None => true,
    }
}

/// Whether an asset at `pathname` can pass the filter `dir` on any platform:
/// without a filter it can, and with one only where its path is not empty
/// and begins with the filter.
pub open spec fn can_pass(pathname: Seq<char>, dir: Option<Seq<char>>) -> bool {
    match dir {
        Some(d) => pathname.len() > 0 && d.is_prefix_of(pathname),
        None => true,
    }
}

/// Whether `item` passes the filter `dir`. Without a filter every item
/// passes. With one, an item passes where the parent that the platform tells
/// of its path is the filter; so it passes only where its path is not empty
/// and begins with the filter.
pub fn keeps(item: &ListItem, dir: Option<&str>) -> (yes: bool)
    ensures
        dir is None ==> yes,
        yes ==> can_pass(
            item.pathname@,
            match dir {
                Some(d) => Some(d@),
                None => None,
            },
        ),
{
    match dir {
        Some(d) => {
            let parent = parent_of(item.pathname.as_str());
            match parent {
                Some(p) => passes_filter(Some(p.as_str()), dir),
                None => passes_filter(None, dir),
            }
        },
        None => true,
    }
}

/// The place at which `x` goes into the ordered `s`: behind the last item
/// whose path comes before the path of `x` or is it.
pub open spec fn place_of(s: Seq<ListItemModel>, x: ListItemModel) -> int
    decreases s.len(),
{
    if s.len() == 0 {
        0
    } else if text_le(s.last().pathname, x.pathname) {
        s.len() as int
    } else {
        place_of(s.drop_last(), x)
    }
}

/// `place_of` returns a place in `s` or its end; every item from it on has a
/// path that comes after the path of `x`, and the item before it has not.
pub proof fn lemma_place(s: Seq<ListItemModel>, x: ListItemModel)
    ensures
        0 <= place_of(s, x) <= s.len(),
        place_of(s, x) > 0 ==> text_le(s[place_of(s, x) - 1].pathname, x.pathname),
        forall|k: int| place_of(s, x) <= k < s.len() ==> !text_le(s[k].pathname, x.pathname),
    decreases s.len(),
{
    if s.len() > 0 && !text_le(s.last().pathname, x.pathname) {
        let t = s.drop_last();
        lemma_place(t, x);
        assert forall|k: int| place_of(s, x) <= k < s.len() implies !text_le(
            s[k].pathname,
            x.pathname,
        ) by {
            if k < t.len() {
                assert(t[k] == s[k]);
            }
        }
    }
}

/// A place from which on every item has a path that comes after the path of
/// `x`, while the item before it has not, is the one that `place_of` returns.
pub proof fn lemma_place_is(s: Seq<ListItemModel>, x: ListItemModel, p: int)
    requires
        0 <= p <= s.len(),
        p > 0 ==> text_le(s[p - 1].pathname, x.pathname),
        forall|k: int| p <= k < s.len() ==> !text_le(s[k].pathname, x.pathname),
    ensures
        place_of(s, x) == p,
    decreases s.len(),
{
    if s.len() == 0 {
    } else if text_le(s.last().pathname, x.pathname) {
        if p < s.len() {
            assert(!text_le(s[s.len() - 1].pathname, x.pathname));
        }
    } else {
        let t = s.drop_last();
        assert(p < s.len());
        lemma_place_is(t, x, p);
    }
}

/// The items `items` ordered by path; items with the same path keep the
/// order in which they stand in `items`.
pub open spec fn ordered(items: Seq<ListItemModel>) -> Seq<ListItemModel>
    decreases items.len(),
{
    if items.len() == 0 {
        Seq::empty()
    } else {
        let before = ordered(items.drop_last());
        before.insert(place_of(before, items.last()), items.last())
    }
}

/// Whether the path of each item comes before the paths of the items behind
/// it, or is the same.
pub open spec fn in_order(s: Seq<ListItemModel>) -> bool {
    forall|i: int, j: int| 0 <= i < j < s.len() ==> text_le(s[i].pathname, s[j].pathname)
}

/// An item put at its place into ordered items leaves them ordered.
pub proof fn lemma_insert_keeps_order(s: Seq<ListItemModel>, x: ListItemModel)
    requires
        in_order(s),
    ensures
        in_order(s.insert(place_of(s, x), x)),
{
    let p = place_of(s, x);
    let t = s.insert(p, x);
    lemma_place(s, x);
    assert forall|i: int, j: int| 0 <= i < j < t.len() implies text_le(
        t[i].pathname,
        t[j].pathname,
    ) by {
        if j < p {
            assert(t[i] == s[i] && t[j] == s[j]);
        } else if j == p {
            assert(t[i] == s[i]);
            assert(t[j] == x);
            if i < p - 1 {
                lemma_text_le_transitive(s[i].pathname, s[p - 1].pathname, x.pathname);
            }
        } else if i == p {
            assert(t[i] == x);
            assert(t[j] == s[j - 1]);
            lemma_text_le_total(s[j - 1].pathname, x.pathname);
        } else if i < p {
            assert(t[i] == s[i]);
            assert(t[j] == s[j - 1]);
        } else {
            assert(t[i] == s[i - 1]);
            assert(t[j] == s[j - 1]);
        }
    }
}

/// The ordered items are in order, and are the items that were given: each
/// as often as it was given.
pub proof fn lemma_ordered(items: Seq<ListItemModel>)
    ensures
        in_order(ordered(items)),
        ordered(items).len() == items.len(),
        ordered(items).to_multiset() == items.to_multiset(),
    decreases items.len(),
{
    if items.len() == 0 {
        assert(items =~= Seq::<ListItemModel>::empty());
    } else {
        let rest = items.drop_last();
        let x = items.last();
        let before = ordered(rest);
        lemma_ordered(rest);
        lemma_place(before, x);
        lemma_insert_keeps_order(before, x);
        let p = place_of(before, x);
        let after = before.insert(p, x);
        assert(after.remove(p) =~= before);
        assert(after[p] == x);
        to_multiset_remove(after, p);
        after.to_multiset_ensures();
        assert(after.contains(x));
        assert(after.to_multiset() =~= before.to_multiset().insert(x));
        to_multiset_build(rest, x);
        assert(rest.push(x) =~= items);
        assert(items.to_multiset() =~= rest.to_multiset().insert(x));
        assert(ordered(items) == after);
    }
}

/// In ordered items, the items whose path comes before the path of `x` or is
/// it stand before all the others.
pub proof fn lemma_order_splits(s: Seq<ListItemModel>, x: ListItemModel, i: int, j: int)
    requires
        in_order(s),
        0 <= i <= j < s.len(),
        text_le(s[j].pathname, x.pathname),
    ensures
        text_le(s[i].pathname, x.pathname),
{
    if i < j {
        lemma_text_le_transitive(s[i].pathname, s[j].pathname, x.pathname);
    }
}

/// The place at which `x` goes into the ordered items `sorted`.
fn find_place(sorted: &Vec<ListItem>, x: &ListItem) -> (p: usize)
    requires
        in_order(models(sorted@)),
    ensures
        p == place_of(models(sorted@), x@),
        p <= sorted.len(),
{
    let ghost s = models(sorted@);
    let key = to_chars(x.pathname.as_str());
    let mut lo: usize = 0;
    let mut hi: usize = sorted.len();
    while lo < hi
        invariant
            lo <= hi <= sorted.len(),
            s == models(sorted@),
            in_order(s),
            key@ == x@.pathname,
            forall|k: int| 0 <= k < lo ==> text_le(s[k].pathname, x@.pathname),
            forall|k: int| hi <= k < s.len() ==> !text_le(s[k].pathname, x@.pathname),
        decreases hi - lo,
    {
        let mid = lo + (hi - lo) / 2;
        let other = to_chars(sorted[mid].pathname.as_str());
        assert(other@ == s[mid as int].pathname);
        if comes_first(other.as_slice(), key.as_slice()) {
            proof {
                assert forall|k: int| 0 <= k < mid + 1 implies text_le(
                    s[k].pathname,
                    x@.pathname,
                ) by {
                    lemma_order_splits(s, x@, k, mid as int);
                }
            }
            lo = mid + 1;
        } else {
            proof {
                assert forall|k: int| mid <= k < s.len() implies !text_le(
                    s[k].pathname,
                    x@.pathname,
                ) by {
                    if text_le(s[k].pathname, x@.pathname) {
                        lemma_order_splits(s, x@, mid as int, k);
                    }
                }
            }
            hi = mid;
        }
    }
    proof {
        lemma_place_is(s, x@, lo as int);
    }
    lo
}

/// Orders `items` by path; items with the same path keep their order.
pub fn sort_by_pathname(items: Vec<ListItem>) -> (out: Vec<ListItem>)
    ensures
        models(out@) == ordered(models(items@)),
        in_order(models(out@)),
        models(out@).to_multiset() == models(items@).to_multiset(),
{
    let ghost all = models(items@);
    let mut out: Vec<ListItem> = Vec::new();
    assert(all.take(0) =~= Seq::<ListItemModel>::empty());
    assert(models(out@) =~= Seq::<ListItemModel>::empty());
    for x in it: items
        invariant
            models(it.seq()) == all,
            models(out@) == ordered(all.take(it.index() as int)),
    {
        let ghost i = it.index() as int;
        let ghost sorted = models(out@);
        proof {
            lemma_ordered(all.take(i));
            assert(x@ == all[i]);
            assert(all.take(i + 1).drop_last() =~= all.take(i));
            assert(all.take(i + 1).last() == x@);
        }
        let p = find_place(&out, &x);
        out.insert(p, x);
        assert(models(out@) =~= sorted.insert(p as int, x@));
    }
    proof {
        assert(all.take(all.len() as int) =~= all);
        lemma_ordered(all);
    }
    out
}

/// The paths of `items`, in their order.
pub fn pathnames(items: &Vec<ListItem>) -> (names: Vec<String>)
    ensures
        names.len() == items.len(),
        forall|i: int| 0 <= i < names.len() ==> names[i]@ == items[i]@.pathname,
{
    let mut names: Vec<String> = Vec::new();
    let mut i: usize = 0;
    while i < items.len()
        invariant
            i <= items.len(),
            names.len() == i,
            forall|k: int| 0 <= k < i ==> names[k]@ == items[k]@.pathname,
        decreases items.len() - i,
    {
        names.push(items[i].pathname.clone());
        i += 1;
    }
    names
}

} // verus!
