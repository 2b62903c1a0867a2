//! What the tool does with the files of a package, once they were read:
//! collecting the assets, listing them, and finding one file among them.

use vstd::prelude::*;
use vstd::seq_lib::to_multiset_build;
use crate::entry::PackageEntry;
use crate::error::PackageError;
use crate::extract::{
    extract, extract_path, extract_target, extracted, is_target, name_in, pathname_path,
    pathname_target, read_name, ExtractOptions, Extracted, ExtractedModel,
};
use crate::listing::{
    in_order, keeps, lemma_ordered, list_item, listed, models, ordered, sort_by_pathname,
    ListItem, ListItemModel,
};
use crate::records::{absorbed, RecordModel, Records};
use crate::text::text_of;

verus! {

/// The records of the assets after the files `entries`, taken in one after
/// the other; the failure of the first file that fails, where one does.
pub open spec fn dumped(entries: Seq<PackageEntry>) -> Result<Seq<RecordModel>, PackageError>
    decreases entries.len(),
{
    if entries.len() == 0 {
        Ok(Seq::empty())
    } else {
        match dumped(entries.drop_last()) {
            Ok(rs) => absorbed(rs, entries.last()),
            Err(e) => Err(e),
        }
    }
}

/// Files that fail after their first `n` fail as a whole, in the same way.
pub proof fn lemma_dump_fails(entries: Seq<PackageEntry>, n: int)
    requires
        0 <= n <= entries.len(),
        dumped(entries.take(n)) is Err,
    ensures
        dumped(entries) == dumped(entries.take(n)),
    decreases entries.len() - n,
{
    if n == entries.len() {
        assert(entries.take(n) =~= entries);
    } else {
        assert(entries.take(n + 1).drop_last() =~= entries.take(n));
        lemma_dump_fails(entries, n + 1);
    }
}

/// Files with the same paths below the root and the same content give the
/// same records, whatever the kinds of their packages.
pub proof fn lemma_dump_is_the_same_in_every_kind(a: Seq<PackageEntry>, b: Seq<PackageEntry>)
    requires
        a.len() == b.len(),
        forall|i: int|
            0 <= i < a.len() ==> (#[trigger] a[i]).relative_path() == b[i].relative_path()
                && a[i].file().content@ == b[i].file().content@,
    ensures
        dumped(a) == dumped(b),
    decreases a.len(),
{
    if a.len() > 0 {
        let x = a.drop_last();
        let y = b.drop_last();
        assert forall|i: int| 0 <= i < x.len() implies (#[trigger] x[i]).relative_path()
            == y[i].relative_path() && x[i].file().content@ == y[i].file().content@ by {
            assert(x[i] == a[i] && y[i] == b[i]);
        }
        lemma_dump_is_the_same_in_every_kind(x, y);
        assert(a.last() == a[a.len() - 1]);
        assert(a[a.len() - 1].relative_path() == b[a.len() - 1].relative_path());
    }
}

/// Collects the assets of a package from its files: each asset gets one
/// record, in the order in which the assets are first met, and each file is
/// taken in as `absorbed` says. Stops at the first file that fails.
pub fn package_contents_dump(entries: &Vec<PackageEntry>) -> (r: Result<Records, PackageError>)
    ensures
        match dumped(entries@) {
            Ok(rs) => r matches Ok(records) && records@ == rs && records.wf(),
            Err(e) => r matches Err(f) && f == e,
        },
{
    let mut records = Records::new();
    let mut i: usize = 0;
    assert(entries@.take(0) =~= Seq::<PackageEntry>::empty());
    while i < entries.len()
        invariant
            i <= entries.len(),
            records.wf(),
            dumped(entries@.take(i as int)) == Ok::<Seq<RecordModel>, PackageError>(records@),
        decreases entries.len() - i,
    {
        proof {
            assert(entries@.take(i as int + 1).drop_last() =~= entries@.take(i as int));
            assert(entries@.take(i as int + 1).last() == entries@[i as int]);
        }
        match records.absorb(&entries[i]) {
            Ok(()) => {},
            Err(e) => {
                proof {
                    lemma_dump_fails(entries@, i as int + 1);
                }
                return Err(e);
            },
        }
        i += 1;
    }
    assert(entries@.take(entries.len() as int) =~= entries@);
    Ok(records)
}

/// The place of the first of `entries` that lies at `path`, or their number
/// where none does.
pub open spec fn first_at(entries: Seq<PackageEntry>, path: Seq<char>) -> int
    decreases entries.len(),
{
    if entries.len() == 0 || entries[0].relative_path() == path {
        0
    } else {
        1 + first_at(entries.skip(1), path)
    }
}

/// `first_at` returns a place among `entries` or their number; no entry
/// before it lies at `path`, and the one at it does.
pub proof fn lemma_first_at(entries: Seq<PackageEntry>, path: Seq<char>)
    ensures
        0 <= first_at(entries, path) <= entries.len(),
        first_at(entries, path) < entries.len() ==> entries[first_at(
            entries,
            path,
        )].relative_path() == path,
        forall|k: int| 0 <= k < first_at(entries, path) ==> entries[k].relative_path() != path,
    decreases entries.len(),
{
    if entries.len() == 0 || entries[0].relative_path() == path {
    } else {
        lemma_first_at(entries.skip(1), path);
        assert forall|k: int| 0 <= k < first_at(entries, path) implies entries[k].relative_path()
            != path by {
            if k > 0 {
                assert(entries.skip(1)[k - 1] == entries[k]);
            }
        }
    }
}

/// A place before which no entry lies at `path`, and which is the end or
/// holds one that does, is the one that `first_at` returns.
pub proof fn lemma_first_at_is(entries: Seq<PackageEntry>, path: Seq<char>, i: int)
    requires
        0 <= i <= entries.len(),
        i < entries.len() ==> entries[i].relative_path() == path,
        forall|k: int| 0 <= k < i ==> entries[k].relative_path() != path,
    ensures
        first_at(entries, path) == i,
{
    lemma_first_at(entries, path);
    let f = first_at(entries, path);
    if f < i {
        assert(entries[f].relative_path() == path);
    } else if i < f {
        assert(entries[i].relative_path() == path);
    }
}

/// Finds the first of `entries` that lies at `path`.
pub fn find_entry(entries: &Vec<PackageEntry>, path: &str) -> (at: usize)
    ensures
        at == first_at(entries@, path@),
        at <= entries.len(),
{
    let mut i: usize = 0;
    while i < entries.len()
        invariant
            i <= entries.len(),
            forall|k: int| 0 <= k < i ==> entries@[k].relative_path() != path@,
        decreases entries.len() - i,
    {
        if is_target(&entries[i], path) {
            proof {
                lemma_first_at_is(entries@, path@, i as int);
            }
            return i;
        }
        i += 1;
    }
    proof {
        lemma_first_at_is(entries@, path@, i as int);
    }
    i
}

/// The name of the asset `guid` among the files `entries`: the first line of
/// the first file at its `pathname` path, and nothing where there is no such
/// file. Fails with `Io` where that file is not valid UTF-8.
pub open spec fn named(entries: Seq<PackageEntry>, guid: Seq<char>) -> Result<
    Option<Seq<char>>,
    PackageError,
> {
    let at = first_at(entries, pathname_path(guid));
    if 0 <= at < entries.len() {
        match name_in(entries[at].file().content@) {
            Ok(name) => Ok(Some(name)),
            Err(e) => Err(e),
        }
    } else {
        Ok(None)
    }
}

/// Looks up the name of the asset `guid` among the files `entries`.
pub fn package_contents_name(entries: &Vec<PackageEntry>, guid: &str) -> (r: Result<
    Option<String>,
    PackageError,
>)
    ensures
        match named(entries@, guid@) {
            Ok(name) => r matches Ok(found) && text_of(found) == name,
            Err(e) => r matches Err(f) && f == e,
        },
{
    let target = pathname_target(guid);
    let at = find_entry(entries, target.as_str());
    if at < entries.len() {
        let content = entries[at].content();
        match read_name(content.as_slice()) {
            Ok(name) => Ok(Some(name)),
            Err(e) => Err(e),
        }
    } else {
        Ok(None)
    }
}

/// What is extracted for the asset `guid` from the files `entries`: what
/// `options` asks for of the first file at the path that is extracted, and
/// nothing where there is no such file.
pub open spec fn extracted_from(
    entries: Seq<PackageEntry>,
    guid: Seq<char>,
    options: ExtractOptions,
) -> Result<Option<ExtractedModel>, PackageError> {
    let at = first_at(entries, extract_path(guid, options.meta));
    if 0 <= at < entries.len() {
        match extracted(entries[at].file().content@, options) {
            Ok(x) => Ok(Some(x)),
            Err(e) => Err(e),
        }
    } else {
        Ok(None)
    }
}

/// Extracts for the asset `guid` from the files `entries` what `options`
/// asks for.
pub fn package_file_extract(
    entries: &Vec<PackageEntry>,
    guid: &str,
    options: &ExtractOptions,
) -> (r: Result<Option<Extracted>, PackageError>)
    ensures
        match extracted_from(entries@, guid@, *options) {
            Ok(Some(m)) => r matches Ok(Some(x)) && x@ == m,
            Ok(None) => r matches Ok(None),
            Err(e) => r matches Err(f) && f == e,
        },
{
    let target = extract_target(guid, options.meta);
    let at = find_entry(entries, target.as_str());
    if at < entries.len() {
        match extract(entries[at].content(), options) {
            Ok(x) => Ok(Some(x)),
            Err(e) => Err(e),
        }
    } else {
        Ok(None)
    }
}

/// The items that the files `entries` add to the list, in the order of the
/// files; the failure of the first file that fails, where one does.
pub open spec fn all_listed(entries: Seq<PackageEntry>) -> Result<Seq<ListItemModel>, PackageError>
    decreases entries.len(),
{
    if entries.len() == 0 {
        Ok(Seq::empty())
    } else {
        match all_listed(entries.drop_last()) {
            Ok(items) => match listed(entries.last()) {
                Ok(Some(item)) => Ok(items.push(item)),
                Ok(None) => Ok(items),
                Err(e) => Err(e),
            },
            Err(e) => Err(e),
        }
    }
}

/// Files that fail after their first `n` fail as a whole, in the same way.
pub proof fn lemma_list_fails(entries: Seq<PackageEntry>, n: int)
    requires
        0 <= n <= entries.len(),
        all_listed(entries.take(n)) is Err,
    ensures
        all_listed(entries) == all_listed(entries.take(n)),
    decreases entries.len() - n,
{
    if n == entries.len() {
        assert(entries.take(n) =~= entries);
    } else {
        assert(entries.take(n + 1).drop_last() =~= entries.take(n));
        lemma_list_fails(entries, n + 1);
    }
}

/// Lists the assets of a package from its files, ordered by path. Without a
/// filter the list holds every asset that has a `pathname` file. With the
/// filter `dir` it holds those of them whose path has, as the platform tells
/// it, the parent `dir`. Stops at the first file that fails.
pub fn package_contents_list(entries: &Vec<PackageEntry>, dir: Option<&str>) -> (r: Result<
    Vec<ListItem>,
    PackageError,
>)
    ensures
        match all_listed(entries@) {
            Ok(items) => r matches Ok(out) && in_order(models(out@)) && models(
                out@,
            ).to_multiset().subset_of(items.to_multiset()) && (dir is None ==> models(out@)
                == ordered(items)),
            Err(e) => r matches Err(f) && f == e,
        },
{
    let mut kept: Vec<ListItem> = Vec::new();
    let mut i: usize = 0;
    assert(entries@.take(0) =~= Seq::<PackageEntry>::empty());
    assert(models(kept@) =~= Seq::<ListItemModel>::empty());
    while i < entries.len()
        invariant
            i <= entries.len(),
            all_listed(entries@.take(i as int)) is Ok,
            models(kept@).to_multiset().subset_of(
                all_listed(entries@.take(i as int))->Ok_0.to_multiset(),
            ),
            dir is None ==> models(kept@) == all_listed(entries@.take(i as int))->Ok_0,
        decreases entries.len() - i,
    {
        let ghost before = all_listed(entries@.take(i as int))->Ok_0;
        let ghost had = models(kept@);
        proof {
            assert(entries@.take(i as int + 1).drop_last() =~= entries@.take(i as int));
            assert(entries@.take(i as int + 1).last() == entries@[i as int]);
        }
        match list_item(&entries[i]) {
            Ok(Some(item)) => {
                proof {
                    to_multiset_build(before, item@);
                }
                if keeps(&item, dir) {
                    proof {
                        to_multiset_build(had, item@);
                    }
                    let ghost added = item@;
                    kept.push(item);
                    assert(models(kept@) =~= had.push(added));
                }
            },
            Ok(None) => {},
            Err(e) => {
                proof {
                    lemma_list_fails(entries@, i as int + 1);
                }
                return Err(e);
            },
        }
        i += 1;
    }
    assert(entries@.take(entries.len() as int) =~= entries@);
    let ghost all = models(kept@);
    proof {
        lemma_ordered(all);
    }
    Ok(sort_by_pathname(kept))
}

} // verus!
