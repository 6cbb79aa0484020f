//! Splitting a dataset's root listing into buckets.

use vstd::prelude::*;

use crate::order::{is_sorted, lemma_listing_order_unique, listing_view, sort_listing, Listed};
use crate::text::str_eq;

verus! {

/// Directories grouped by name, and the loose entries beside them.
#[derive(Debug, Clone, PartialEq, Eq)]
pub struct Files {
    pub dirs: Vec<(String, String)>,
    pub misc: Vec<String>,
}

/// One bucket of a dataset: a directory copied as a whole, or a named group of
/// loose paths.
#[derive(Debug, PartialEq, Eq)]
pub enum Entry {
    Dir((String, String)),
    Files((String, Vec<String>)),
}

/// What a bucket stands for: its name and its source path or paths.
pub enum EntryModel {
    Dir(Seq<char>, Seq<char>),
    Files(Seq<char>, Seq<Seq<char>>),
}

pub open spec fn paths_view(v: Seq<String>) -> Seq<Seq<char>> {
    v.map_values(|p: String| p@)
}

impl View for Entry {
    type V = EntryModel;

    open spec fn view(&self) -> EntryModel {
        match self {
            Entry::Dir((n, p)) => EntryModel::Dir(n@, p@),
            Entry::Files((n, ps)) => EntryModel::Files(n@, paths_view(ps@)),
        }
    }
}

impl Entry {
    /// The bucket's name.
    pub fn name(&self) -> (r: &String)
        ensures
            r@ == entry_name(self@),
    {
        match self {
            Entry::Dir((n, _)) => n,
            Entry::Files((n, _)) => n,
        }
    }
}

pub open spec fn entry_name(e: EntryModel) -> Seq<char> {
    match e {
        EntryModel::Dir(n, _) => n,
        EntryModel::Files(n, _) => n,
    }
}

pub open spec fn entries_view(s: Seq<Entry>) -> Seq<EntryModel> {
    s.map_values(|e: Entry| e@)
}

/// The four top-level directories that each become a bucket of their own.
pub open spec fn is_category(n: Seq<char>) -> bool {
    n == "codelists"@ || n == "metadata"@ || n == "schemas"@ || n == "specification"@
}

/// The directory whose children each become a bucket.
pub open spec fn is_extension_dir(n: Seq<char>) -> bool {
    n == "udx"@
}

pub open spec fn goes_to_misc(n: Seq<char>) -> bool {
    !is_category(n) && !is_extension_dir(n)
}

pub open spec fn child_dirs(ext: Seq<Listed>) -> Seq<EntryModel> {
    ext.map_values(|c: Listed| EntryModel::Dir(c.name@, c.path@))
}

/// The directory buckets of a sorted root listing, given the sorted listing of
/// its extension directory.
pub open spec fn dir_buckets(root: Seq<Listed>, ext: Seq<Listed>) -> Seq<EntryModel>
    decreases root.len(),
{
    if root.len() == 0 {
        Seq::empty()
    } else {
        let prev = dir_buckets(root.drop_last(), ext);
        let e = root.last();
        if is_category(e.name@) {
            prev.push(EntryModel::Dir(e.name@, e.path@))
        } else if is_extension_dir(e.name@) {
            prev + child_dirs(ext)
        } else {
            prev
        }
    }
}

/// The paths of the root entries that belong to no other bucket, in order.
pub open spec fn misc_paths(root: Seq<Listed>) -> Seq<Seq<char>>
    decreases root.len(),
{
    if root.len() == 0 {
        Seq::empty()
    } else {
        let prev = misc_paths(root.drop_last());
        if goes_to_misc(root.last().name@) {
            prev.push(root.last().path@)
        } else {
            prev
        }
    }
}

/// The buckets of a dataset: directory buckets in listing order, then the
/// misc bucket when anything is left over.
pub open spec fn classify(root: Seq<Listed>, ext: Seq<Listed>) -> Seq<EntryModel> {
    let m = misc_paths(root);
    if m.len() > 0 {
        dir_buckets(root, ext).push(EntryModel::Files("misc"@, m))
    } else {
        dir_buckets(root, ext)
    }
}

/// `s` holds the entries of `orig` in listing order.
pub open spec fn in_listing_order(s: Seq<Listed>, orig: Seq<Listed>) -> bool {
    is_sorted(s) && s.to_multiset() == orig.to_multiset()
}

fn is_category_exec(n: &str) -> (r: bool)
    ensures
        r == is_category(n@),
{
    str_eq(n, "codelists") || str_eq(n, "metadata") || str_eq(n, "schemas") || str_eq(
        n,
        "specification",
    )
}

fn is_extension_dir_exec(n: &str) -> (r: bool)
    ensures
        r == is_extension_dir(n@),
{
    str_eq(n, "udx")
}

/// The position of the extension directory in a root listing, if it has one.
pub fn find_extension_dir(root: &Vec<Listed>) -> (r: Option<usize>)
    ensures
        r matches Some(i) ==> i < root@.len() && is_extension_dir(root@[i as int].name@) && forall|
            k: int,
        | 0 <= k < i ==> !is_extension_dir(#[trigger] root@[k].name@),
        r is None ==> forall|i: int|
            0 <= i < root@.len() ==> !is_extension_dir(#[trigger] root@[i].name@),
{
    let mut i: usize = 0;
    while i < root.len()
        invariant
            i <= root@.len(),
            forall|k: int| 0 <= k < i ==> !is_extension_dir(#[trigger] root@[k].name@),
        decreases root.len() - i,
    {
        if is_extension_dir_exec(root[i].name.as_str()) {
            return Some(i);
        }
        i = i + 1;
    }
    None
}

fn classify_sorted(root: &Vec<Listed>, ext: &Vec<Listed>) -> (r: Vec<Entry>)
    ensures
        entries_view(r@) == classify(root@, ext@),
{
    let mut entries: Vec<Entry> = Vec::new();
    let mut misc: Vec<String> = Vec::new();
    let mut i: usize = 0;
    while i < root.len()
        invariant
            i <= root@.len(),
            entries_view(entries@) == dir_buckets(root@.take(i as int), ext@),
            paths_view(misc@) == misc_paths(root@.take(i as int)),
        decreases root.len() - i,
    {
        let ghost pre = root@.take(i as int);
        assert(root@.take(i as int + 1).drop_last() =~= pre);
        let e = &root[i];
        if is_category_exec(e.name.as_str()) {
            entries.push(Entry::Dir((e.name.clone(), e.path.clone())));
            assert(entries_view(entries@) =~= dir_buckets(root@.take(i as int + 1), ext@));
        } else if is_extension_dir_exec(e.name.as_str()) {
            let mut j: usize = 0;
            while j < ext.len()
                invariant
                    j <= ext@.len(),
                    entries_view(entries@) == dir_buckets(pre, ext@) + child_dirs(ext@).take(
                        j as int,
                    ),
                decreases ext.len() - j,
            {
                let c = &ext[j];
                let ghost before = entries@;
                let d = Entry::Dir((c.name.clone(), c.path.clone()));
                assert(d@ == child_dirs(ext@)[j as int]);
                entries.push(d);
                assert(entries_view(entries@) =~= entries_view(before).push(d@));
                assert(child_dirs(ext@).take(j as int + 1) =~= child_dirs(ext@).take(j as int).push(
                    d@,
                ));
                assert(entries_view(entries@) =~= dir_buckets(pre, ext@) + child_dirs(ext@).take(
                    j as int + 1,
                ));
                j = j + 1;
            }
            assert(child_dirs(ext@).take(ext@.len() as int) =~= child_dirs(ext@));
        } else {
            misc.push(e.path.clone());
            assert(paths_view(misc@) =~= misc_paths(root@.take(i as int + 1)));
        }
        i = i + 1;
    }
    assert(root@.take(root@.len() as int) =~= root@);
    if misc.len() > 0 {
        entries.push(Entry::Files(("misc".to_string(), misc)));
        assert(entries_view(entries@) =~= classify(root@, ext@));
    }
    entries
}

/// The buckets of a dataset, from the listing of its root directory and the
/// listing of its extension directory (empty when it has none). Both listings
/// are put in listing order first, so the result does not depend on the
/// order in which they were read.
pub fn list_files(root: Vec<Listed>, ext: Vec<Listed>) -> (r: Vec<Entry>)
    ensures
        exists|sr: Seq<Listed>, se: Seq<Listed>|
            #[trigger] in_listing_order(sr, root@) && #[trigger] in_listing_order(se, ext@)
                && entries_view(r@) == classify(sr, se),
{
    let sr = sort_listing(root);
    let se = sort_listing(ext);
    let r = classify_sorted(&sr, &se);
    assert(in_listing_order(sr@, root@) && in_listing_order(se@, ext@));
    r
}

} // verus!

verus! {

proof fn lemma_classify_reads_views(r1: Seq<Listed>, e1: Seq<Listed>, r2: Seq<Listed>, e2: Seq<Listed>)
    requires
        listing_view(r1) == listing_view(r2),
        listing_view(e1) == listing_view(e2),
    ensures
        dir_buckets(r1, e1) == dir_buckets(r2, e2),
        misc_paths(r1) == misc_paths(r2),
    decreases r1.len(),
{
    assert(r1.len() == listing_view(r1).len() && r2.len() == listing_view(r2).len());
    if r1.len() > 0 {
        assert forall|i: int| 0 <= i < r1.len() - 1 implies #[trigger] listing_view(
            r1.drop_last(),
        )[i] == listing_view(r2.drop_last())[i] by {
            assert(listing_view(r1)[i] == listing_view(r2)[i]);
        }
        assert(listing_view(r1.drop_last()) =~= listing_view(r2.drop_last()));
        lemma_classify_reads_views(r1.drop_last(), e1, r2.drop_last(), e2);
        let n = r1.len() - 1;
        assert(listing_view(r1)[n] == listing_view(r2)[n]);
        assert(e1.len() == listing_view(e1).len() && e2.len() == listing_view(e2).len());
        assert forall|i: int| 0 <= i < e1.len() implies child_dirs(e1)[i] == child_dirs(e2)[i] by {
            assert(listing_view(e1)[i] == listing_view(e2)[i]);
        }
        assert(child_dirs(e1) =~= child_dirs(e2));
    }
}

/// The buckets of a dataset are decided by what its listings hold: any two
/// arrangements of the same root and extension listings in listing order
/// classify alike, so every read of the same directories gives the same
/// buckets in the same order.
pub proof fn lemma_classification_deterministic(
    root: Seq<Listed>,
    ext: Seq<Listed>,
    r1: Seq<Listed>,
    e1: Seq<Listed>,
    r2: Seq<Listed>,
    e2: Seq<Listed>,
)
    requires
        in_listing_order(r1, root),
        in_listing_order(r2, root),
        in_listing_order(e1, ext),
        in_listing_order(e2, ext),
    ensures
        classify(r1, e1) == classify(r2, e2),
{
    lemma_listing_order_unique(r1, r2);
    lemma_listing_order_unique(e1, e2);
    lemma_classify_reads_views(r1, e1, r2, e2);
}

} // verus!
