//! Path strings: joining components, zip entry names, and the scope of a seven-zip archive.

use vstd::prelude::*;
use vstd::string::*;

verus! {

/// `name` appended to `base` as one more path component.
pub open spec fn join_path(base: Seq<char>, name: Seq<char>) -> Seq<char> {
    if base.len() == 0 || base.last() == '/' {
        base + name
    } else {
        base + seq!['/'] + name
    }
}

/// `base` with `name` appended as one more path component.
pub fn join(base: &str, name: &str) -> (r: String)
    ensures
        r@ == join_path(base@, name@),
{
    let n: usize = base.unicode_len();
    let mut r = String::from_str(base);
    if n > 0 && base.get_char(n - 1) != '/' {
        r.append("/");
        proof {
            reveal_strlit("/");
            assert("/"@ =~= seq!['/']);
        }
    }
    r.append(name);
    r
}

/// The three strings one after another.
pub fn concat3(a: &str, b: &str, c: &str) -> (r: String)
    ensures
        r@ == a@ + b@ + c@,
{
    let mut r = String::from_str(a);
    r.append(b);
    r.append(c);
    r
}

/// Component-wise view of a path.
pub open spec fn components_view(v: Seq<String>) -> Seq<Seq<char>> {
    v.map_values(|c: String| c@)
}

/// `relative` under `root`, one component at a time.
pub open spec fn path_under(root: Seq<char>, relative: Seq<Seq<char>>) -> Seq<char>
    decreases relative.len(),
{
    if relative.len() == 0 {
        root
    } else {
        path_under(root, relative.drop_last()) + seq!['/'] + relative.last()
    }
}

/// The name of an entry of a zip archive that holds one directory: the
/// directory's own name, then the path relative to it; a directory's name ends
/// with a slash.
pub open spec fn zip_entry_name_spec(root: Seq<char>, relative: Seq<Seq<char>>, is_dir: bool) -> Seq<
    char,
> {
    if is_dir {
        path_under(root, relative) + seq!['/']
    } else {
        path_under(root, relative)
    }
}

/// Every entry of a directory's zip archive lies under one top-level folder
/// named after the directory: its name starts with the directory's name and a
/// slash.
pub proof fn lemma_zip_entries_rooted(root: Seq<char>, relative: Seq<Seq<char>>, is_dir: bool)
    requires
        relative.len() > 0 || is_dir,
    ensures
        (root + seq!['/']).is_prefix_of(zip_entry_name_spec(root, relative, is_dir)),
    decreases relative.len(),
{
    let p = root + seq!['/'];
    if relative.len() == 0 {
        assert(zip_entry_name_spec(root, relative, is_dir) =~= p);
    } else {
        let r = path_under(root, relative);
        if relative.len() == 1 {
            assert(relative.drop_last().len() == 0);
            assert(path_under(root, relative.drop_last()) == root);
            assert(r =~= p + relative.last());
            assert(r.subrange(0, p.len() as int) =~= p);
        } else {
            lemma_zip_entries_rooted(root, relative.drop_last(), false);
            let q = path_under(root, relative.drop_last());
            assert(r =~= q + (seq!['/'] + relative.last()));
            lemma_prefix_extends(p, q, seq!['/'] + relative.last());
        }
        lemma_prefix_extends(p, r, seq!['/']);
    }
}

proof fn lemma_prefix_extends(p: Seq<char>, s: Seq<char>, t: Seq<char>)
    requires
        p.is_prefix_of(s),
    ensures
        p.is_prefix_of(s + t),
{
    assert((s + t).subrange(0, p.len() as int) =~= s.subrange(0, p.len() as int));
}

/// The name under which an entry of a walked directory goes into its zip archive.
pub fn zip_entry_name(root: &str, relative: &Vec<String>, is_dir: bool) -> (r: String)
    ensures
        r@ == zip_entry_name_spec(root@, components_view(relative@), is_dir),
{
    proof {
        reveal_strlit("/");
    }
    let mut r = String::from_str(root);
    let mut i: usize = 0;
    while i < relative.len()
        invariant
            i <= relative@.len(),
            r@ == path_under(root@, components_view(relative@).take(i as int)),
        decreases relative.len() - i,
    {
        let ghost before = r@;
        r.append("/");
        r.append(relative[i].as_str());
        proof {
            reveal_strlit("/");
        }
        assert("/"@ =~= seq!['/']);
        assert(components_view(relative@).take(i as int + 1).last() == relative@[i as int]@);
        assert(r@ =~= before + seq!['/'] + relative@[i as int]@);
        assert(components_view(relative@).take(i as int + 1).drop_last() =~= components_view(
            relative@,
        ).take(i as int));
        i = i + 1;
    }
    assert(components_view(relative@).take(relative@.len() as int) =~= components_view(
        relative@,
    ));
    if is_dir {
        r.append("/");
        assert("/"@ =~= seq!['/']);
    }
    r
}

fn components_eq(a: &Vec<String>, b: &Vec<String>) -> (r: bool)
    ensures
        r == (components_view(a@) == components_view(b@)),
{
    if a.len() != b.len() {
        assert(components_view(a@).len() != components_view(b@).len());
        return false;
    }
    let mut i: usize = 0;
    while i < a.len()
        invariant
            a@.len() == b@.len(),
            i <= a@.len(),
            forall|k: int| 0 <= k < i ==> a@[k]@ == b@[k]@,
        decreases a.len() - i,
    {
        if !crate::text::str_eq(a[i].as_str(), b[i].as_str()) {
            assert(components_view(a@)[i as int] != components_view(b@)[i as int]);
            return false;
        }
        i = i + 1;
    }
    assert(components_view(a@) =~= components_view(b@));
    true
}

fn components_prefix(prefix: &Vec<String>, p: &Vec<String>) -> (r: bool)
    ensures
        r == components_view(prefix@).is_prefix_of(components_view(p@)),
{
    if prefix.len() > p.len() {
        return false;
    }
    let mut i: usize = 0;
    while i < prefix.len()
        invariant
            prefix@.len() <= p@.len(),
            i <= prefix@.len(),
            forall|k: int| 0 <= k < i ==> prefix@[k]@ == p@[k]@,
        decreases prefix.len() - i,
    {
        if !crate::text::str_eq(prefix[i].as_str(), p[i].as_str()) {
            assert(components_view(prefix@)[i as int] != components_view(p@)[i as int]);
            return false;
        }
        i = i + 1;
    }
    assert(components_view(prefix@) =~= components_view(p@).take(prefix@.len() as int));
    true
}

/// Whether a path met while walking the parent of `target` belongs in the
/// archive of `target`: the parent itself, `target`, or anything under it.
/// Paths are given as their components.
pub fn in_archive_scope(p: &Vec<String>, parent: &Vec<String>, target: &Vec<String>) -> (r: bool)
    ensures
        r == (components_view(p@) == components_view(parent@) || components_view(p@)
            == components_view(target@) || components_view(target@).is_prefix_of(
            components_view(p@),
        )),
{
    components_eq(p, parent) || components_eq(p, target) || components_prefix(target, p)
}

} // verus!
