//! Where each bucket of a dataset is copied and archived, and which inputs a run accepts.

use vstd::prelude::*;
use vstd::string::*;

use crate::list::{entry_name, paths_view, Entry, EntryModel};
use crate::naming::{check_dir_name, is_dataset_name};
use crate::order::{sort_listing, Listed};
use crate::paths::{concat3, join, join_path};
use crate::text::str_eq;

verus! {

/// How each bucket is archived once copied.
#[derive(Clone, Copy, PartialEq, Eq, Structural, Debug)]
pub enum Format {
    /// Left to the tool; currently the same as `Zip`.
    Auto,
    /// Copy only.
    CopyOnly,
    Zip,
    SevenZip,
}

/// The format that `Auto` stands for.
pub open spec fn resolve(f: Format) -> Format {
    if f == Format::Auto {
        Format::Zip
    } else {
        f
    }
}

/// The concrete format to use for a run.
pub fn resolve_format(f: Format) -> (r: Format)
    ensures
        r == resolve(f),
        r != Format::Auto,
{
    match f {
        Format::Auto => Format::Zip,
        other => other,
    }
}

/// What a run is asked to do: the dataset directories, where to write, and how
/// to archive.
#[derive(Debug, Clone, PartialEq, Eq)]
pub struct Config {
    pub input: Vec<String>,
    pub output: Option<String>,
    pub format: Format,
}

/// A dataset directory as found on disk.
#[derive(Debug, Clone, PartialEq, Eq)]
pub struct DatasetDir {
    pub path: String,
    /// The last component of `path`.
    pub name: String,
    /// The directory that holds `path`, if it has one.
    pub parent: Option<String>,
    pub is_dir: bool,
}

/// Why a run or a dataset was refused.
#[derive(Debug, Clone, PartialEq, Eq)]
pub enum PrepareError {
    /// The given path is not a directory.
    NotDirectory(String),
    /// The directory's name does not follow the naming convention.
    BadName(String),
    /// No output directory was given and the input has no parent.
    NoParent(String),
}

/// Where the buckets of one dataset go.
#[derive(Debug, Clone, PartialEq, Eq)]
pub struct DatasetPlan {
    pub format: Format,
    /// The dataset's name, which starts every archive name.
    pub prefix: String,
    /// `{output}/{prefix}_files`.
    pub files_dir: String,
}

/// The directory that receives a dataset's buckets and zip archives.
pub open spec fn files_dir_of(output_root: Seq<char>, prefix: Seq<char>) -> Seq<char> {
    join_path(output_root, prefix + "_files"@)
}

/// Resolve where a dataset's output goes: the given output directory, or else
/// the directory that holds the dataset.
pub fn plan_dataset(input: &DatasetDir, output: &Option<String>, format: Format) -> (r: Result<
    DatasetPlan,
    PrepareError,
>)
    ensures
        output.is_none() && input.parent.is_none() <==> r is Err,
        r matches Err(e) ==> e matches PrepareError::NoParent(p) && p@ == input.path@,
        r matches Ok(plan) ==> {
            let root = match output {
                Some(o) => o@,
                None => input.parent->0@,
            };
            &&& plan.format == resolve(format)
            &&& plan.prefix@ == input.name@
            &&& plan.files_dir@ == files_dir_of(root, input.name@)
        },
{
    let root: &String = match output {
        Some(o) => o,
        None => match &input.parent {
            Some(p) => p,
            None => {
                return Err(PrepareError::NoParent(input.path.clone()));
            },
        },
    };
    let mut dir_name = String::from_str(input.name.as_str());
    dir_name.append("_files");
    let files_dir = join(root.as_str(), dir_name.as_str());
    Ok(DatasetPlan { format: resolve_format(format), prefix: input.name.clone(), files_dir })
}

/// Names that are never copied: metadata that desktop systems leave behind.
pub open spec fn is_skipped(name: Seq<char>) -> bool {
    name == ".DS_Store"@ || name == "Thumbs.db"@ || name == "__MACOSX"@
}

/// Whether a bucket of this name is left out.
pub fn is_skipped_name(name: &str) -> (r: bool)
    ensures
        r == is_skipped(name@),
{
    str_eq(name, ".DS_Store") || str_eq(name, "Thumbs.db") || str_eq(name, "__MACOSX")
}

/// The directory a bucket is copied into, or `None` when the bucket is skipped.
pub fn copy_target(e: &Entry, output_dir: &str) -> (r: Option<String>)
    ensures
        r is None <==> is_skipped(entry_name(e@)),
        r matches Some(t) ==> t@ == join_path(output_dir@, entry_name(e@)),
{
    let name = e.name();
    if is_skipped_name(name.as_str()) {
        None
    } else {
        Some(join(output_dir, name.as_str()))
    }
}

/// The paths of a listing, in order.
pub open spec fn listing_paths(s: Seq<Listed>) -> Seq<Seq<char>> {
    s.map_values(|l: Listed| l.path@)
}

/// The paths copied for a bucket. `listing` is what the bucket's directory
/// holds when its path is a directory, and `None` when the path is a single
/// file; a misc bucket copies its own paths.
pub fn copy_sources(e: &Entry, listing: Option<Vec<Listed>>) -> (r: Vec<String>)
    ensures
        e@ matches EntryModel::Files(_, ps) ==> paths_view(r@) == ps,
        e@ matches EntryModel::Dir(_, p) ==> match listing {
            None => paths_view(r@) == seq![p],
            Some(l) => exists|s: Seq<Listed>|
                #[trigger] crate::list::in_listing_order(s, l@) && paths_view(r@)
                    == listing_paths(s),
        },
{
    match e {
        Entry::Files((_, ps)) => {
            let mut r: Vec<String> = Vec::new();
            let mut i: usize = 0;
            while i < ps.len()
                invariant
                    i <= ps@.len(),
                    paths_view(r@) == paths_view(ps@).take(i as int),
                decreases ps.len() - i,
            {
                let ghost before = r@;
                let x = ps[i].clone();
                r.push(x);
                assert(paths_view(r@) =~= paths_view(before).push(x@));
                assert(paths_view(r@) =~= paths_view(ps@).take(i as int + 1));
                i = i + 1;
            }
            assert(paths_view(ps@).take(ps@.len() as int) =~= paths_view(ps@));
            r
        },
        Entry::Dir((_, p)) => match listing {
            None => {
                let r = vec![p.clone()];
                assert(paths_view(r@) =~= seq![p@]);
                r
            },
            Some(l) => {
                let sorted = sort_listing(l);
                let mut r: Vec<String> = Vec::new();
                let mut i: usize = 0;
                while i < sorted.len()
                    invariant
                        i <= sorted@.len(),
                        paths_view(r@) == listing_paths(sorted@).take(i as int),
                    decreases sorted.len() - i,
                {
                    let ghost before = r@;
                    let x = sorted[i].path.clone();
                    r.push(x);
                    assert(paths_view(r@) =~= paths_view(before).push(x@));
                    assert(paths_view(r@) =~= listing_paths(sorted@).take(i as int + 1));
                    i = i + 1;
                }
                assert(listing_paths(sorted@).take(sorted@.len() as int) =~= listing_paths(
                    sorted@,
                ));
                assert(crate::list::in_listing_order(sorted@, l@));
                r
            },
        },
    }
}

/// Where a copied bucket's archive goes: zip archives beside the copies,
/// seven-zip archives inside the dataset directory; `None` when nothing is
/// archived.
pub open spec fn archive_path_spec(
    format: Format,
    prefix: Seq<char>,
    files_dir: Seq<char>,
    input: Seq<char>,
    name: Seq<char>,
) -> Option<Seq<char>> {
    match format {
        Format::Zip => Some(join_path(files_dir, prefix + "_"@ + name + ".zip"@)),
        Format::SevenZip => Some(join_path(input, prefix + "_"@ + name + ".7z"@)),
        _ => None,
    }
}

/// The archive to write for a copied bucket named `name`, if any.
pub fn archive_path(plan: &DatasetPlan, input: &str, name: &str) -> (r: Option<String>)
    ensures
        r matches Some(p) ==> archive_path_spec(
            plan.format,
            plan.prefix@,
            plan.files_dir@,
            input@,
            name@,
        ) == Some(p@),
        r is None ==> archive_path_spec(
            plan.format,
            plan.prefix@,
            plan.files_dir@,
            input@,
            name@,
        ) is None,
{
    match plan.format {
        Format::Zip => {
            let mut file = concat3(plan.prefix.as_str(), "_", name);
            file.append(".zip");
            Some(join(plan.files_dir.as_str(), file.as_str()))
        },
        Format::SevenZip => {
            let mut file = concat3(plan.prefix.as_str(), "_", name);
            file.append(".7z");
            Some(join(input, file.as_str()))
        },
        _ => None,
    }
}

/// A dataset directory that may be processed: a directory whose name follows
/// the convention.
pub open spec fn is_valid_input(d: DatasetDir) -> bool {
    d.is_dir && is_dataset_name(d.name@)
}

/// The error that reports an invalid input.
pub open spec fn reports(e: PrepareError, d: DatasetDir) -> bool {
    if !d.is_dir {
        e matches PrepareError::NotDirectory(p) && p@ == d.path@
    } else {
        e matches PrepareError::BadName(n) && n@ == d.name@
    }
}

/// `i` is the first invalid input of `s`.
pub open spec fn first_invalid(s: Seq<DatasetDir>, i: int) -> bool {
    0 <= i < s.len() && !is_valid_input(s[i]) && forall|k: int|
        0 <= k < i ==> is_valid_input(#[trigger] s[k])
}

/// Check every input before any is processed; the first invalid one is
/// reported.
pub fn check_inputs(inputs: &Vec<DatasetDir>) -> (r: Result<(), PrepareError>)
    ensures
        r is Ok <==> forall|k: int| 0 <= k < inputs@.len() ==> is_valid_input(#[trigger] inputs@[k]),
        r matches Err(e) ==> exists|i: int| #[trigger] first_invalid(inputs@, i) && reports(e, inputs@[i]),
{
    let mut i: usize = 0;
    while i < inputs.len()
        invariant
            i <= inputs@.len(),
            forall|k: int| 0 <= k < i ==> is_valid_input(#[trigger] inputs@[k]),
        decreases inputs.len() - i,
    {
        let d = &inputs[i];
        if !d.is_dir {
            assert(first_invalid(inputs@, i as int));
            return Err(PrepareError::NotDirectory(d.path.clone()));
        }
        if !check_dir_name(d.name.as_str()) {
            assert(first_invalid(inputs@, i as int));
            return Err(PrepareError::BadName(d.name.clone()));
        }
        i = i + 1;
    }
    Ok(())
}

} // verus!
