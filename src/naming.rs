//! The naming convention of dataset directories.

use vstd::prelude::*;

use crate::text::chars_of;

verus! {

/// An ASCII decimal digit.
pub open spec fn is_digit(c: char) -> bool {
    '0' <= c && c <= '9'
}

/// A character allowed in a place or type slug: `[a-z0-9-]`.
pub open spec fn is_slug_char(c: char) -> bool {
    ('a' <= c && c <= 'z') || is_digit(c) || c == '-'
}

pub open spec fn all_digits(s: Seq<char>) -> bool {
    forall|i: int| 0 <= i < s.len() ==> is_digit(#[trigger] s[i])
}

/// A non-empty run of slug characters.
pub open spec fn is_slug(s: Seq<char>) -> bool {
    s.len() > 0 && forall|i: int| 0 <= i < s.len() ==> is_slug_char(#[trigger] s[i])
}

pub open spec fn no_separator(s: Seq<char>) -> bool {
    forall|i: int| 0 <= i < s.len() ==> s[i] != '_'
}

/// The literal field that marks a CityGML dataset.
pub open spec fn citygml_marker() -> Seq<char> {
    seq!['c', 'i', 't', 'y', 'g', 'm', 'l']
}

/// The fields of `s` between underscores; a string without underscore is one field.
pub open spec fn split_fields(s: Seq<char>) -> Seq<Seq<char>>
    decreases s.len(),
{
    if s.len() == 0 {
        seq![Seq::<char>::empty()]
    } else {
        let r = split_fields(s.drop_last());
        if s.last() == '_' {
            r.push(Seq::<char>::empty())
        } else {
            r.update(r.len() - 1, r.last().push(s.last()))
        }
    }
}

/// The fields of a dataset name: code, place, type, year, marker, version and an
/// optional suffix tag.
pub open spec fn fields_valid(f: Seq<Seq<char>>) -> bool {
    &&& f.len() == 6 || f.len() == 7
    &&& f[0].len() == 5 && all_digits(f[0])
    &&& is_slug(f[1])
    &&& is_slug(f[2])
    &&& f[3].len() == 4 && all_digits(f[3])
    &&& f[4] == citygml_marker()
    &&& f[5].len() > 0 && all_digits(f[5])
    &&& f.len() == 7 ==> is_slug(f[6])
}

/// `s` follows the dataset naming convention
/// `^\d{5}_[a-z0-9-]+_[a-z0-9-]+_\d{4}_citygml_\d+(_[a-z0-9-]+)?$`.
/// No character class of the convention holds `_`, so the underscores of a
/// conforming name are exactly its separators.
pub open spec fn is_dataset_name(s: Seq<char>) -> bool {
    fields_valid(split_fields(s))
}

/// `x`, an underscore, then `y`.
pub open spec fn join_sep(x: Seq<char>, y: Seq<char>) -> Seq<char> {
    x + seq!['_'] + y
}

/// The name assembled from its parts as the convention lays them out.
pub open spec fn compose_name(
    code: Seq<char>,
    place: Seq<char>,
    kind: Seq<char>,
    year: Seq<char>,
    version: Seq<char>,
    suffix: Option<Seq<char>>,
) -> Seq<char> {
    let tail = match suffix {
        Some(t) => join_sep(version, t),
        None => version,
    };
    join_sep(code, join_sep(place, join_sep(kind, join_sep(year, join_sep(citygml_marker(), tail)))))
}

pub proof fn lemma_split_nonempty(s: Seq<char>)
    ensures
        split_fields(s).len() >= 1,
    decreases s.len(),
{
    if s.len() > 0 {
        lemma_split_nonempty(s.drop_last());
    }
}

pub proof fn lemma_split_single(x: Seq<char>)
    requires
        no_separator(x),
    ensures
        split_fields(x) == seq![x],
    decreases x.len(),
{
    if x.len() > 0 {
        let p = x.drop_last();
        assert(no_separator(p));
        lemma_split_single(p);
        assert(x[x.len() - 1] != '_');
        assert(p.push(x.last()) =~= x);
        assert(split_fields(x) =~= seq![x]);
    } else {
        assert(x =~= Seq::<char>::empty());
    }
}

pub proof fn lemma_split_join(x: Seq<char>, y: Seq<char>)
    ensures
        split_fields(join_sep(x, y)) == split_fields(x) + split_fields(y),
    decreases y.len(),
{
    let z = join_sep(x, y);
    if y.len() == 0 {
        assert(z.drop_last() =~= x);
        assert(split_fields(z) =~= split_fields(x) + split_fields(y));
    } else {
        let yp = y.drop_last();
        lemma_split_join(x, yp);
        lemma_split_nonempty(yp);
        lemma_split_nonempty(x);
        assert(z.drop_last() =~= join_sep(x, yp));
        assert(z.last() == y.last());
        assert(split_fields(z) =~= split_fields(x) + split_fields(y));
    }
}

proof fn lemma_split_join_single(x: Seq<char>, y: Seq<char>)
    requires
        no_separator(x),
    ensures
        split_fields(join_sep(x, y)) == seq![x] + split_fields(y),
{
    lemma_split_join(x, y);
    lemma_split_single(x);
}

/// Every name built from a five-digit code, two slugs, a four-digit year, the
/// marker, a non-empty digit version and an optional slug suffix, joined by
/// underscores, follows the naming convention.
pub proof fn lemma_convention_names_accepted(
    code: Seq<char>,
    place: Seq<char>,
    kind: Seq<char>,
    year: Seq<char>,
    version: Seq<char>,
    suffix: Option<Seq<char>>,
)
    requires
        code.len() == 5 && all_digits(code),
        is_slug(place),
        is_slug(kind),
        year.len() == 4 && all_digits(year),
        version.len() > 0 && all_digits(version),
        suffix is Some ==> is_slug(suffix->0),
    ensures
        is_dataset_name(compose_name(code, place, kind, year, version, suffix)),
{
    assert forall|s: Seq<char>| (all_digits(s) || is_slug(s)) implies no_separator(s) by {
        assert forall|i: int| 0 <= i < s.len() implies s[i] != '_' by {
            if all_digits(s) {
                assert(is_digit(s[i]));
            } else {
                assert(is_slug_char(s[i]));
            }
        }
    }
    assert(no_separator(citygml_marker()));
    let tail = match suffix {
        Some(t) => join_sep(version, t),
        None => version,
    };
    let tail_fields = match suffix {
        Some(t) => seq![version, t],
        None => seq![version],
    };
    match suffix {
        Some(t) => {
            lemma_split_join_single(version, t);
            lemma_split_single(t);
        },
        None => {
            lemma_split_single(version);
        },
    }
    assert(split_fields(tail) == tail_fields);
    let t4 = join_sep(citygml_marker(), tail);
    let t3 = join_sep(year, t4);
    let t2 = join_sep(kind, t3);
    let t1 = join_sep(place, t2);
    lemma_split_join_single(citygml_marker(), tail);
    lemma_split_join_single(year, t4);
    lemma_split_join_single(kind, t3);
    lemma_split_join_single(place, t2);
    lemma_split_join_single(code, t1);
    let f = split_fields(compose_name(code, place, kind, year, version, suffix));
    assert(f =~= seq![code, place, kind, year, citygml_marker()] + tail_fields);
}

fn all_digits_exec(v: &Vec<char>) -> (r: bool)
    ensures
        r == all_digits(v@),
{
    let mut i: usize = 0;
    while i < v.len()
        invariant
            i <= v.len(),
            forall|j: int| 0 <= j < i ==> is_digit(#[trigger] v@[j]),
        decreases v.len() - i,
    {
        let c = v[i];
        if !('0' <= c && c <= '9') {
            assert(!is_digit(v@[i as int]));
            return false;
        }
        i = i + 1;
    }
    true
}

fn is_slug_exec(v: &Vec<char>) -> (r: bool)
    ensures
        r == is_slug(v@),
{
    if v.len() == 0 {
        return false;
    }
    let mut i: usize = 0;
    while i < v.len()
        invariant
            i <= v.len(),
            forall|j: int| 0 <= j < i ==> is_slug_char(#[trigger] v@[j]),
        decreases v.len() - i,
    {
        let c = v[i];
        if !(('a' <= c && c <= 'z') || ('0' <= c && c <= '9') || c == '-') {
            assert(!is_slug_char(v@[i as int]));
            return false;
        }
        i = i + 1;
    }
    true
}

fn is_marker_exec(v: &Vec<char>) -> (r: bool)
    ensures
        r == (v@ == citygml_marker()),
{
    let r = v.len() == 7 && v[0] == 'c' && v[1] == 'i' && v[2] == 't' && v[3] == 'y' && v[4]
        == 'g' && v[5] == 'm' && v[6] == 'l';
    if r {
        assert(v@ =~= citygml_marker());
    }
    r
}

/// The fields of `s` between underscores.
fn split_fields_exec(s: &Vec<char>) -> (r: Vec<Vec<char>>)
    ensures
        r@.map_values(|f: Vec<char>| f@) == split_fields(s@),
{
    let mut done: Vec<Vec<char>> = Vec::new();
    let mut current: Vec<char> = Vec::new();
    let mut i: usize = 0;
    while i < s.len()
        invariant
            i <= s.len(),
            done@.map_values(|f: Vec<char>| f@).push(current@) == split_fields(s@.take(i as int)),
        decreases s.len() - i,
    {
        let c = s[i];
        let ghost prev = s@.take(i as int);
        assert(s@.take(i as int + 1).drop_last() =~= prev);
        if c == '_' {
            done.push(current);
            current = Vec::new();
            assert(done@.map_values(|f: Vec<char>| f@).push(current@) =~= split_fields(
                prev,
            ).push(Seq::<char>::empty()));
        } else {
            current.push(c);
            assert(done@.map_values(|f: Vec<char>| f@).push(current@) =~= split_fields(prev).update(
                split_fields(prev).len() - 1,
                split_fields(prev).last().push(c),
            ));
        }
        i = i + 1;
    }
    assert(s@.take(s.len() as int) =~= s@);
    done.push(current);
    assert(done@.map_values(|f: Vec<char>| f@) =~= split_fields(s@));
    done
}

/// Whether a dataset directory's name follows the naming convention.
pub fn check_dir_name(name: &str) -> (r: bool)
    ensures
        r == is_dataset_name(name@),
{
    let cs = chars_of(name);
    let f = split_fields_exec(&cs);
    let ghost fs = f@.map_values(|v: Vec<char>| v@);
    if f.len() != 6 && f.len() != 7 {
        return false;
    }
    assert(fs[0] == f@[0]@ && fs[1] == f@[1]@ && fs[2] == f@[2]@ && fs[3] == f@[3]@);
    assert(fs[4] == f@[4]@ && fs[5] == f@[5]@);
    let ok = f[0].len() == 5 && all_digits_exec(&f[0]) && is_slug_exec(&f[1]) && is_slug_exec(
        &f[2],
    ) && f[3].len() == 4 && all_digits_exec(&f[3]) && is_marker_exec(&f[4]) && f[5].len() > 0
        && all_digits_exec(&f[5]);
    if !ok {
        return false;
    }
    if f.len() == 7 {
        assert(fs[6] == f@[6]@);
        is_slug_exec(&f[6])
    } else {
        true
    }
}

} // verus!
