//! Listing order: lexicographic order on names, then paths, and sorting by it.

use vstd::prelude::*;
use vstd::multiset::Multiset;
use vstd::string::*;

verus! {

/// Strict lexicographic order on character sequences.
pub open spec fn seq_lt(a: Seq<char>, b: Seq<char>) -> bool
    decreases a.len(),
{
    if a.len() == 0 {
        b.len() > 0
    } else if b.len() == 0 {
        false
    } else if a[0] != b[0] {
        a[0] < b[0]
    } else {
        seq_lt(a.drop_first(), b.drop_first())
    }
}

pub proof fn lemma_seq_lt_transitive(a: Seq<char>, b: Seq<char>, c: Seq<char>)
    requires
        seq_lt(a, b),
        seq_lt(b, c),
    ensures
        seq_lt(a, c),
    decreases a.len(),
{
    if a.len() > 0 && b.len() > 0 && c.len() > 0 && a[0] == b[0] && b[0] == c[0] {
        lemma_seq_lt_transitive(a.drop_first(), b.drop_first(), c.drop_first());
    }
}

pub proof fn lemma_seq_lt_irreflexive(a: Seq<char>)
    ensures
        !seq_lt(a, a),
    decreases a.len(),
{
    if a.len() > 0 {
        lemma_seq_lt_irreflexive(a.drop_first());
    }
}

/// Whether `a` comes strictly before `b` in lexicographic order.
pub fn str_lt(a: &str, b: &str) -> (r: bool)
    ensures
        r == seq_lt(a@, b@),
{
    let n: usize = a.unicode_len();
    let m: usize = b.unicode_len();
    let mut i: usize = 0;
    assert(a@.skip(0) =~= a@ && b@.skip(0) =~= b@);
    while i < n && i < m
        invariant
            n == a@.len(),
            m == b@.len(),
            i <= n,
            i <= m,
            seq_lt(a@, b@) == seq_lt(a@.skip(i as int), b@.skip(i as int)),
        decreases n - i,
    {
        let x = a.get_char(i);
        let y = b.get_char(i);
        if x != y {
            return x < y;
        }
        assert(a@.skip(i as int).drop_first() =~= a@.skip(i as int + 1));
        assert(b@.skip(i as int).drop_first() =~= b@.skip(i as int + 1));
        i = i + 1;
    }
    i == n && i < m
}

} // verus!

verus! {

/// One entry of a directory listing: its file name and its full path.
#[derive(Debug, Clone, PartialEq, Eq)]
pub struct Listed {
    pub name: String,
    pub path: String,
}

/// Listing order: by name, then by path.
pub open spec fn listed_lt(a: Listed, b: Listed) -> bool {
    seq_lt(a.name@, b.name@) || (a.name@ == b.name@ && seq_lt(a.path@, b.path@))
}

pub proof fn lemma_listed_lt_irreflexive(a: Listed)
    ensures
        !listed_lt(a, a),
{
    lemma_seq_lt_irreflexive(a.name@);
    lemma_seq_lt_irreflexive(a.path@);
}

pub open spec fn is_sorted(s: Seq<Listed>) -> bool {
    forall|i: int, j: int| 0 <= i < j < s.len() ==> !listed_lt(#[trigger] s[j], #[trigger] s[i])
}

pub proof fn lemma_listed_lt_transitive(a: Listed, b: Listed, c: Listed)
    requires
        listed_lt(a, b),
        listed_lt(b, c),
    ensures
        listed_lt(a, c),
{
    if seq_lt(a.name@, b.name@) && seq_lt(b.name@, c.name@) {
        lemma_seq_lt_transitive(a.name@, b.name@, c.name@);
    }
    lemma_seq_lt_irreflexive(a.name@);
    lemma_seq_lt_irreflexive(b.name@);
    if a.name@ == b.name@ && b.name@ == c.name@ {
        lemma_seq_lt_transitive(a.path@, b.path@, c.path@);
    }
}

fn listed_lt_exec(a: &Listed, b: &Listed) -> (r: bool)
    ensures
        r == listed_lt(*a, *b),
{
    if str_lt(a.name.as_str(), b.name.as_str()) {
        true
    } else if crate::text::str_eq(a.name.as_str(), b.name.as_str()) {
        str_lt(a.path.as_str(), b.path.as_str())
    } else {
        false
    }
}

proof fn lemma_insert_multiset(s: Seq<Listed>, pos: int, x: Listed)
    requires
        0 <= pos <= s.len(),
    ensures
        s.insert(pos, x).to_multiset() == s.to_multiset().insert(x),
{
    let t = s.insert(pos, x);
    assert(t.remove(pos) =~= s);
    t.to_multiset_ensures();
    s.to_multiset_ensures();
    assert(t[pos] == x);
    assert(t.to_multiset().count(x) > 0) by {
        assert(t.contains(x));
    }
    assert(t.to_multiset() =~= s.to_multiset().insert(x));
}

/// The entries of a listing in listing order.
pub fn sort_listing(v: Vec<Listed>) -> (r: Vec<Listed>)
    ensures
        is_sorted(r@),
        r@.to_multiset() == v@.to_multiset(),
{
    let mut rest = v;
    let mut out: Vec<Listed> = Vec::new();
    proof {
        out@.to_multiset_ensures();
        assert(out@.to_multiset() =~= Multiset::<Listed>::empty());
    }
    while rest.len() > 0
        invariant
            is_sorted(out@),
            out@.to_multiset().add(rest@.to_multiset()) == v@.to_multiset(),
        decreases rest.len(),
    {
        let ghost before = rest@;
        let x = rest.pop().unwrap();
        proof {
            assert(before =~= rest@.push(x));
            rest@.to_multiset_ensures();
        }
        let mut pos: usize = 0;
        while pos < out.len() && !listed_lt_exec(&x, &out[pos])
            invariant
                pos <= out.len(),
                forall|k: int| 0 <= k < pos ==> !listed_lt(x, #[trigger] out@[k]),
            decreases out.len() - pos,
        {
            pos = pos + 1;
        }
        let ghost old_out = out@;
        out.insert(pos, x);
        proof {
            lemma_insert_multiset(old_out, pos as int, x);
            assert(out@.to_multiset().add(rest@.to_multiset()) =~= v@.to_multiset());
            assert forall|i: int, j: int| 0 <= i < j < out@.len() implies !listed_lt(
                #[trigger] out@[j],
                #[trigger] out@[i],
            ) by {
                if j < pos {
                    assert(out@[i] == old_out[i] && out@[j] == old_out[j]);
                } else if j == pos {
                    assert(out@[i] == old_out[i]);
                } else if i > pos {
                    assert(out@[i] == old_out[i - 1] && out@[j] == old_out[j - 1]);
                } else if i == pos {
                    assert(out@[j] == old_out[j - 1]);
                    assert(listed_lt(x, old_out[pos as int]));
                    if listed_lt(old_out[j - 1], x) {
                        lemma_listed_lt_transitive(old_out[j - 1], x, old_out[pos as int]);
                        lemma_listed_lt_irreflexive(old_out[pos as int]);
                    }
                } else {
                    assert(out@[i] == old_out[i] && out@[j] == old_out[j - 1]);
                }
            }
        }
    }
    proof {
        rest@.to_multiset_ensures();
        assert(rest@.to_multiset() =~= Multiset::<Listed>::empty());
        assert(out@.to_multiset() =~= out@.to_multiset().add(rest@.to_multiset()));
    }
    out
}

} // verus!

verus! {

/// What a listing says: the name and path of each entry, in order.
pub open spec fn listing_view(s: Seq<Listed>) -> Seq<(Seq<char>, Seq<char>)> {
    s.map_values(|l: Listed| (l.name@, l.path@))
}

pub proof fn lemma_seq_lt_total(a: Seq<char>, b: Seq<char>)
    requires
        !seq_lt(a, b),
        !seq_lt(b, a),
    ensures
        a == b,
    decreases a.len(),
{
    if a.len() > 0 && b.len() > 0 {
        lemma_seq_lt_total(a.drop_first(), b.drop_first());
        assert(a =~= seq![a[0]] + a.drop_first());
        assert(b =~= seq![b[0]] + b.drop_first());
    } else {
        assert(a =~= b);
    }
}

/// Entries that neither comes before the other have the same name and path.
proof fn lemma_listed_lt_total(x: Listed, y: Listed)
    requires
        !listed_lt(x, y),
        !listed_lt(y, x),
    ensures
        x.name@ == y.name@ && x.path@ == y.path@,
{
    lemma_seq_lt_total(x.name@, y.name@);
    lemma_seq_lt_total(x.path@, y.path@);
}

/// Listing order decides a listing: two arrangements of the same entries in
/// listing order give the same names and paths in the same order.
pub proof fn lemma_listing_order_unique(a: Seq<Listed>, b: Seq<Listed>)
    requires
        is_sorted(a),
        is_sorted(b),
        a.to_multiset() == b.to_multiset(),
    ensures
        listing_view(a) == listing_view(b),
    decreases a.len(),
{
    a.to_multiset_ensures();
    b.to_multiset_ensures();
    if a.len() == 0 {
        assert(listing_view(a) =~= listing_view(b));
    } else {
        let x = a[0];
        assert(a.contains(x));
        assert(b.to_multiset().count(x) > 0);
        assert(b.contains(x));
        let j = choose|j: int| 0 <= j < b.len() && b[j] == x;
        let y = b[0];
        assert(a.to_multiset().count(y) > 0);
        assert(a.contains(y));
        let k = choose|k: int| 0 <= k < a.len() && a[k] == y;
        if j > 0 {
            assert(!listed_lt(b[j], b[0]));
        }
        if k > 0 {
            assert(!listed_lt(a[k], a[0]));
        }
        lemma_listed_lt_irreflexive(x);
        lemma_listed_lt_total(x, y);
        // every entry of b up to j reads like its first
        assert forall|i: int| 0 <= i <= j implies b[i].name@ == y.name@ && b[i].path@
            == y.path@ by {
            if 0 < i {
                assert(!listed_lt(b[i], b[0]));
            }
            if i < j {
                assert(!listed_lt(b[j], b[i]));
            }
            lemma_listed_lt_irreflexive(b[i]);
            lemma_listed_lt_total(b[i], y);
        }
        let a1 = a.drop_first();
        let b1 = b.remove(j);
        assert(a1 =~= a.remove(0));
        assert(a1.to_multiset() =~= b1.to_multiset());
        assert(is_sorted(a1));
        b.remove_ensures(j);
        assert(is_sorted(b1)) by {
            assert forall|p: int, q: int| 0 <= p < q < b1.len() implies !listed_lt(
                #[trigger] b1[q],
                #[trigger] b1[p],
            ) by {
                let pp = if p < j { p } else { p + 1 };
                let qq = if q < j { q } else { q + 1 };
                assert(b1[p] == b[pp] && b1[q] == b[qq]);
            }
        }
        lemma_listing_order_unique(a1, b1);
        assert forall|i: int| 0 <= i < a.len() implies #[trigger] listing_view(a)[i]
            == listing_view(b)[i] by {
            if i == 0 {
            } else if i <= j {
                assert(listing_view(a)[i] == listing_view(a1)[i - 1]);
                assert(listing_view(b1)[i - 1] == (b[i - 1].name@, b[i - 1].path@));
            } else {
                assert(listing_view(a)[i] == listing_view(a1)[i - 1]);
                assert(listing_view(b1)[i - 1] == (b[i].name@, b[i].path@));
            }
        }
        assert(listing_view(a) =~= listing_view(b));
    }
}

} // verus!
