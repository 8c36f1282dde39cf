//! Listing the destination's subfolders and collecting the files to sort.
use vstd::prelude::*;
use vstd::string::*;
use vstd::relations::{sorted_by, total_ordering};
use crate::names::names_view;
use crate::text::{chars_le, chars_lt, lemma_chars_le_total_ordering, lemma_chars_lt_transitive,
    lemma_chars_lt_trichotomy, str_equal, text_lt};

verus! {

broadcast use vstd::seq_lib::group_to_multiset_ensures;

/// Names starting with a dot are hidden.
pub open spec fn is_hidden(name: Seq<char>) -> bool {
    name.len() > 0 && name[0] == '.'
}

/// The code-point order of names, as a relation.
pub open spec fn name_le() -> spec_fn(Seq<char>, Seq<char>) -> bool {
    |a: Seq<char>, b: Seq<char>| chars_le(a, b)
}

/// `names` in ascending code-point order.
pub open spec fn sorted_names(names: Seq<Seq<char>>) -> Seq<Seq<char>> {
    names.sort_by(name_le())
}

/// The names that are not hidden, in their order.
pub open spec fn visible_names(names: Seq<Seq<char>>) -> Seq<Seq<char>> {
    names.filter(|n: Seq<char>| !is_hidden(n))
}

/// Index of the first occurrence of `x` in `s` (meaningful when `s` contains `x`).
pub open spec fn first_index(s: Seq<Seq<char>>, x: Seq<char>) -> int {
    choose|i: int| 0 <= i < s.len() && s[i] == x && forall|j: int| 0 <= j < i ==> s[j] != x
}

/// Takes, for each name of `recent` in turn, its first occurrence out of
/// `rest`: returns the names taken, in that order, and what is left.
pub open spec fn take_recent(rest: Seq<Seq<char>>, recent: Seq<Seq<char>>) -> (
    Seq<Seq<char>>,
    Seq<Seq<char>>,
)
    decreases recent.len(),
{
    if recent.len() == 0 {
        (Seq::empty(), rest)
    } else {
        let (picked, left) = take_recent(rest, recent.drop_last());
        let r = recent.last();
        if left.contains(r) {
            (picked.push(r), left.remove(first_index(left, r)))
        } else {
            (picked, left)
        }
    }
}

/// The subfolder listing shown at the prompt: the visible folder names,
/// those used recently first (latest first), then the rest alphabetically.
pub open spec fn subdir_order(names: Seq<Seq<char>>, recent: Seq<Seq<char>>) -> Seq<Seq<char>> {
    let (picked, left) = take_recent(sorted_names(visible_names(names)), recent);
    picked + left
}

/// A first occurrence is the first occurrence.
pub proof fn lemma_first_index_of(s: Seq<Seq<char>>, x: Seq<char>, i: int)
    requires
        0 <= i < s.len(),
        s[i] == x,
        forall|j: int| 0 <= j < i ==> s[j] != x,
    ensures
        first_index(s, x) == i,
{
    let k = first_index(s, x);
    assert(0 <= k < s.len() && s[k] == x && forall|j: int| 0 <= j < k ==> s[j] != x);
    if k < i {
        assert(s[k] != x);
    } else if k > i {
        assert(s[i] != x);
    }
}

/// Sorts names into ascending code-point order.
pub fn sort_names(names: Vec<String>) -> (r: Vec<String>)
    ensures
        names_view(r@) == sorted_names(names_view(names@)),
        r@.to_multiset() == names@.to_multiset(),
{
    let mut out: Vec<String> = Vec::new();
    let mut i: usize = 0;
    let n = names.len();
    proof {
        lemma_chars_le_total_ordering();
    }
    while i < n
        invariant
            n == names.len(),
            i <= n,
            sorted_by(names_view(out@), name_le()),
            names_view(out@).to_multiset() == names_view(names@.take(i as int)).to_multiset(),
            out@.to_multiset() == names@.take(i as int).to_multiset(),
            total_ordering(name_le()),
        decreases n - i,
    {
        let x = names[i].clone();
        let mut j: usize = 0;
        while j < out.len() && !text_lt(x.as_str(), out[j].as_str())
            invariant
                j <= out.len(),
                forall|k: int| 0 <= k < j ==> chars_le(#[trigger] out@[k]@, x@),
            decreases out.len() - j,
        {
            proof {
                lemma_chars_lt_trichotomy(x@, out@[j as int]@);
            }
            j = j + 1;
        }
        let ghost before = out@;
        proof {
            assert forall|k: int| j <= k < before.len() implies chars_lt(x@, #[trigger] before[k]@) by {
                assert(chars_lt(x@, before[j as int]@));
                if k > j {
                    assert(name_le()(names_view(before)[j as int], names_view(before)[k]));
                    if before[j as int]@ != before[k]@ {
                        lemma_chars_lt_transitive(x@, before[j as int]@, before[k]@);
                    }
                }
            }
        }
        out.insert(j, x);
        proof {
            assert(names_view(out@) =~= names_view(before).insert(j as int, x@));
            assert(names@.take(i + 1) =~= names@.take(i as int).push(names@[i as int]));
            assert(names_view(names@.take(i + 1)) =~= names_view(names@.take(i as int)).push(x@));
            assert forall|a: int, b: int| 0 <= a < b < out@.len() implies #[trigger] name_le()(
                names_view(out@)[a],
                names_view(out@)[b],
            ) by {
                if b < j {
                    assert(name_le()(names_view(before)[a], names_view(before)[b]));
                } else if a < j && b == j {
                } else if a < j {
                    assert(chars_le(before[a]@, x@));
                    assert(chars_lt(x@, before[b - 1]@));
                    if before[a]@ != x@ {
                        lemma_chars_lt_transitive(before[a]@, x@, before[b - 1]@);
                    }
                } else if a == j {
                    assert(chars_lt(x@, before[b - 1]@));
                } else {
                    assert(name_le()(names_view(before)[a - 1], names_view(before)[b - 1]));
                }
            }
        }
        i = i + 1;
    }
    proof {
        assert(names@.take(n as int) =~= names@);
        names_view(names@).lemma_sort_by_ensures(name_le());
        vstd::seq_lib::lemma_sorted_unique(names_view(out@), sorted_names(names_view(names@)), name_le());
    }
    out
}


/// `true` when `name` starts with a dot.
pub fn starts_with_dot(name: &str) -> (r: bool)
    ensures
        r == is_hidden(name@),
{
    name.unicode_len() > 0 && name.get_char(0) == '.'
}

/// Index of the first name in `names` equal to `x`.
pub(crate) fn position_of(names: &Vec<String>, x: &str) -> (r: Option<usize>)
    ensures
        match r {
            Some(i) => i < names.len() && names_view(names@)[i as int] == x@ && first_index(
                names_view(names@),
                x@,
            ) == i,
            None => !names_view(names@).contains(x@),
        },
{
    let ghost nv = names_view(names@);
    let mut i: usize = 0;
    while i < names.len()
        invariant
            nv == names_view(names@),
            i <= names.len(),
            forall|j: int| 0 <= j < i ==> nv[j] != x@,
        decreases names.len() - i,
    {
        if str_equal(names[i].as_str(), x) {
            proof {
                lemma_first_index_of(nv, x@, i as int);
            }
            return Some(i);
        }
        i = i + 1;
    }
    None
}

/// The destination's subfolders as offered at the prompt: `dir_names` (the
/// names of the folders found in the destination) without hidden ones,
/// those named in `recent` first in the order of `recent` (latest first),
/// then the others alphabetically.
#[verifier::spinoff_prover]
pub fn get_subdirs(dir_names: Vec<String>, recent: &Vec<String>) -> (r: Vec<String>)
    ensures
        names_view(r@) == subdir_order(names_view(dir_names@), names_view(recent@)),
{
    let ghost all = names_view(dir_names@);
    let mut visible: Vec<String> = Vec::new();
    let mut i: usize = 0;
    let n = dir_names.len();
    while i < n
        invariant
            n == dir_names.len(),
            i <= n,
            all == names_view(dir_names@),
            names_view(visible@) == visible_names(all.take(i as int)),
        decreases n - i,
    {
        let name = dir_names[i].clone();
        proof {
            assert(all.take(i + 1) =~= all.take(i as int).push(all[i as int]));
            all.take(i as int).lemma_filter_push(all[i as int], |n: Seq<char>| !is_hidden(n));
        }
        if !starts_with_dot(name.as_str()) {
            visible.push(name);
            assert(names_view(visible@) =~= visible_names(all.take(i as int)).push(all[i as int]));
        }
        i = i + 1;
    }
    assert(all.take(n as int) =~= all);
    let mut dirs = sort_names(visible);
    let ghost sorted = names_view(dirs@);
    let mut result: Vec<String> = Vec::new();
    let ghost rv = names_view(recent@);
    let mut k: usize = 0;
    assert(rv.take(0) =~= Seq::<Seq<char>>::empty());
    while k < recent.len()
        invariant
            k <= recent.len(),
            rv == names_view(recent@),
            (names_view(result@), names_view(dirs@)) == take_recent(sorted, rv.take(k as int)),
        decreases recent.len() - k,
    {
        assert(rv.take(k + 1).drop_last() =~= rv.take(k as int));
        assert(rv.take(k + 1).last() == recent@[k as int]@);
        match position_of(&dirs, recent[k].as_str()) {
            Some(pos) => {
                let ghost before = names_view(dirs@);
                let d = dirs.remove(pos);
                assert(names_view(dirs@) =~= before.remove(pos as int));
                result.push(d);
                assert(names_view(result@) =~= take_recent(sorted, rv.take(k as int)).0.push(
                    recent@[k as int]@,
                ));
            },
            None => {},
        }
        k = k + 1;
    }
    assert(rv.take(recent.len() as int) =~= rv);
    let ghost picked = names_view(result@);
    let ghost left = names_view(dirs@);
    result.append(&mut dirs);
    assert(names_view(result@) =~= picked + left);
    result
}


/// No name occurs twice.
pub open spec fn distinct_names(s: Seq<Seq<char>>) -> bool {
    forall|i: int, j: int| 0 <= i < s.len() && 0 <= j < s.len() && i != j ==> s[i] != s[j]
}

proof fn lemma_first_index_push(r: Seq<Seq<char>>, x: Seq<char>, y: Seq<char>)
    requires
        r.push(y).contains(x),
    ensures
        r.contains(x) ==> first_index(r.push(y), x) == first_index(r, x),
        r.contains(x) ==> first_index(r, x) < r.len(),
        !r.contains(x) ==> x == y && first_index(r.push(y), x) == r.len(),
{
    let q = r.push(y);
    if r.contains(x) {
        let i = choose|i: int| 0 <= i < r.len() && r[i] == x;
        let k = first_index(r, x);
        assert(exists|m: int| 0 <= m < r.len() && r[m] == x && forall|j: int| 0 <= j < m ==> r[j] != x) by {
            lemma_exists_first(r, x, i);
        }
        assert(0 <= k < r.len() && r[k] == x && forall|j: int| 0 <= j < k ==> r[j] != x);
        lemma_first_index_of(q, x, k);
    } else {
        assert(q[r.len() as int] == y);
        let i = choose|i: int| 0 <= i < q.len() && q[i] == x;
        if i < r.len() {
            assert(r[i] == x);
        }
        assert forall|j: int| 0 <= j < r.len() implies q[j] != x by {
            assert(q[j] == r[j]);
        }
        lemma_first_index_of(q, x, r.len() as int);
    }
}

proof fn lemma_exists_first(r: Seq<Seq<char>>, x: Seq<char>, i: int)
    requires
        0 <= i < r.len(),
        r[i] == x,
    ensures
        exists|m: int| 0 <= m < r.len() && r[m] == x && forall|j: int| 0 <= j < m ==> r[j] != x,
    decreases i,
{
    if exists|j: int| 0 <= j < i && r[j] == x {
        let j = choose|j: int| 0 <= j < i && r[j] == x;
        lemma_exists_first(r, x, j);
    } else {
        assert(forall|j: int| 0 <= j < i ==> r[j] != x);
    }
}

/// The facts that taking the recent names out of a sorted list of
/// distinct names keeps.
pub open spec fn recent_split(
    sorted: Seq<Seq<char>>,
    recent: Seq<Seq<char>>,
    picked: Seq<Seq<char>>,
    left: Seq<Seq<char>>,
) -> bool {
    &&& picked.to_multiset().add(left.to_multiset()) == sorted.to_multiset()
    &&& forall|i: int| 0 <= i < picked.len() ==> recent.contains(#[trigger] picked[i])
    &&& forall|i: int, j: int|
        0 <= i < j < picked.len() ==> first_index(recent, #[trigger] picked[i]) < first_index(
            recent,
            #[trigger] picked[j],
        )
    &&& forall|i: int| 0 <= i < left.len() ==> !recent.contains(#[trigger] left[i])
    &&& sorted_by(left, name_le())
    &&& distinct_names(left)
}

proof fn lemma_take_recent_split(sorted: Seq<Seq<char>>, recent: Seq<Seq<char>>)
    requires
        sorted_by(sorted, name_le()),
        distinct_names(sorted),
    ensures
        recent_split(sorted, recent, take_recent(sorted, recent).0, take_recent(sorted, recent).1),
    decreases recent.len(),
{
    if recent.len() == 0 {
        assert(take_recent(sorted, recent).0 =~= Seq::<Seq<char>>::empty());
        assert(Seq::<Seq<char>>::empty().to_multiset().add(sorted.to_multiset()) =~= sorted.to_multiset());
    } else {
        let rp = recent.drop_last();
        let r = recent.last();
        assert(recent =~= rp.push(r));
        lemma_take_recent_split(sorted, rp);
        let (p0, l0) = take_recent(sorted, rp);
        let (p, l) = take_recent(sorted, recent);
        assert forall|x: Seq<char>| rp.contains(x) implies recent.contains(x) && first_index(recent, x)
            == first_index(rp, x) && first_index(rp, x) < rp.len() by {
            let i = choose|i: int| 0 <= i < rp.len() && rp[i] == x;
            assert(recent[i] == x);
            lemma_first_index_push(rp, x, r);
        }
        if l0.contains(r) {
            let k = first_index(l0, r);
            let ki = choose|i: int| 0 <= i < l0.len() && l0[i] == r;
            lemma_exists_first(l0, r, ki);
            assert(0 <= k < l0.len() && l0[k] == r);
            assert(p == p0.push(r));
            assert(l == l0.remove(k));
            assert(!rp.contains(r)) by {
                assert(!rp.contains(l0[k]));
            }
            assert(recent.contains(r)) by {
                assert(recent[recent.len() - 1] == r);
            }
            lemma_first_index_push(rp, r, r);
            // multiset
            vstd::seq_lib::to_multiset_remove(l0, k);
            assert(p.to_multiset().add(l.to_multiset()) =~= sorted.to_multiset());
            assert forall|i: int| 0 <= i < p.len() implies recent.contains(#[trigger] p[i]) by {
                if i < p0.len() {
                    assert(p[i] == p0[i]);
                }
            }
            assert forall|i: int, j: int| 0 <= i < j < p.len() implies first_index(
                recent,
                #[trigger] p[i],
            ) < first_index(recent, #[trigger] p[j]) by {
                assert(p[i] == p0[i]);
                assert(rp.contains(p0[i]));
                if j < p0.len() {
                    assert(p[j] == p0[j]);
                    assert(rp.contains(p0[j]));
                } else {
                    assert(p[j] == r);
                }
            }
            assert forall|i: int| 0 <= i < l.len() implies !recent.contains(#[trigger] l[i]) by {
                let src = if i < k { i } else { i + 1 };
                assert(l[i] == l0[src]);
                assert(!rp.contains(l0[src]));
                assert(l0[src] != r);
                if recent.contains(l[i]) {
                    let m = choose|m: int| 0 <= m < recent.len() && recent[m] == l[i];
                    if m < rp.len() {
                        assert(rp[m] == l[i]);
                    }
                }
            }
            assert forall|a: int, b: int| 0 <= a < b < l.len() implies #[trigger] name_le()(
                l[a],
                l[b],
            ) by {
                let sa = if a < k { a } else { a + 1 };
                let sb = if b < k { b } else { b + 1 };
                assert(l[a] == l0[sa] && l[b] == l0[sb]);
                assert(name_le()(l0[sa], l0[sb]));
            }
            assert forall|a: int, b: int| 0 <= a < l.len() && 0 <= b < l.len() && a != b implies l[a]
                != l[b] by {
                let sa = if a < k { a } else { a + 1 };
                let sb = if b < k { b } else { b + 1 };
                assert(l[a] == l0[sa] && l[b] == l0[sb]);
            }
        } else {
            assert(p == p0 && l == l0);
            assert forall|i: int| 0 <= i < p.len() implies recent.contains(#[trigger] p[i]) by {
                assert(rp.contains(p[i]));
            }
            assert forall|i: int, j: int| 0 <= i < j < p.len() implies first_index(
                recent,
                #[trigger] p[i],
            ) < first_index(recent, #[trigger] p[j]) by {
                assert(rp.contains(p[i]));
                assert(rp.contains(p[j]));
            }
            assert forall|i: int| 0 <= i < l.len() implies !recent.contains(#[trigger] l[i]) by {
                assert(!rp.contains(l[i]));
                assert(l[i] != r) by {
                    assert(l.contains(l[i]));
                }
                if recent.contains(l[i]) {
                    let m = choose|m: int| 0 <= m < recent.len() && recent[m] == l[i];
                    if m < rp.len() {
                        assert(rp[m] == l[i]);
                    }
                }
            }
        }
    }
}

/// Recently used folders come first: when the visible folder names are
/// distinct, the listing is a rearrangement of them that starts with the
/// recent ones present (each once, in order of recency) and continues with
/// the others, none of them recent, in alphabetical order.
pub proof fn lemma_subdir_order_recent_first(names: Seq<Seq<char>>, recent: Seq<Seq<char>>)
    requires
        distinct_names(visible_names(names)),
    ensures
        exists|k: int|
            0 <= k <= subdir_order(names, recent).len() && recent_first_shape(
                subdir_order(names, recent),
                k,
                visible_names(names),
                recent,
            ),
{
    let v = visible_names(names);
    let sorted = sorted_names(v);
    lemma_chars_le_total_ordering();
    v.lemma_sort_by_ensures(name_le());
    assert forall|i: int, j: int| 0 <= i < sorted.len() && 0 <= j < sorted.len() && i != j
        implies sorted[i] != sorted[j] by {
        if sorted[i] == sorted[j] {
            // Equal entries in `sorted` would occur twice in `v`.
            lemma_multiset_count_two(sorted, i, j);
            assert(sorted.to_multiset().count(sorted[i]) >= 2);
            lemma_distinct_count(v, sorted[i]);
        }
    }
    lemma_take_recent_split(sorted, recent);
    let (p, l) = take_recent(sorted, recent);
    let out = subdir_order(names, recent);
    assert(out == p + l);
    let k = p.len() as int;
    assert(out.subrange(0, k) =~= p);
    assert(out.subrange(k, out.len() as int) =~= l);
    vstd::seq_lib::lemma_multiset_commutative(p, l);
    assert(recent_first_shape(out, k, v, recent));
}

/// `out` is a rearrangement of `names` made of `k` recent names, each
/// once and in order of recency, followed by the other names sorted.
pub open spec fn recent_first_shape(
    out: Seq<Seq<char>>,
    k: int,
    names: Seq<Seq<char>>,
    recent: Seq<Seq<char>>,
) -> bool {
    &&& out.to_multiset() == names.to_multiset()
    &&& forall|i: int| 0 <= i < k ==> recent.contains(#[trigger] out[i])
    &&& forall|i: int, j: int|
        0 <= i < j < k ==> first_index(recent, #[trigger] out[i]) < first_index(recent, #[trigger] out[j])
    &&& forall|i: int| k <= i < out.len() ==> !recent.contains(#[trigger] out[i])
    &&& sorted_by(out.subrange(k, out.len() as int), name_le())
}

proof fn lemma_multiset_count_two(s: Seq<Seq<char>>, i: int, j: int)
    requires
        0 <= i < s.len(),
        0 <= j < s.len(),
        i != j,
        s[i] == s[j],
    ensures
        s.to_multiset().count(s[i]) >= 2,
{
    let (a, b) = if i < j { (i, j) } else { (j, i) };
    let x = s[i];
    let t = s.remove(b);
    vstd::seq_lib::to_multiset_remove(s, b);
    assert(t[a] == x);
    assert(t.contains(x));
    assert(t.to_multiset().count(x) >= 1);
}

proof fn lemma_distinct_count(s: Seq<Seq<char>>, x: Seq<char>)
    requires
        distinct_names(s),
    ensures
        s.to_multiset().count(x) <= 1,
    decreases s.len(),
{
    if s.len() > 0 {
        let t = s.drop_last();
        assert forall|i: int, j: int| 0 <= i < t.len() && 0 <= j < t.len() && i != j implies t[i]
            != t[j] by {
            assert(t[i] == s[i] && t[j] == s[j]);
        }
        lemma_distinct_count(t, x);
        assert(s =~= t.push(s.last()));
        if s.last() == x {
            assert(!t.contains(x)) by {
                if t.contains(x) {
                    let i = choose|i: int| 0 <= i < t.len() && t[i] == x;
                    assert(s[i] == s[s.len() - 1]);
                }
            }
        }
    }
}

proof fn lemma_sorted_names_distinct(v: Seq<Seq<char>>)
    requires
        distinct_names(v),
    ensures
        distinct_names(sorted_names(v)),
        sorted_by(sorted_names(v), name_le()),
        sorted_names(v).to_multiset() == v.to_multiset(),
{
    let sorted = sorted_names(v);
    lemma_chars_le_total_ordering();
    v.lemma_sort_by_ensures(name_le());
    assert forall|i: int, j: int| 0 <= i < sorted.len() && 0 <= j < sorted.len() && i != j
        implies sorted[i] != sorted[j] by {
        if sorted[i] == sorted[j] {
            lemma_multiset_count_two(sorted, i, j);
            assert(sorted.to_multiset().count(sorted[i]) >= 2);
            lemma_distinct_count(v, sorted[i]);
        }
    }
}

/// Position of `x` in `l`, which holds it.
proof fn lemma_first_index_in(l: Seq<Seq<char>>, x: Seq<char>)
    requires
        l.contains(x),
    ensures
        0 <= first_index(l, x) < l.len(),
        l[first_index(l, x)] == x,
        forall|j: int| 0 <= j < first_index(l, x) ==> l[j] != x,
{
    let ki = choose|i: int| 0 <= i < l.len() && l[i] == x;
    lemma_exists_first(l, x, ki);
}

/// The two runs of [`take_recent`] before and after renaming `old` to
/// `new`, over the first `k` recent names.
#[verifier::spinoff_prover]
#[verifier::rlimit(80)]
proof fn lemma_rename_take(
    sorted: Seq<Seq<char>>,
    sorted2: Seq<Seq<char>>,
    recent: Seq<Seq<char>>,
    f: int,
    old: Seq<char>,
    new: Seq<char>,
    k: int,
)
    requires
        0 <= k <= recent.len(),
        0 <= f < recent.len(),
        recent[f] == old,
        forall|j: int| 0 <= j < f ==> recent[j] != old,
        !recent.contains(new),
        old != new,
        sorted.to_multiset().count(old) == 1,
        sorted2.to_multiset() == sorted.to_multiset().remove(old).insert(new),
    ensures
        k <= f ==> {
            &&& take_recent(sorted2, recent.update(f, new).take(k)).0 == take_recent(sorted, recent.take(k)).0
            &&& take_recent(sorted2, recent.update(f, new).take(k)).1.to_multiset() == take_recent(
                sorted,
                recent.take(k),
            ).1.to_multiset().remove(old).insert(new)
            &&& take_recent(sorted, recent.take(k)).1.to_multiset().count(old) == 1
        },
        k > f ==> {
            &&& exists|q: int|
                0 <= q < take_recent(sorted, recent.take(k)).0.len() && take_recent(sorted, recent.take(k)).0[q]
                    == old && take_recent(sorted2, recent.update(f, new).take(k)).0 == take_recent(
                    sorted,
                    recent.take(k),
                ).0.update(q, new)
            &&& take_recent(sorted2, recent.update(f, new).take(k)).1.to_multiset() == take_recent(
                sorted,
                recent.take(k),
            ).1.to_multiset()
        },
    decreases k,
{
    broadcast use vstd::multiset::group_multiset_axioms;

    let r2 = recent.update(f, new);
    if k == 0 {
        assert(recent.take(0) =~= Seq::<Seq<char>>::empty());
        assert(r2.take(0) =~= Seq::<Seq<char>>::empty());
        assert(sorted2.to_multiset() =~= sorted.to_multiset().remove(old).insert(new));
    } else {
        lemma_rename_take(sorted, sorted2, recent, f, old, new, k - 1);
        assert(recent.take(k).drop_last() =~= recent.take(k - 1));
        assert(r2.take(k).drop_last() =~= r2.take(k - 1));
        let x = recent[k - 1];
        let x2 = r2[k - 1];
        assert(recent.take(k).last() == x);
        assert(r2.take(k).last() == x2);
        let (p, l) = take_recent(sorted, recent.take(k - 1));
        let (p2, l2) = take_recent(sorted2, r2.take(k - 1));
        let (pk, lk) = take_recent(sorted, recent.take(k));
        let (pk2, lk2) = take_recent(sorted2, r2.take(k));
        if l.contains(x) {
            lemma_first_index_in(l, x);
            vstd::seq_lib::to_multiset_remove(l, first_index(l, x));
        }
        if l2.contains(x2) {
            lemma_first_index_in(l2, x2);
            vstd::seq_lib::to_multiset_remove(l2, first_index(l2, x2));
        }
        if k - 1 < f {
            assert(x2 == x);
            assert(x != old);
            assert(x != new) by {
                assert(recent.contains(x));
            }
            assert(l2.to_multiset().count(x) == l.to_multiset().count(x));
            assert(l.contains(x) <==> l2.contains(x));
            if l.contains(x) {
                assert(pk == p.push(x) && pk2 == p2.push(x));
                assert(lk2.to_multiset() =~= lk.to_multiset().remove(old).insert(new));
            } else {
                assert(pk == p && pk2 == p2);
            }
        } else if k - 1 == f {
            assert(x == old && x2 == new);
            assert(l.to_multiset().count(old) == 1);
            assert(l.contains(old));
            assert(l2.to_multiset().count(new) >= 1);
            assert(l2.contains(new));
            assert(pk == p.push(old));
            assert(pk2 == p2.push(new));
            assert(pk2 =~= pk.update(p.len() as int, new));
            assert(pk[p.len() as int] == old);
            assert(lk2.to_multiset() =~= lk.to_multiset());
        } else {
            assert(x2 == x);
            let q = choose|q: int| 0 <= q < p.len() && p[q] == old && p2 == p.update(q, new);
            assert(l.contains(x) <==> l2.contains(x)) by {
                assert(l2.to_multiset().count(x) == l.to_multiset().count(x));
            }
            if l.contains(x) {
                assert(pk == p.push(x) && pk2 == p2.push(x));
                assert(pk2 =~= pk.update(q, new));
                assert(pk[q] == old);
                assert(lk2.to_multiset() =~= lk.to_multiset());
            } else {
                assert(pk == p && pk2 == p2);
                assert(pk[q] == old);
            }
        }
    }
}

/// Renaming a recently used folder keeps its place in the listing: when
/// the visible folder names after the renaming are those before with `old`
/// replaced by `new`, and the first recent entry `old` became `new`, the
/// listing is the one before with `new` where `old` stood.
#[verifier::spinoff_prover]
#[verifier::rlimit(80)]
pub proof fn lemma_rename_keeps_place(
    names: Seq<Seq<char>>,
    names2: Seq<Seq<char>>,
    recent: Seq<Seq<char>>,
    old: Seq<char>,
    new: Seq<char>,
)
    requires
        distinct_names(visible_names(names)),
        distinct_names(visible_names(names2)),
        visible_names(names).contains(old),
        !visible_names(names).contains(new),
        visible_names(names2).to_multiset() == visible_names(names).to_multiset().remove(old).insert(new),
        recent.contains(old),
        !recent.contains(new),
    ensures
        exists|q: int|
            0 <= q < subdir_order(names, recent).len() && subdir_order(names, recent)[q] == old
                && subdir_order(names2, recent.update(first_index(recent, old), new)) == subdir_order(
                names,
                recent,
            ).update(q, new),
{
    broadcast use vstd::multiset::group_multiset_axioms;

    let v = visible_names(names);
    let v2 = visible_names(names2);
    let sorted = sorted_names(v);
    let sorted2 = sorted_names(v2);
    lemma_sorted_names_distinct(v);
    lemma_sorted_names_distinct(v2);
    lemma_chars_le_total_ordering();
    lemma_first_index_in(recent, old);
    let f = first_index(recent, old);
    assert(old != new);
    assert(sorted.to_multiset().count(old) == 1) by {
        lemma_distinct_count(sorted, old);
        assert(sorted.to_multiset().contains(old));
    }
    lemma_rename_take(sorted, sorted2, recent, f, old, new, recent.len() as int);
    assert(recent.take(recent.len() as int) =~= recent);
    let r2 = recent.update(f, new);
    assert(r2.take(r2.len() as int) =~= r2);
    lemma_take_recent_split(sorted, recent);
    lemma_take_recent_split(sorted2, r2);
    let (p, l) = take_recent(sorted, recent);
    let (p2, l2) = take_recent(sorted2, r2);
    vstd::seq_lib::lemma_sorted_unique(l, l2, name_le());
    assert(l == l2);
    let q = choose|q: int| 0 <= q < p.len() && p[q] == old && p2 == p.update(q, new);
    assert(subdir_order(names, recent) == p + l);
    assert(subdir_order(names2, r2) == p2 + l2);
    assert((p + l)[q] == old);
    assert(p2 + l2 =~= (p + l).update(q, new));
}

} // verus!
