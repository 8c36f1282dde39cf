//! Ranking folder names against what has been typed at the prompt.
use vstd::prelude::*;
use vstd::string::*;
use crate::names::names_view;
use fuzzy_matcher::skim::SkimMatcherV2;
use fuzzy_matcher::FuzzyMatcher;

verus! {

broadcast use vstd::seq_lib::group_seq_properties;

/// The score that `fuzzy_matcher`'s `SkimMatcherV2` (default settings)
/// gives `choice` for `pattern`, `None` when `pattern` does not match.
pub uninterp spec fn fuzzy_score(choice: Seq<char>, pattern: Seq<char>) -> Option<i64>;

/// Calls `SkimMatcherV2::default().fuzzy_match(choice, pattern)`. The result
/// depends only on the two texts (the matcher's caches only hold scratch
/// buffers), so it is named [`fuzzy_score`]; of the scoring the contract
/// states only that an empty pattern matches with score 0.
#[verifier::external_body]
fn fuzzy_match(choice: &str, pattern: &str) -> (r: Option<i64>)
    ensures
        r == fuzzy_score(choice@, pattern@),
        pattern@.len() == 0 ==> r == Some(0i64),
{
    SkimMatcherV2::default().fuzzy_match(choice, pattern)
}

/// The abstract value of a scored name.
pub open spec fn scored_view(v: Seq<(String, i64)>) -> Seq<(Seq<char>, i64)> {
    v.map_values(|p: (String, i64)| (p.0@, p.1))
}

/// Selects the entries whose score is `k`.
pub open spec fn score_is(k: i64) -> spec_fn((Seq<char>, i64)) -> bool {
    |p: (Seq<char>, i64)| p.1 == k
}

/// `out` lists the entries of `input` by descending score, entries of equal
/// score keeping their order in `input` (a stable sort).
pub open spec fn is_ranking(input: Seq<(Seq<char>, i64)>, out: Seq<(Seq<char>, i64)>) -> bool {
    &&& forall|i: int, j: int| 0 <= i < j < out.len() ==> out[i].1 >= out[j].1
    &&& forall|k: i64| #[trigger] out.filter(score_is(k)) == input.filter(score_is(k))
}

/// The names of `dirs` that match `pattern`, with their scores, in order.
pub open spec fn scored_dirs(dirs: Seq<Seq<char>>, pattern: Seq<char>) -> Seq<(Seq<char>, i64)>
    decreases dirs.len(),
{
    if dirs.len() == 0 {
        Seq::empty()
    } else {
        let rest = scored_dirs(dirs.drop_last(), pattern);
        match fuzzy_score(dirs.last(), pattern) {
            Some(s) => rest.push((dirs.last(), s)),
            None => rest,
        }
    }
}

proof fn lemma_singleton_filter(x: (Seq<char>, i64), k: i64)
    ensures
        seq![x].filter(score_is(k)) == if x.1 == k { seq![x] } else { Seq::empty() },
{
    let e = Seq::<(Seq<char>, i64)>::empty();
    assert(seq![x] =~= e.push(x));
    e.lemma_filter_push(x, score_is(k));
    reveal_with_fuel(Seq::filter, 1);
    assert(e.filter(score_is(k)) =~= e);
}

/// The entries of [`scored_dirs`] are the matching names, each with its score.
proof fn lemma_scored_dirs_entries(dirs: Seq<Seq<char>>, pattern: Seq<char>)
    ensures
        forall|k: int|
            0 <= k < scored_dirs(dirs, pattern).len() ==> dirs.contains(#[trigger] scored_dirs(dirs, pattern)[k].0)
                && fuzzy_score(scored_dirs(dirs, pattern)[k].0, pattern) == Some(scored_dirs(dirs, pattern)[k].1),
        forall|d: Seq<char>|
            dirs.contains(d) && #[trigger] fuzzy_score(d, pattern) is Some ==> scored_dirs(dirs, pattern).contains(
                (d, fuzzy_score(d, pattern)->0),
            ),
    decreases dirs.len(),
{
    if dirs.len() > 0 {
        let rest = dirs.drop_last();
        lemma_scored_dirs_entries(rest, pattern);
        let sd = scored_dirs(dirs, pattern);
        let sr = scored_dirs(rest, pattern);
        assert forall|k: int| 0 <= k < sd.len() implies dirs.contains(#[trigger] sd[k].0) && fuzzy_score(
            sd[k].0,
            pattern,
        ) == Some(sd[k].1) by {
            if k < sr.len() {
                assert(sd[k] == sr[k]);
                let m = choose|m: int| 0 <= m < rest.len() && rest[m] == sr[k].0;
                assert(dirs[m] == sr[k].0);
            } else {
                assert(dirs[dirs.len() - 1] == sd[k].0);
            }
        }
        assert forall|d: Seq<char>| dirs.contains(d) && #[trigger] fuzzy_score(d, pattern) is Some implies sd.contains(
            (d, fuzzy_score(d, pattern)->0),
        ) by {
            let m = choose|m: int| 0 <= m < dirs.len() && dirs[m] == d;
            if m < dirs.len() - 1 {
                assert(rest[m] == d);
                let k = choose|k: int| 0 <= k < sr.len() && sr[k] == (d, fuzzy_score(d, pattern)->0);
                assert(sd[k] == sr[k]);
            } else {
                assert(sd[sd.len() - 1] == (d, fuzzy_score(d, pattern)->0));
            }
        }
    }
}

/// A ranking of the scored names lists exactly the matching names, each
/// with its score, a better score before a worse one.
proof fn lemma_ranking_of_matches(dirs: Seq<Seq<char>>, pattern: Seq<char>, out: Seq<(Seq<char>, i64)>)
    requires
        is_ranking(scored_dirs(dirs, pattern), out),
    ensures
        forall|i: int|
            0 <= i < out.len() ==> dirs.contains(#[trigger] out[i].0) && fuzzy_score(out[i].0, pattern) == Some(
                out[i].1,
            ),
        forall|d: Seq<char>|
            dirs.contains(d) && #[trigger] fuzzy_score(d, pattern) is Some ==> out.contains(
                (d, fuzzy_score(d, pattern)->0),
            ),
{
    let sd = scored_dirs(dirs, pattern);
    lemma_scored_dirs_entries(dirs, pattern);
    assert forall|i: int| 0 <= i < out.len() implies dirs.contains(#[trigger] out[i].0) && fuzzy_score(
        out[i].0,
        pattern,
    ) == Some(out[i].1) by {
        let k = out[i].1;
        out.lemma_filter_contains(score_is(k), i);
        assert(out.filter(score_is(k)) == sd.filter(score_is(k)));
        sd.lemma_filter_contains_rev(score_is(k), out[i]);
        let m = choose|m: int| 0 <= m < sd.len() && sd[m] == out[i];
        assert(dirs.contains(sd[m].0));
    }
    assert forall|d: Seq<char>| dirs.contains(d) && #[trigger] fuzzy_score(d, pattern) is Some implies out.contains(
        (d, fuzzy_score(d, pattern)->0),
    ) by {
        let e = (d, fuzzy_score(d, pattern)->0);
        let k = e.1;
        let m = choose|m: int| 0 <= m < sd.len() && sd[m] == e;
        sd.lemma_filter_contains(score_is(k), m);
        assert(out.filter(score_is(k)) == sd.filter(score_is(k)));
        out.lemma_filter_contains_rev(score_is(k), e);
    }
}

/// Orders scored names by descending score, keeping the order of equal
/// scores (the best match first).
pub fn rank_matches(scored: Vec<(String, i64)>) -> (r: Vec<(String, i64)>)
    ensures
        is_ranking(scored_view(scored@), scored_view(r@)),
{
    let ghost input = scored_view(scored@);
    let mut out: Vec<(String, i64)> = Vec::new();
    let mut i: usize = 0;
    let n = scored.len();
    let mut rest = scored;
    let mut items: Vec<(String, i64)> = Vec::new();
    // Reverse `rest` into `items` so that popping yields the input in order.
    while rest.len() > 0
        invariant
            input == scored_view(rest@) + scored_view(items@).reverse(),
        decreases rest.len(),
    {
        let ghost prev_rest = scored_view(rest@);
        let ghost prev_items = scored_view(items@);
        let p = rest.pop().unwrap();
        items.push(p);
        assert(prev_rest =~= scored_view(rest@).push((p.0@, p.1)));
        assert(scored_view(items@) =~= prev_items.push((p.0@, p.1)));
        assert(scored_view(items@).reverse() =~= seq![(p.0@, p.1)] + prev_items.reverse());
        assert(input =~= scored_view(rest@) + scored_view(items@).reverse());
    }
    assert(input =~= scored_view(items@).reverse());
    assert(input.take(0) =~= Seq::<(Seq<char>, i64)>::empty());
    assert(scored_view(out@) =~= Seq::<(Seq<char>, i64)>::empty());
    while items.len() > 0
        invariant
            i + items.len() == input.len(),
            n == input.len(),
            input.skip(i as int) == scored_view(items@).reverse(),
            forall|a: int, b: int|
                0 <= a < b < out@.len() ==> #[trigger] out@[a].1 >= #[trigger] out@[b].1,
            forall|k: i64| #[trigger] scored_view(out@).filter(score_is(k)) == input.take(i as int).filter(score_is(k)),
        decreases items.len(),
    {
        let ghost prev_items = scored_view(items@);
        let x = items.pop().unwrap();
        let ghost xv = (x.0@, x.1);
        assert(prev_items =~= scored_view(items@).push(xv));
        assert(input[i as int] == xv) by {
            assert(input.skip(i as int)[0] == prev_items.reverse()[0]);
        }
        assert(input.skip(i + 1) =~= scored_view(items@).reverse()) by {
            assert(input.skip(i + 1) =~= input.skip(i as int).drop_first());
        }
        let mut j: usize = 0;
        while j < out.len() && out[j].1 >= x.1
            invariant
                j <= out.len(),
                forall|k: int| 0 <= k < j ==> #[trigger] out@[k].1 >= x.1,
            decreases out.len() - j,
        {
            j = j + 1;
        }
        let ghost before = scored_view(out@);
        proof {
            assert forall|k: int| j <= k < out@.len() implies #[trigger] out@[k].1 < x.1 by {
                assert(out@[j as int].1 < x.1);
                if k > j {
                    assert(out@[j as int].1 >= out@[k].1);
                }
            }
        }
        let ghost out_before = out@;
        out.insert(j, x);
        proof {
            let after = scored_view(out@);
            let left = before.take(j as int);
            let right = before.skip(j as int);
            assert(before =~= left + right);
            assert(after =~= left + seq![xv] + right);
            assert(input.take(i + 1) =~= input.take(i as int).push(xv));
            assert forall|k: i64| #[trigger] after.filter(score_is(k)) == input.take(i + 1).filter(
                score_is(k),
            ) by {
                let p = score_is(k);
                vstd::seq::Seq::filter_distributes_over_add(left + seq![xv], right, p);
                vstd::seq::Seq::filter_distributes_over_add(left, seq![xv], p);
                vstd::seq::Seq::filter_distributes_over_add(left, right, p);
                lemma_singleton_filter(xv, k);
                input.take(i as int).lemma_filter_push(xv, p);
                assert(scored_view(out_before).filter(p) == input.take(i as int).filter(p));
                if k == x.1 {
                    assert forall|m: int| 0 <= m < right.len() implies !p(#[trigger] right[m]) by {
                        assert(right[m] == before[j + m]);
                        assert(out_before[j + m].1 < x.1);
                    }
                    right.lemma_all_neg_filter_empty(p);
                    assert(right.filter(p) =~= Seq::<(Seq<char>, i64)>::empty());
                    assert(after.filter(p) =~= left.filter(p).push(xv));
                    assert(before.filter(p) =~= left.filter(p));
                } else {
                    assert(after.filter(p) =~= left.filter(p) + right.filter(p));
                }
            }
            assert forall|a: int, b: int| 0 <= a < b < out@.len() implies #[trigger] out@[a].1
                >= #[trigger] out@[b].1 by {
                if b < j {
                    assert(out@[a] == out_before[a] && out@[b] == out_before[b]);
                } else if a < j && b == j {
                    assert(out@[a] == out_before[a]);
                } else if a < j {
                    assert(out@[a] == out_before[a] && out@[b] == out_before[b - 1]);
                } else if a == j {
                    assert(out@[b] == out_before[b - 1]);
                } else {
                    assert(out@[a] == out_before[a - 1] && out@[b] == out_before[b - 1]);
                }
            }
        }
        i = i + 1;
    }
    assert(input.take(i as int) =~= input);
    out
}


/// The folder names matched by what was typed, best first, with their
/// scores: with nothing typed, every name in its order with score 0;
/// otherwise the names that match, ranked by score.
pub fn compute_matches(input: &str, dirs: &Vec<String>) -> (r: Vec<(String, i64)>)
    ensures
        input@.len() == 0 ==> scored_view(r@) == names_view(dirs@).map_values(
            |d: Seq<char>| (d, 0i64),
        ),
        input@.len() > 0 ==> is_ranking(scored_dirs(names_view(dirs@), input@), scored_view(r@)),
        input@.len() > 0 ==> forall|i: int|
            0 <= i < r@.len() ==> names_view(dirs@).contains(#[trigger] r@[i].0@) && fuzzy_score(
                r@[i].0@,
                input@,
            ) == Some(r@[i].1),
        input@.len() > 0 ==> forall|i: int, j: int| 0 <= i < j < r@.len() ==> #[trigger] r@[i].1 >= #[trigger] r@[j].1,
        input@.len() > 0 ==> forall|d: Seq<char>|
            names_view(dirs@).contains(d) && #[trigger] fuzzy_score(d, input@) is Some ==> scored_view(r@).contains(
                (d, fuzzy_score(d, input@)->0),
            ),
{
    let ghost dv = names_view(dirs@);
    let mut scored: Vec<(String, i64)> = Vec::new();
    let mut i: usize = 0;
    let empty = input.unicode_len() == 0;
    assert(dv.take(0) =~= Seq::<Seq<char>>::empty());
    while i < dirs.len()
        invariant
            i <= dirs.len(),
            dv == names_view(dirs@),
            empty == (input@.len() == 0),
            empty ==> scored_view(scored@) == dv.take(i as int).map_values(|d: Seq<char>| (d, 0i64)),
            !empty ==> scored_view(scored@) == scored_dirs(dv.take(i as int), input@),
        decreases dirs.len() - i,
    {
        let d = dirs[i].clone();
        let ghost prev = scored_view(scored@);
        assert(dv.take(i + 1).drop_last() =~= dv.take(i as int));
        assert(dv.take(i + 1).last() == d@);
        if empty {
            scored.push((d, 0));
            assert(scored_view(scored@) =~= prev.push((dv[i as int], 0i64)));
            assert(dv.take(i + 1).map_values(|d: Seq<char>| (d, 0i64)) =~= dv.take(i as int).map_values(|d: Seq<char>| (d, 0i64)).push((dv[i as int], 0i64)));
            assert(scored_view(scored@) =~= dv.take(i + 1).map_values(|d: Seq<char>| (d, 0i64)));
        } else {
            match fuzzy_match(d.as_str(), input) {
                Some(score) => {
                    scored.push((d, score));
                    assert(scored_view(scored@) =~= prev.push((dv[i as int], score)));
                },
                None => {},
            }
        }
        i = i + 1;
    }
    assert(dv.take(dirs.len() as int) =~= dv);
    if empty {
        scored
    } else {
        let r = rank_matches(scored);
        proof {
            let rv = scored_view(r@);
            lemma_ranking_of_matches(dv, input@, rv);
            assert forall|i: int| 0 <= i < r@.len() implies names_view(dirs@).contains(#[trigger] r@[i].0@)
                && fuzzy_score(r@[i].0@, input@) == Some(r@[i].1) by {
                assert(rv[i] == (r@[i].0@, r@[i].1));
                assert(dv.contains(rv[i].0) && fuzzy_score(rv[i].0, input@) == Some(rv[i].1));
            }
            assert forall|i: int, j: int| 0 <= i < j < r@.len() implies #[trigger] r@[i].1 >= #[trigger] r@[j].1 by {
                assert(rv[i].1 == r@[i].1 && rv[j].1 == r@[j].1);
            }
        }
        r
    }
}

/// The names of ranked matches, in order.
pub fn match_names(matches: Vec<(String, i64)>) -> (r: Vec<String>)
    ensures
        names_view(r@) == scored_view(matches@).map_values(|p: (Seq<char>, i64)| p.0),
{
    let mut r: Vec<String> = Vec::new();
    let mut i: usize = 0;
    while i < matches.len()
        invariant
            i <= matches.len(),
            names_view(r@) == scored_view(matches@).take(i as int).map_values(
                |p: (Seq<char>, i64)| p.0,
            ),
        decreases matches.len() - i,
    {
        let ghost prev = names_view(r@);
        r.push(matches[i].0.clone());
        assert(names_view(r@) =~= prev.push(scored_view(matches@)[i as int].0));
        assert(scored_view(matches@).take(i + 1).map_values(|p: (Seq<char>, i64)| p.0) =~= scored_view(matches@).take(i as int).map_values(|p: (Seq<char>, i64)| p.0).push(scored_view(matches@)[i as int].0));
        assert(names_view(r@) =~= scored_view(matches@).take(i + 1).map_values(
            |p: (Seq<char>, i64)| p.0,
        ));
        i = i + 1;
    }
    assert(scored_view(matches@).take(i as int) =~= scored_view(matches@));
    r
}


/// Two lists sorted by descending score whose entries of each score are the
/// same, in the same order, are equal.
proof fn lemma_same_classes_equal(r1: Seq<(Seq<char>, i64)>, r2: Seq<(Seq<char>, i64)>)
    requires
        forall|i: int, j: int| 0 <= i < j < r1.len() ==> r1[i].1 >= r1[j].1,
        forall|i: int, j: int| 0 <= i < j < r2.len() ==> r2[i].1 >= r2[j].1,
        forall|k: i64| #[trigger] r1.filter(score_is(k)) == r2.filter(score_is(k)),
    ensures
        r1 == r2,
    decreases r1.len() + r2.len(),
{
    if r1.len() == 0 && r2.len() == 0 {
        assert(r1 =~= r2);
        return;
    }
    if r1.len() == 0 || (r2.len() > 0 && r2[0].1 > r1[0].1) {
        let k = r2[0].1;
        r2.lemma_filter_contains(score_is(k), 0);
        assert(r2.filter(score_is(k)).contains(r2[0]));
        assert(r1.filter(score_is(k)) == r2.filter(score_is(k)));
        r1.lemma_filter_contains_rev(score_is(k), r2[0]);
        let i = choose|i: int| 0 <= i < r1.len() && r1[i] == r2[0];
        assert(r1[0].1 >= r1[i].1);
        assert(false);
    }
    if r2.len() == 0 || r1[0].1 > r2[0].1 {
        let k = r1[0].1;
        r1.lemma_filter_contains(score_is(k), 0);
        assert(r1.filter(score_is(k)).contains(r1[0]));
        assert(r1.filter(score_is(k)) == r2.filter(score_is(k)));
        r2.lemma_filter_contains_rev(score_is(k), r1[0]);
        let i = choose|i: int| 0 <= i < r2.len() && r2[i] == r1[0];
        assert(r2[0].1 >= r2[i].1);
        assert(false);
    }
    let m = r1[0].1;
    let t1 = r1.drop_first();
    let t2 = r2.drop_first();
    assert(r1 =~= seq![r1[0]] + t1);
    assert(r2 =~= seq![r2[0]] + t2);
    assert forall|k: i64| #[trigger] t1.filter(score_is(k)) == t2.filter(score_is(k)) by {
        t1.lemma_filter_prepend(r1[0], score_is(k));
        t2.lemma_filter_prepend(r2[0], score_is(k));
        assert(r1.filter(score_is(k)) == r2.filter(score_is(k)));
        if k == m {
            assert((seq![r1[0]] + t1.filter(score_is(k))).drop_first() =~= t1.filter(score_is(k)));
            assert((seq![r2[0]] + t2.filter(score_is(k))).drop_first() =~= t2.filter(score_is(k)));
        } else {
            assert(Seq::<(Seq<char>, i64)>::empty() + t1.filter(score_is(k)) =~= t1.filter(score_is(k)));
            assert(Seq::<(Seq<char>, i64)>::empty() + t2.filter(score_is(k)) =~= t2.filter(score_is(k)));
        }
    }
    t1.lemma_filter_prepend(r1[0], score_is(m));
    t2.lemma_filter_prepend(r2[0], score_is(m));
    assert(r1.filter(score_is(m)) == r2.filter(score_is(m)));
    assert((seq![r1[0]] + t1.filter(score_is(m)))[0] == r1[0]);
    assert((seq![r2[0]] + t2.filter(score_is(m)))[0] == r2[0]);
    lemma_same_classes_equal(t1, t2);
}

/// The ranking of a list is unique: at most one list ranks it.
pub proof fn lemma_ranking_unique(
    input: Seq<(Seq<char>, i64)>,
    r1: Seq<(Seq<char>, i64)>,
    r2: Seq<(Seq<char>, i64)>,
)
    requires
        is_ranking(input, r1),
        is_ranking(input, r2),
    ensures
        r1 == r2,
{
    assert forall|k: i64| #[trigger] r1.filter(score_is(k)) == r2.filter(score_is(k)) by {
        assert(r1.filter(score_is(k)) == input.filter(score_is(k)));
        assert(r2.filter(score_is(k)) == input.filter(score_is(k)));
    }
    lemma_same_classes_equal(r1, r2);
}

/// The names that the prompt lists for `input` among `dirs`: all of them
/// when nothing is typed, else the ranking of the matching ones.
#[verifier::opaque]
pub open spec fn match_list(input: Seq<char>, dirs: Seq<Seq<char>>) -> Seq<Seq<char>> {
    if input.len() == 0 {
        dirs
    } else {
        (choose|r: Seq<(Seq<char>, i64)>| is_ranking(scored_dirs(dirs, input), r)).map_values(
            |p: (Seq<char>, i64)| p.0,
        )
    }
}

/// The names listed for `input` among `dirs` (see [`match_list`]).
pub fn matching_names(input: &str, dirs: &Vec<String>) -> (r: Vec<String>)
    ensures
        names_view(r@) == match_list(input@, names_view(dirs@)),
        input@.len() > 0 ==> forall|i: int|
            0 <= i < r@.len() ==> names_view(dirs@).contains(#[trigger] r@[i]@) && fuzzy_score(r@[i]@, input@) is Some,
        input@.len() > 0 ==> forall|i: int, j: int|
            0 <= i < j < r@.len() ==> fuzzy_score(#[trigger] r@[i]@, input@)->0 >= fuzzy_score(
                #[trigger] r@[j]@,
                input@,
            )->0,
        input@.len() > 0 ==> forall|d: Seq<char>|
            names_view(dirs@).contains(d) && #[trigger] fuzzy_score(d, input@) is Some ==> names_view(r@).contains(d),
{
    let m = compute_matches(input, dirs);
    let ghost ranked = scored_view(m@);
    let ghost mm = m@;
    let r = match_names(m);
    proof {
        assert(names_view(r@).len() == r@.len());
        assert(ranked.map_values(|p: (Seq<char>, i64)| p.0).len() == ranked.len());
        assert(ranked.len() == mm.len());
        assert(r@.len() == mm.len());
        if input@.len() > 0 {
            assert forall|i: int| 0 <= i < r@.len() implies names_view(dirs@).contains(#[trigger] r@[i]@)
                && fuzzy_score(r@[i]@, input@) is Some by {
                assert(names_view(r@)[i] == r@[i]@);
                assert(ranked.map_values(|p: (Seq<char>, i64)| p.0)[i] == ranked[i].0);
                assert(ranked[i] == (mm[i].0@, mm[i].1));
                assert(names_view(dirs@).contains(mm[i].0@) && fuzzy_score(mm[i].0@, input@) == Some(mm[i].1));
            }
            assert forall|i: int, j: int| 0 <= i < j < r@.len() implies fuzzy_score(#[trigger] r@[i]@, input@)->0
                >= fuzzy_score(#[trigger] r@[j]@, input@)->0 by {
                assert(names_view(r@)[i] == r@[i]@ && names_view(r@)[j] == r@[j]@);
                assert(ranked[i] == (mm[i].0@, mm[i].1) && ranked[j] == (mm[j].0@, mm[j].1));
                assert(fuzzy_score(mm[i].0@, input@) == Some(mm[i].1));
                assert(fuzzy_score(mm[j].0@, input@) == Some(mm[j].1));
                assert(mm[i].1 >= mm[j].1);
            }
            assert forall|d: Seq<char>| names_view(dirs@).contains(d) && #[trigger] fuzzy_score(d, input@) is Some
                implies names_view(r@).contains(d) by {
                let k = choose|k: int| 0 <= k < ranked.len() && ranked[k] == (d, fuzzy_score(d, input@)->0);
                assert(names_view(r@)[k] == ranked[k].0);
            }
        }
    }
    proof {
        reveal(match_list);
        if input@.len() == 0 {
            assert(names_view(r@) =~= names_view(dirs@));
        } else {
            let c = choose|c: Seq<(Seq<char>, i64)>| is_ranking(scored_dirs(names_view(dirs@), input@), c);
            lemma_ranking_unique(scored_dirs(names_view(dirs@), input@), c, ranked);
        }
    }
    r
}

} // verus!
