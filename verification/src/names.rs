//! File names: the stem/extension split used for collisions and file kinds,
//! and the choice of a free name when a destination is taken.
use vstd::prelude::*;
use vstd::string::*;
use crate::text::{decimal, decimal_string, lemma_decimal_injective, str_equal};

verus! {

/// The views of a list of strings.
pub open spec fn names_view(v: Seq<String>) -> Seq<Seq<char>> {
    v.map_values(|s: String| s@)
}

/// The view of an optional string.
pub open spec fn opt_view(o: Option<String>) -> Option<Seq<char>> {
    match o {
        Some(s) => Some(s@),
        None => None,
    }
}

/// Index of the last `'/'` in `s`, or -1 when there is none.
pub open spec fn last_slash(s: Seq<char>) -> int
    decreases s.len(),
{
    if s.len() == 0 {
        -1
    } else if s.last() == '/' {
        s.len() - 1
    } else {
        last_slash(s.drop_last())
    }
}

/// The last slash lies inside the text, and no slash follows it.
pub proof fn lemma_last_slash_range(s: Seq<char>)
    ensures
        -1 <= last_slash(s) < s.len(),
        last_slash(s) >= 0 ==> s[last_slash(s)] == '/',
        forall|j: int| last_slash(s) < j < s.len() ==> s[j] != '/',
    decreases s.len(),
{
    if s.len() > 0 && s.last() != '/' {
        lemma_last_slash_range(s.drop_last());
        assert forall|j: int| last_slash(s) < j < s.len() implies s[j] != '/' by {
            if j < s.len() - 1 {
                assert(s.drop_last()[j] == s[j]);
            }
        }
    }
}

/// The last part of `p` between slashes that is neither empty nor `.`,
/// if there is one.
pub open spec fn last_part(p: Seq<char>) -> Option<Seq<char>>
    decreases p.len(),
{
    if p.len() == 0 {
        None
    } else {
        let k = last_slash(p);
        let part = p.skip(k + 1);
        if part.len() == 0 || part == seq!['.'] {
            if k < 0 {
                None
            } else {
                proof {
                    lemma_last_slash_range(p);
                }
                last_part(p.take(k))
            }
        } else {
            Some(part)
        }
    }
}

/// The final component of a path, as `std::path::Path::file_name` finds it
/// on Unix: the last part between slashes that is neither empty nor `.`,
/// unless that part is `..`.
pub open spec fn path_file_name(path: Seq<char>) -> Option<Seq<char>> {
    match last_part(path) {
        Some(part) => if part == seq!['.', '.'] {
            None
        } else {
            Some(part)
        },
        None => None,
    }
}

/// Index of the last `'/'` among the first `end` characters of `path`.
fn find_last_slash(path: &str, end: usize) -> (r: Option<usize>)
    requires
        end <= path@.len(),
    ensures
        match r {
            Some(i) => i as int == last_slash(path@.take(end as int)),
            None => last_slash(path@.take(end as int)) == -1,
        },
{
    let mut found: Option<usize> = None;
    let mut i: usize = 0;
    assert(path@.take(0) =~= Seq::<char>::empty());
    while i < end
        invariant
            end <= path@.len(),
            i <= end,
            match found {
                Some(k) => k as int == last_slash(path@.take(i as int)),
                None => last_slash(path@.take(i as int)) == -1,
            },
        decreases end - i,
    {
        assert(path@.take(i + 1).drop_last() =~= path@.take(i as int));
        if path.get_char(i) == '/' {
            found = Some(i);
        }
        i = i + 1;
    }
    found
}

/// The final component of `path` (see [`path_file_name`]).
pub fn file_name_of(path: &str) -> (r: Option<String>)
    ensures
        opt_view(r) == path_file_name(path@),
{
    let mut end: usize = path.unicode_len();
    assert(path@.take(end as int) =~= path@);
    loop
        invariant
            end <= path@.len(),
            last_part(path@.take(end as int)) == last_part(path@),
        decreases end,
    {
        let ghost p = path@.take(end as int);
        if end == 0 {
            return None;
        }
        proof {
            lemma_last_slash_range(p);
        }
        let k = find_last_slash(path, end);
        let start: usize = match k {
            Some(i) => i + 1,
            None => 0,
        };
        assert(p.skip(start as int) =~= path@.subrange(start as int, end as int));
        let is_dot = end - start == 1 && path.get_char(start) == '.';
        if end == start || is_dot {
            proof {
                if is_dot {
                    assert(p.skip(start as int) =~= seq!['.']);
                }
            }
            match k {
                None => {
                    return None;
                },
                Some(i) => {
                    assert(p.take(i as int) =~= path@.take(i as int));
                    end = i;
                },
            }
        } else {
            proof {
                if p.skip(start as int) == seq!['.'] {
                    assert(p.skip(start as int)[0] == path@[start as int]);
                }
            }
            let part = path.substring_char(start, end);
            proof {
                reveal_strlit("..");
                assert(".."@ =~= seq!['.', '.']);
            }
            if str_equal(part, "..") {
                return None;
            }
            return Some(String::from_str(part));
        }
    }
}

/// Index of the last `'.'` in `s`, or -1 when there is none.
pub open spec fn last_dot(s: Seq<char>) -> int
    decreases s.len(),
{
    if s.len() == 0 {
        -1
    } else if s.last() == '.' {
        s.len() - 1
    } else {
        last_dot(s.drop_last())
    }
}

/// The stem of a file name (`Path::file_stem`): everything before the last
/// dot, unless the name is `..`, has no dot, or its only dot leads.
pub open spec fn name_stem(name: Seq<char>) -> Seq<char> {
    if name == seq!['.', '.'] || last_dot(name) <= 0 {
        name
    } else {
        name.take(last_dot(name))
    }
}

/// The extension of a file name (`Path::extension`): what follows the last
/// dot, under the same exceptions as [`name_stem`].
pub open spec fn name_extension(name: Seq<char>) -> Option<Seq<char>> {
    if name == seq!['.', '.'] || last_dot(name) <= 0 {
        None
    } else {
        Some(name.skip(last_dot(name) + 1))
    }
}

proof fn lemma_last_dot_step(s: Seq<char>, i: int)
    requires
        0 <= i < s.len(),
    ensures
        last_dot(s.take(i + 1)) == if s[i] == '.' { i } else { last_dot(s.take(i)) },
{
    assert(s.take(i + 1).drop_last() =~= s.take(i));
}

proof fn lemma_last_dot_range(s: Seq<char>)
    ensures
        -1 <= last_dot(s) < s.len(),
        last_dot(s) >= 0 ==> s[last_dot(s)] == '.',
    decreases s.len(),
{
    if s.len() > 0 && s.last() != '.' {
        lemma_last_dot_range(s.drop_last());
    }
}

/// Index of the last dot of `name`, or `None`.
fn find_last_dot(name: &str) -> (r: Option<usize>)
    ensures
        match r {
            Some(i) => i as int == last_dot(name@),
            None => last_dot(name@) == -1,
        },
{
    let len = name.unicode_len();
    let mut found: Option<usize> = None;
    let mut i: usize = 0;
    assert(name@.take(0) =~= Seq::<char>::empty());
    while i < len
        invariant
            len == name@.len(),
            i <= len,
            match found {
                Some(k) => k as int == last_dot(name@.take(i as int)),
                None => last_dot(name@.take(i as int)) == -1,
            },
        decreases len - i,
    {
        proof {
            lemma_last_dot_step(name@, i as int);
        }
        if name.get_char(i) == '.' {
            found = Some(i);
        }
        i = i + 1;
    }
    assert(name@.take(len as int) =~= name@);
    found
}

/// Splits a file name into its stem and extension, the way
/// `Path::file_stem` and `Path::extension` do.
pub fn split_file_name(name: &str) -> (r: (String, Option<String>))
    ensures
        r.0@ == name_stem(name@),
        opt_view(r.1) == name_extension(name@),
{
    proof {
        reveal_strlit("..");
        lemma_last_dot_range(name@);
        assert(".."@ =~= seq!['.', '.']);
    }
    if str_equal(name, "..") {
        return (String::from_str(name), None);
    }
    match find_last_dot(name) {
        Some(i) => {
            if i == 0 {
                (String::from_str(name), None)
            } else {
                let len = name.unicode_len();
                let stem = name.substring_char(0, i);
                let ext = name.substring_char(i + 1, len);
                assert(stem@ =~= name@.take(i as int));
                assert(ext@ =~= name@.skip(i + 1));
                (String::from_str(stem), Some(String::from_str(ext)))
            }
        },
        None => (String::from_str(name), None),
    }
}


/// The name `stem_k.ext` (or `stem_k` without an extension) tried as the
/// `k`-th alternative when a destination name is taken.
pub open spec fn candidate_name(stem: Seq<char>, ext: Option<Seq<char>>, k: nat) -> Seq<char> {
    stem + seq!['_'] + decimal(k) + match ext {
        Some(e) => seq!['.'] + e,
        None => Seq::<char>::empty(),
    }
}

/// The `k`-th alternative to the file name `name`.
pub open spec fn numbered_name(name: Seq<char>, k: nat) -> Seq<char> {
    candidate_name(name_stem(name), name_extension(name), k)
}

/// Some alternative numbered from 1 to `u32::MAX` is not among `taken`.
pub open spec fn has_free_numbered_name(name: Seq<char>, taken: Seq<Seq<char>>) -> bool {
    exists|k: nat| 1 <= k <= u32::MAX && !taken.contains(#[trigger] numbered_name(name, k))
}

/// The name that a file named `name` gets in a folder whose entries are
/// `taken`: `name` itself when free, else the first free alternative.
pub open spec fn is_resolved_name(name: Seq<char>, taken: Seq<Seq<char>>, r: Seq<char>) -> bool {
    if !taken.contains(name) {
        r == name
    } else {
        exists|k: nat|
            1 <= k <= u32::MAX && r == #[trigger] numbered_name(name, k) && !taken.contains(r)
                && forall|j: nat| 1 <= j < k ==> taken.contains(#[trigger] numbered_name(name, j))
    }
}

/// The name that a file called `name` gets in a folder whose entries are
/// `taken` (see [`is_resolved_name`]; it is unique, see
/// [`lemma_resolved_name_unique`]).
pub open spec fn resolved_name(name: Seq<char>, taken: Seq<Seq<char>>) -> Seq<char> {
    choose|r: Seq<char>| is_resolved_name(name, taken, r)
}

/// At most one name is the resolved name.
pub proof fn lemma_resolved_name_unique(name: Seq<char>, taken: Seq<Seq<char>>, a: Seq<char>, b: Seq<char>)
    requires
        is_resolved_name(name, taken, a),
        is_resolved_name(name, taken, b),
    ensures
        a == b,
{
    if taken.contains(name) {
        let ka = choose|k: nat|
            1 <= k <= u32::MAX && a == #[trigger] numbered_name(name, k) && !taken.contains(a)
                && forall|j: nat| 1 <= j < k ==> taken.contains(#[trigger] numbered_name(name, j));
        let kb = choose|k: nat|
            1 <= k <= u32::MAX && b == #[trigger] numbered_name(name, k) && !taken.contains(b)
                && forall|j: nat| 1 <= j < k ==> taken.contains(#[trigger] numbered_name(name, j));
        if ka < kb {
            assert(taken.contains(numbered_name(name, ka)));
        } else if kb < ka {
            assert(taken.contains(numbered_name(name, kb)));
        }
    }
}

/// Two alternatives with different numbers are different names.
pub proof fn lemma_numbered_names_distinct(name: Seq<char>, j: nat, k: nat)
    requires
        j != k,
    ensures
        numbered_name(name, j) != numbered_name(name, k),
{
    let pre = name_stem(name) + seq!['_'];
    let post = match name_extension(name) {
        Some(e) => seq!['.'] + e,
        None => Seq::<char>::empty(),
    };
    let x = numbered_name(name, j);
    let y = numbered_name(name, k);
    assert(x =~= pre + decimal(j) + post);
    assert(y =~= pre + decimal(k) + post);
    if x == y {
        assert(decimal(j).len() == decimal(k).len());
        assert(x.subrange(pre.len() as int, (pre.len() + decimal(j).len()) as int) =~= decimal(j));
        assert(y.subrange(pre.len() as int, (pre.len() + decimal(k).len()) as int) =~= decimal(k));
        lemma_decimal_injective(j, k);
    }
}

/// A free name is always found: when fewer than `u32::MAX` names are taken,
/// one of the first `taken.len() + 1` alternatives is free.
pub proof fn lemma_free_numbered_name(name: Seq<char>, taken: Seq<Seq<char>>)
    requires
        taken.len() < u32::MAX,
    ensures
        exists|k: nat|
            1 <= k <= taken.len() + 1 && !taken.contains(#[trigger] numbered_name(name, k)),
        has_free_numbered_name(name, taken),
{
    let n = taken.len();
    let cands = Seq::new((n + 1) as nat, |i: int| numbered_name(name, (i + 1) as nat));
    if forall|k: nat| 1 <= k <= n + 1 ==> taken.contains(#[trigger] numbered_name(name, k)) {
        assert forall|i: int, j: int| 0 <= i < cands.len() && 0 <= j < cands.len() && i != j
            implies cands[i] != cands[j] by {
            lemma_numbered_names_distinct(name, (i + 1) as nat, (j + 1) as nat);
        }
        cands.unique_seq_to_set();
        assert forall|x: Seq<char>| cands.to_set().contains(x) implies taken.to_set().contains(x) by {
            let i = choose|i: int| 0 <= i < cands.len() && cands[i] == x;
            assert(taken.contains(numbered_name(name, (i + 1) as nat)));
        }
        taken.lemma_cardinality_of_set();
        vstd::set_lib::lemma_len_subset(cands.to_set(), taken.to_set());
        assert(false);
    }
    let k = choose|k: nat| !(1 <= k <= n + 1 ==> taken.contains(#[trigger] numbered_name(name, k)));
    assert(1 <= k <= u32::MAX && !taken.contains(numbered_name(name, k)));
}

/// `true` when one of `taken` is `name`.
pub fn contains_name(taken: &Vec<String>, name: &str) -> (r: bool)
    ensures
        r == names_view(taken@).contains(name@),
{
    let mut i: usize = 0;
    while i < taken.len()
        invariant
            i <= taken.len(),
            forall|j: int| 0 <= j < i ==> taken@[j]@ != name@,
        decreases taken.len() - i,
    {
        if str_equal(taken[i].as_str(), name) {
            assert(names_view(taken@)[i as int] == name@);
            return true;
        }
        i = i + 1;
    }
    assert forall|j: int| 0 <= j < names_view(taken@).len() implies names_view(taken@)[j] != name@ by {
        assert(names_view(taken@)[j] == taken@[j]@);
    }
    false
}

fn make_candidate(stem: &String, ext: &Option<String>, k: u32) -> (r: String)
    ensures
        r@ == candidate_name(stem@, opt_view(*ext), k as nat),
{
    proof {
        reveal_strlit("_");
        reveal_strlit(".");
    }
    let mut r = stem.clone();
    r.append("_");
    let d = decimal_string(k as u64);
    r.append(d.as_str());
    match ext {
        Some(e) => {
            r.append(".");
            r.append(e.as_str());
            assert(r@ =~= candidate_name(stem@, opt_view(*ext), k as nat));
        },
        None => {
            assert(r@ =~= candidate_name(stem@, opt_view(*ext), k as nat));
        },
    }
    r
}

/// The `k`-th name tried for a file called `name`: the name itself for 0,
/// else its `k`-th numbered alternative (`stem_k.ext`).
pub fn collision_candidate(name: &str, k: u32) -> (r: String)
    ensures
        r@ == if k == 0 { name@ } else { numbered_name(name@, k as nat) },
{
    if k == 0 {
        return String::from_str(name);
    }
    let (stem, ext) = split_file_name(name);
    make_candidate(&stem, &ext, k)
}

/// The name under which a file called `name` lands in a folder whose
/// entries are `taken`: `name` itself if free, otherwise `stem_1.ext`,
/// `stem_2.ext`, ... up to the first that is free.
pub fn resolve_collision(name: &str, taken: &Vec<String>) -> (r: String)
    requires
        names_view(taken@).contains(name@) ==> has_free_numbered_name(name@, names_view(taken@)),
    ensures
        is_resolved_name(name@, names_view(taken@), r@),
        r@ == resolved_name(name@, names_view(taken@)),
{
    let r = resolve_name(name, taken);
    proof {
        lemma_resolved_name_unique(name@, names_view(taken@), r@, resolved_name(name@, names_view(taken@)));
    }
    r
}

fn resolve_name(name: &str, taken: &Vec<String>) -> (r: String)
    requires
        names_view(taken@).contains(name@) ==> has_free_numbered_name(name@, names_view(taken@)),
    ensures
        is_resolved_name(name@, names_view(taken@), r@),
{
    let ghost t = names_view(taken@);
    if !contains_name(taken, name) {
        return String::from_str(name);
    }
    let (stem, ext) = split_file_name(name);
    let mut counter: u32 = 1;
    loop
        invariant
            1 <= counter,
            t == names_view(taken@),
            t.contains(name@),
            has_free_numbered_name(name@, t),
            stem@ == name_stem(name@),
            opt_view(ext) == name_extension(name@),
            forall|j: nat| 1 <= j < counter ==> t.contains(#[trigger] numbered_name(name@, j)),
        decreases u32::MAX - counter,
    {
        let c = make_candidate(&stem, &ext, counter);
        assert(c@ == numbered_name(name@, counter as nat));
        if !contains_name(taken, c.as_str()) {
            return c;
        }
        if counter == u32::MAX {
            proof {
                let k = choose|k: nat|
                    1 <= k <= u32::MAX && !t.contains(#[trigger] numbered_name(name@, k));
                assert(k < counter || k == counter);
                assert(false);
            }
        }
        counter = counter + 1;
    }
}

} // verus!
