//! Collecting the files below the source folder: a walk that decides which
//! entries are kept and which folders are entered, one listing at a time.
use vstd::prelude::*;
use vstd::string::*;
use vstd::multiset::Multiset;
use vstd::relations::sorted_by;
use crate::names::names_view;
use crate::files::{is_hidden, starts_with_dot};
use crate::text::{chars_lt, lemma_chars_lt_transitive,
    lemma_chars_lt_trichotomy, str_equal, text_lt};

verus! {

broadcast use vstd::seq_lib::group_to_multiset_ensures, vstd::multiset::group_multiset_axioms;

/// One entry of a folder listing, as read from disk.
pub struct WalkEntry<P> {
    /// The entry's file name.
    pub name: String,
    /// The entry is a file (following symbolic links).
    pub is_file: bool,
    /// The entry is a folder (following symbolic links).
    pub is_dir: bool,
    /// The entry's full path.
    pub path: P,
}

/// A folder that the walk still has to list.
pub struct PendingDir<P> {
    /// The folder's full path.
    pub path: P,
    /// The names of the folders leading to it from the source folder.
    pub keys: Vec<String>,
    /// How many folders below the source folder it lies.
    pub depth: u16,
}

/// A file that the walk has collected.
pub struct FoundFile<P> {
    /// The names leading to the file from the source folder, the file's own
    /// name last.
    pub keys: Vec<String>,
    /// The file's full path.
    pub path: P,
}

/// The state of a walk below a source folder.
pub struct FileWalk<P> {
    max_depth: u16,
    pending: Vec<PendingDir<P>>,
    found: Vec<FoundFile<P>>,
    current: Option<(Vec<String>, u16)>,
}

/// The abstract value of a collected file: its name path and its path.
pub open spec fn file_view<P>(f: FoundFile<P>) -> (Seq<Seq<char>>, P) {
    (names_view(f.keys@), f.path)
}

/// The abstract value of a folder to list: its name path, path and depth.
pub open spec fn dir_view<P>(d: PendingDir<P>) -> (Seq<Seq<char>>, P, u16) {
    (names_view(d.keys@), d.path, d.depth)
}

/// No name on the path is hidden.
pub open spec fn keys_visible(keys: Seq<Seq<char>>) -> bool {
    forall|i: int| 0 <= i < keys.len() ==> !is_hidden(#[trigger] keys[i])
}

/// The files that a listing adds below the folder reached by `keys`: the
/// entries that are files and not hidden.
pub open spec fn files_in<P>(keys: Seq<Seq<char>>, es: Seq<WalkEntry<P>>) -> Multiset<
    (Seq<Seq<char>>, P),
>
    decreases es.len(),
{
    if es.len() == 0 {
        Multiset::empty()
    } else {
        let e = es.last();
        let rest = files_in(keys, es.drop_last());
        if !is_hidden(e.name@) && e.is_file {
            rest.insert((keys.push(e.name@), e.path))
        } else {
            rest
        }
    }
}

/// The folders that a listing at `depth` adds to the walk: the entries that
/// are folders, not files and not hidden, when `depth` is below `max_depth`.
pub open spec fn subdirs_in<P>(
    keys: Seq<Seq<char>>,
    depth: u16,
    max_depth: u16,
    es: Seq<WalkEntry<P>>,
) -> Multiset<(Seq<Seq<char>>, P, u16)>
    decreases es.len(),
{
    if es.len() == 0 {
        Multiset::empty()
    } else {
        let e = es.last();
        let rest = subdirs_in(keys, depth, max_depth, es.drop_last());
        if !is_hidden(e.name@) && !e.is_file && e.is_dir && depth < max_depth {
            rest.insert((keys.push(e.name@), e.path, (depth + 1) as u16))
        } else {
            rest
        }
    }
}

/// A folder that a walk down to `max_depth` may list.
pub open spec fn dir_within(d: (Seq<Seq<char>>, u16), max_depth: u16) -> bool {
    &&& d.0.len() == d.1
    &&& d.1 <= max_depth
    &&& keys_visible(d.0)
}

/// A file that a walk down to `max_depth` may collect.
pub open spec fn file_within(keys: Seq<Seq<char>>, max_depth: u16) -> bool {
    &&& 1 <= keys.len() <= max_depth + 1
    &&& keys_visible(keys)
}

/// `a` is a prefix of `b` (or equal to it).
pub open spec fn is_prefix(a: Seq<Seq<char>>, b: Seq<Seq<char>>) -> bool {
    a.len() <= b.len() && b.take(a.len() as int) == a
}

/// The names of a listing.
pub open spec fn names_of<P>(es: Seq<WalkEntry<P>>) -> Seq<Seq<char>> {
    es.map_values(|e: WalkEntry<P>| e.name@)
}

/// No name occurs twice in a listing (as in any folder listing).
pub open spec fn distinct_entry_names<P>(es: Seq<WalkEntry<P>>) -> bool {
    forall|i: int, j: int| 0 <= i < j < es.len() ==> #[trigger] es[i].name@ != #[trigger] es[j].name@
}

proof fn lemma_prefix_of_push(a: Seq<Seq<char>>, c: Seq<Seq<char>>, n: Seq<char>)
    requires
        is_prefix(a, c.push(n)),
    ensures
        a == c.push(n) || is_prefix(a, c),
{
    if a.len() == c.len() + 1 {
        assert(c.push(n).take(a.len() as int) =~= c.push(n));
    } else {
        assert(c.push(n).take(a.len() as int) =~= c.take(a.len() as int));
    }
}

proof fn lemma_push_prefix(c: Seq<Seq<char>>, m: Seq<char>, x: Seq<Seq<char>>)
    requires
        is_prefix(c.push(m), x),
    ensures
        is_prefix(c, x),
{
    assert(x.take(c.len() as int) =~= x.take((c.len() + 1) as int).take(c.len() as int));
    assert(c.push(m).take(c.len() as int) =~= c);
}

proof fn lemma_child_keys(c: Seq<Seq<char>>, m: Seq<char>, x: Seq<Seq<char>>)
    requires
        x.len() == c.len() + 1,
        is_prefix(c, x),
        is_prefix(c.push(m), x) || is_prefix(x, c.push(m)),
    ensures
        x.last() == m,
{
    assert(x.take(x.len() as int) =~= x);
    assert(c.push(m).take(x.len() as int) =~= c.push(m));
}

impl<P> FileWalk<P> {
    /// How many levels of subfolders the walk enters.
    pub closed spec fn depth_limit(&self) -> u16 {
        self.max_depth
    }

    /// The files collected so far.
    pub closed spec fn found_files(&self) -> Multiset<(Seq<Seq<char>>, P)> {
        self.found@.map_values(|f: FoundFile<P>| file_view(f)).to_multiset()
    }

    /// The folders still to list.
    pub closed spec fn pending_dirs(&self) -> Multiset<(Seq<Seq<char>>, P, u16)> {
        self.pending@.map_values(|d: PendingDir<P>| dir_view(d)).to_multiset()
    }

    /// The folder being listed (taken by [`FileWalk::next_dir`], not yet
    /// visited): its name path and depth.
    pub closed spec fn visiting(&self) -> Option<(Seq<Seq<char>>, u16)> {
        match self.current {
            Some((k, d)) => Some((names_view(k@), d)),
            None => None,
        }
    }

    closed spec fn fkey(&self, i: int) -> Seq<Seq<char>> {
        names_view(self.found@[i].keys@)
    }

    closed spec fn pkey(&self, i: int) -> Seq<Seq<char>> {
        names_view(self.pending@[i].keys@)
    }

    /// Every folder to list and every collected file lies within the depth
    /// limit and below no hidden name; no file is collected twice; no
    /// folder to list lies inside another, nor holds a collected file.
    pub closed spec fn wf(&self) -> bool {
        &&& forall|i: int|
            0 <= i < self.pending@.len() ==> dir_within(
                (names_view(#[trigger] self.pending@[i].keys@), self.pending@[i].depth),
                self.max_depth,
            )
        &&& forall|i: int|
            0 <= i < self.found@.len() ==> file_within(
                names_view(#[trigger] self.found@[i].keys@),
                self.max_depth,
            )
        &&& forall|i: int, j: int|
            0 <= i < j < self.found@.len() ==> #[trigger] self.fkey(i) != #[trigger] self.fkey(j)
        &&& forall|i: int, j: int|
            0 <= i < self.pending@.len() && 0 <= j < self.pending@.len() && i != j ==> !is_prefix(
                #[trigger] self.pkey(i),
                #[trigger] self.pkey(j),
            )
        &&& forall|i: int, k: int|
            0 <= i < self.pending@.len() && 0 <= k < self.found@.len() ==> !is_prefix(
                #[trigger] self.pkey(i),
                #[trigger] self.fkey(k),
            )
        &&& match self.visiting() {
            Some((c, d)) => {
                &&& dir_within((c, d), self.max_depth)
                &&& forall|i: int|
                    0 <= i < self.pending@.len() ==> !is_prefix(#[trigger] self.pkey(i), c)
                        && !is_prefix(c, self.pkey(i))
                &&& forall|k: int| 0 <= k < self.found@.len() ==> !is_prefix(c, #[trigger] self.fkey(k))
            },
            None => true,
        }
    }

    /// A walk below `origin` that enters at most `max_depth` levels of
    /// subfolders (0: only the files directly in `origin`).
    pub fn new(origin: P, max_depth: u16) -> (w: Self)
        ensures
            w.wf(),
            w.depth_limit() == max_depth,
            w.found_files() =~= Multiset::empty(),
            w.pending_dirs() =~= Multiset::empty().insert((Seq::<Seq<char>>::empty(), origin, 0u16)),
            w.visiting() is None,
    {
        let mut pending: Vec<PendingDir<P>> = Vec::new();
        pending.push(PendingDir { path: origin, keys: Vec::new(), depth: 0 });
        let w = FileWalk { max_depth, pending, found: Vec::new(), current: None };
        proof {
            assert(names_view(w.pending@[0].keys@) =~= Seq::<Seq<char>>::empty());
            assert(w.pending@.map_values(|d: PendingDir<P>| dir_view(d)) =~= seq![
                (Seq::<Seq<char>>::empty(), origin, 0u16),
            ]);
            assert(w.found@.map_values(|f: FoundFile<P>| file_view(f)) =~= Seq::<
                (Seq<Seq<char>>, P),
            >::empty());
            assert(seq![(Seq::<Seq<char>>::empty(), origin, 0u16)] =~= Seq::<
                (Seq<Seq<char>>, P, u16),
            >::empty().push((Seq::<Seq<char>>::empty(), origin, 0u16)));
        }
        w
    }

    /// `true` when no folder is left to list.
    pub fn is_finished(&self) -> (r: bool)
        ensures
            r == (self.pending_dirs().len() == 0),
    {
        proof {
            vstd::seq_lib::to_multiset_len(self.pending@.map_values(|d: PendingDir<P>| dir_view(d)));
        }
        self.pending.len() == 0
    }

    /// Takes out one folder still to list and returns its path; it is then
    /// the folder being listed ([`FileWalk::visiting`]). `None` when the walk
    /// is finished.
    pub fn next_dir(&mut self) -> (r: Option<P>)
        requires
            old(self).wf(),
        ensures
            final(self).wf(),
            final(self).depth_limit() == old(self).depth_limit(),
            final(self).found_files() == old(self).found_files(),
            match r {
                Some(p) => {
                    &&& final(self).visiting() is Some
                    &&& old(self).pending_dirs() == final(self).pending_dirs().insert(
                        ((final(self).visiting()->0).0, p, (final(self).visiting()->0).1),
                    )
                },
                None => {
                    &&& old(self).pending_dirs().len() == 0
                    &&& final(self).pending_dirs() == old(self).pending_dirs()
                    &&& final(self).visiting() is None
                },
            },
    {
        let ghost before = self.pending@;
        match self.pending.pop() {
            Some(d) => {
                proof {
                    assert(before.map_values(|d: PendingDir<P>| dir_view(d)) =~= self.pending@.map_values(
                        |d: PendingDir<P>| dir_view(d),
                    ).push(dir_view(d)));
                    assert(before[before.len() - 1] == d);
                    assert(forall|i: int| 0 <= i < self.pending@.len() ==> self.pending@[i] == before[i]);
                    assert(dir_within((names_view(before[before.len() - 1].keys@), before[before.len() - 1].depth), self.max_depth));
                }
                self.current = Some((d.keys, d.depth));
                proof {
                    let c = names_view(before[before.len() - 1].keys@);
                    assert(self.visiting() == Some((c, d.depth)));
                    let last = before.len() - 1;
                    assert(old(self).pkey(last) == c);
                    assert forall|i: int| 0 <= i < self.pending@.len() implies !is_prefix(
                        #[trigger] self.pkey(i),
                        c,
                    ) && !is_prefix(c, self.pkey(i)) by {
                        assert(self.pkey(i) == old(self).pkey(i));
                        assert(!is_prefix(old(self).pkey(i), old(self).pkey(last)));
                        assert(!is_prefix(old(self).pkey(last), old(self).pkey(i)));
                    }
                    assert forall|i: int, j: int| 0 <= i < self.pending@.len() && 0 <= j < self.pending@.len() && i != j
                        implies !is_prefix(#[trigger] self.pkey(i), #[trigger] self.pkey(j)) by {
                        assert(self.pkey(i) == old(self).pkey(i));
                        assert(self.pkey(j) == old(self).pkey(j));
                    }
                    assert forall|i: int, k: int| 0 <= i < self.pending@.len() && 0 <= k < self.found@.len()
                        implies !is_prefix(#[trigger] self.pkey(i), #[trigger] self.fkey(k)) by {
                        assert(self.pkey(i) == old(self).pkey(i));
                        assert(self.fkey(k) == old(self).fkey(k));
                    }
                    assert forall|k: int| 0 <= k < self.found@.len() implies !is_prefix(c, #[trigger] self.fkey(k)) by {
                        assert(self.fkey(k) == old(self).fkey(k));
                        assert(!is_prefix(old(self).pkey(last), old(self).fkey(k)));
                    }
                    assert forall|i: int, j: int| 0 <= i < j < self.found@.len() implies #[trigger] self.fkey(i) != #[trigger] self.fkey(j) by {
                        assert(self.fkey(i) == old(self).fkey(i));
                        assert(self.fkey(j) == old(self).fkey(j));
                    }
                    assert forall|i: int| 0 <= i < self.pending@.len() implies dir_within(
                        (names_view(#[trigger] self.pending@[i].keys@), self.pending@[i].depth),
                        self.max_depth,
                    ) by {
                        assert(self.pending@[i] == before[i]);
                    }
                    assert(dir_within((c, d.depth), self.max_depth));
                }
                Some(d.path)
            },
            None => {
                proof {
                    vstd::seq_lib::to_multiset_len(before.map_values(|d: PendingDir<P>| dir_view(d)));
                }
                self.current = None;
                proof {
                    assert forall|i: int, j: int| 0 <= i < j < self.found@.len() implies #[trigger] self.fkey(i) != #[trigger] self.fkey(j) by {
                        assert(self.fkey(i) == old(self).fkey(i));
                        assert(self.fkey(j) == old(self).fkey(j));
                    }
                }
                None
            },
        }
    }

    /// Records the listing `entries` of the folder being listed: its
    /// visible files are collected, and its visible subfolders are queued
    /// while it lies above the depth limit. Without a folder being listed,
    /// nothing changes.
    pub fn visit(&mut self, entries: Vec<WalkEntry<P>>)
        requires
            old(self).wf(),
            distinct_entry_names(entries@),
        ensures
            final(self).wf(),
            final(self).depth_limit() == old(self).depth_limit(),
            final(self).visiting() is None,
            match old(self).visiting() {
                Some((keys, depth)) => {
                    &&& final(self).found_files() == old(self).found_files().add(
                        files_in(keys, entries@),
                    )
                    &&& final(self).pending_dirs() == old(self).pending_dirs().add(
                        subdirs_in(keys, depth, old(self).depth_limit(), entries@),
                    )
                },
                None => {
                    &&& final(self).found_files() == old(self).found_files()
                    &&& final(self).pending_dirs() == old(self).pending_dirs()
                },
            },
    {
        let (ckeys, cdepth) = match self.current.take() {
            Some(c) => c,
            None => {
                return;
            },
        };
        let ghost keys = names_view(ckeys@);
        let ghost orig = entries@;
        let ghost found0 = self.found_files();
        let ghost pending0 = self.pending_dirs();
        let ghost nf0 = self.found@.len();
        let ghost np0 = self.pending@.len();
        let max = self.max_depth;
        proof {
            assert forall|i: int| 0 <= i < self.found@.len() implies #[trigger] self.fkey(i) == old(self).fkey(i) by {}
            assert forall|i: int| 0 <= i < self.pending@.len() implies #[trigger] self.pkey(i) == old(self).pkey(i) by {}
            assert(old(self).visiting() == Some((keys, cdepth)));
        }
        let mut entries = entries;
        while entries.len() > 0
            invariant
                self.max_depth == max,
                self.current is None,
                keys == names_view(ckeys@),
                dir_within((keys, cdepth), max),
                distinct_entry_names(entries@),
                nf0 <= self.found@.len(),
                np0 <= self.pending@.len(),
                forall|i: int| 0 <= i < self.pending@.len() ==> dir_within(
                    (names_view(#[trigger] self.pending@[i].keys@), self.pending@[i].depth),
                    max,
                ),
                forall|i: int| 0 <= i < self.found@.len() ==> file_within(
                    names_view(#[trigger] self.found@[i].keys@),
                    max,
                ),
                forall|i: int, j: int|
                    0 <= i < j < self.found@.len() ==> #[trigger] self.fkey(i) != #[trigger] self.fkey(j),
                forall|i: int, j: int|
                    0 <= i < self.pending@.len() && 0 <= j < self.pending@.len() && i != j ==> !is_prefix(
                        #[trigger] self.pkey(i),
                        #[trigger] self.pkey(j),
                    ),
                forall|i: int, k: int|
                    0 <= i < self.pending@.len() && 0 <= k < self.found@.len() ==> !is_prefix(
                        #[trigger] self.pkey(i),
                        #[trigger] self.fkey(k),
                    ),
                forall|i: int| 0 <= i < np0 ==> !is_prefix(#[trigger] self.pkey(i), keys) && !is_prefix(keys, self.pkey(i)),
                forall|k: int| 0 <= k < nf0 ==> !is_prefix(keys, #[trigger] self.fkey(k)),
                forall|k: int| nf0 <= k < self.found@.len() ==> #[trigger] self.fkey(k).len() == keys.len() + 1
                    && is_prefix(keys, self.fkey(k)) && !names_of(entries@).contains(self.fkey(k).last()),
                forall|i: int| np0 <= i < self.pending@.len() ==> #[trigger] self.pkey(i).len() == keys.len() + 1
                    && is_prefix(keys, self.pkey(i)) && !names_of(entries@).contains(self.pkey(i).last()),
                self.found_files().add(files_in(keys, entries@)) == found0.add(files_in(keys, orig)),
                self.pending_dirs().add(subdirs_in(keys, cdepth, max, entries@)) == pending0.add(
                    subdirs_in(keys, cdepth, max, orig),
                ),
            decreases entries.len(),
        {
            let ghost prev = entries@;
            let e = entries.pop().unwrap();
            assert(entries@ == prev.drop_last());
            assert(e == prev.last());
            let ghost n = e.name@;
            let ghost pre = *self;
            proof {
                assert(names_of(prev).contains(n)) by {
                    assert(names_of(prev)[prev.len() - 1] == n);
                }
                assert(!names_of(entries@).contains(n)) by {
                    if names_of(entries@).contains(n) {
                        let j = choose|j: int| 0 <= j < names_of(entries@).len() && names_of(entries@)[j] == n;
                        assert(prev[j].name@ == prev[prev.len() - 1].name@);
                    }
                }
                assert forall|x: Seq<char>| names_of(entries@).contains(x) implies names_of(prev).contains(x) by {
                    let j = choose|j: int| 0 <= j < names_of(entries@).len() && names_of(entries@)[j] == x;
                    assert(names_of(prev)[j] == x);
                }
            }
            let ghost fv = self.found@.map_values(|f: FoundFile<P>| file_view(f));
            let ghost pv = self.pending@.map_values(|d: PendingDir<P>| dir_view(d));
            let ghost fold = self.found@;
            let ghost pold = self.pending@;
            if !starts_with_dot(e.name.as_str()) {
                if e.is_file {
                    let mut k = ckeys.clone();
                    assert(k@ =~= ckeys@);
                    k.push(e.name);
                    assert(names_view(k@) =~= keys.push(n));
                    let ghost nk = keys.push(n);
                    let ghost item = (keys.push(e.name@), e.path);
                    self.found.push(FoundFile { keys: k, path: e.path });
                    proof {
                        assert forall|i: int| 0 <= i < pre.found@.len() implies #[trigger] self.fkey(i) == pre.fkey(i) by {}
                        assert forall|i: int| 0 <= i < pre.pending@.len() implies #[trigger] self.pkey(i) == pre.pkey(i) by {}
                        let last = self.found@.len() - 1;
                        assert(self.fkey(last) == nk);
                        assert forall|i: int| 0 <= i < last implies self.fkey(i) == names_view(fold[i].keys@) by {}
                        assert(self.found@.map_values(|f: FoundFile<P>| file_view(f)) =~= fv.push(item));
                        assert(self.found_files().add(files_in(keys, entries@)) =~= found0.add(
                            files_in(keys, orig),
                        ));
                        assert(subdirs_in(keys, cdepth, max, prev) == subdirs_in(
                            keys,
                            cdepth,
                            max,
                            entries@,
                        ));
                        assert(is_prefix(keys, nk)) by {
                            assert(nk.take(keys.len() as int) =~= keys);
                        }
                        assert forall|i: int| 0 <= i < self.found@.len() implies file_within(
                            names_view(#[trigger] self.found@[i].keys@),
                            max,
                        ) by {
                            if i == last {
                                assert(keys_visible(names_view(self.found@[i].keys@)));
                            }
                        }
                        assert forall|i: int, j: int| 0 <= i < j < self.found@.len() implies #[trigger] self.fkey(i)
                            != #[trigger] self.fkey(j) by {
                            if j == last {
                                if i < nf0 {
                                    if self.fkey(i) == nk {
                                        assert(is_prefix(keys, self.fkey(i)));
                                    }
                                } else {
                                    assert(!names_of(prev).contains(self.fkey(i).last()));
                                }
                            }
                        }
                        assert forall|i: int, kk: int| 0 <= i < self.pending@.len() && 0 <= kk < self.found@.len()
                            implies !is_prefix(#[trigger] self.pkey(i), #[trigger] self.fkey(kk)) by {
                            if kk == last {
                                if is_prefix(self.pkey(i), nk) {
                                    lemma_prefix_of_push(self.pkey(i), keys, n);
                                    if i < np0 {
                                        if self.pkey(i) == nk {
                                            assert(is_prefix(keys, self.pkey(i))) by {
                                                assert(nk.take(keys.len() as int) =~= keys);
                                            }
                                        }
                                    } else {
                                        lemma_child_keys(keys, n, self.pkey(i));
                                        assert(!names_of(prev).contains(self.pkey(i).last()));
                                    }
                                }
                            }
                        }
                        assert forall|kk: int| nf0 <= kk < self.found@.len() implies #[trigger] self.fkey(kk).len()
                            == keys.len() + 1 && is_prefix(keys, self.fkey(kk)) && !names_of(entries@).contains(
                            self.fkey(kk).last(),
                        ) by {
                            if kk < last {
                                assert(!names_of(prev).contains(self.fkey(kk).last()));
                            }
                        }
                    }
                } else if e.is_dir && cdepth < max {
                    let mut k = ckeys.clone();
                    assert(k@ =~= ckeys@);
                    k.push(e.name);
                    assert(names_view(k@) =~= keys.push(n));
                    let ghost nk = keys.push(n);
                    let ghost item = (keys.push(e.name@), e.path, (cdepth + 1) as u16);
                    self.pending.push(PendingDir { path: e.path, keys: k, depth: cdepth + 1 });
                    proof {
                        assert forall|i: int| 0 <= i < pre.found@.len() implies #[trigger] self.fkey(i) == pre.fkey(i) by {}
                        assert forall|i: int| 0 <= i < pre.pending@.len() implies #[trigger] self.pkey(i) == pre.pkey(i) by {}
                        let last = self.pending@.len() - 1;
                        assert(self.pkey(last) == nk);
                        assert forall|i: int| 0 <= i < last implies self.pkey(i) == names_view(pold[i].keys@) by {}
                        assert(self.pending@.map_values(|d: PendingDir<P>| dir_view(d)) =~= pv.push(
                            item,
                        ));
                        assert(self.pending_dirs().add(subdirs_in(keys, cdepth, max, entries@))
                            =~= pending0.add(subdirs_in(keys, cdepth, max, orig)));
                        assert(files_in(keys, prev) == files_in(keys, entries@));
                        assert(is_prefix(keys, nk)) by {
                            assert(nk.take(keys.len() as int) =~= keys);
                        }
                        assert forall|i: int, j: int| 0 <= i < self.pending@.len() && 0 <= j < self.pending@.len()
                            && i != j implies !is_prefix(#[trigger] self.pkey(i), #[trigger] self.pkey(j)) by {
                            if j == last {
                                if is_prefix(self.pkey(i), nk) {
                                    lemma_prefix_of_push(self.pkey(i), keys, n);
                                    if i < np0 {
                                        if self.pkey(i) == nk {
                                            assert(is_prefix(keys, self.pkey(i))) by {
                                                assert(nk.take(keys.len() as int) =~= keys);
                                            }
                                        }
                                    } else {
                                        lemma_child_keys(keys, n, self.pkey(i));
                                        assert(!names_of(prev).contains(self.pkey(i).last()));
                                    }
                                }
                            } else if i == last {
                                if is_prefix(nk, self.pkey(j)) {
                                    lemma_push_prefix(keys, n, self.pkey(j));
                                    if j >= np0 {
                                        lemma_child_keys(keys, n, self.pkey(j));
                                        assert(!names_of(prev).contains(self.pkey(j).last()));
                                    }
                                }
                            }
                        }
                        assert forall|i: int, kk: int| 0 <= i < self.pending@.len() && 0 <= kk < self.found@.len()
                            implies !is_prefix(#[trigger] self.pkey(i), #[trigger] self.fkey(kk)) by {
                            if i == last {
                                if is_prefix(nk, self.fkey(kk)) {
                                    lemma_push_prefix(keys, n, self.fkey(kk));
                                    if kk >= nf0 {
                                        lemma_child_keys(keys, n, self.fkey(kk));
                                        assert(!names_of(prev).contains(self.fkey(kk).last()));
                                    }
                                }
                            }
                        }
                        assert forall|i: int| np0 <= i < self.pending@.len() implies #[trigger] self.pkey(i).len()
                            == keys.len() + 1 && is_prefix(keys, self.pkey(i)) && !names_of(entries@).contains(
                            self.pkey(i).last(),
                        ) by {
                            if i < last {
                                assert(!names_of(prev).contains(self.pkey(i).last()));
                            }
                        }
                        assert forall|i: int| 0 <= i < self.pending@.len() implies dir_within(
                            (names_view(#[trigger] self.pending@[i].keys@), self.pending@[i].depth),
                            max,
                        ) by {
                            if i == last {
                                assert(keys_visible(nk));
                            }
                        }
                    }
                } else {
                    assert(files_in(keys, prev) == files_in(keys, entries@));
                    assert(subdirs_in(keys, cdepth, max, prev) == subdirs_in(
                        keys,
                        cdepth,
                        max,
                        entries@,
                    ));
                }
            } else {
                assert(files_in(keys, prev) == files_in(keys, entries@));
                assert(subdirs_in(keys, cdepth, max, prev) == subdirs_in(
                    keys,
                    cdepth,
                    max,
                    entries@,
                ));
            }
            proof {
                assert forall|i: int| 0 <= i < pre.found@.len() implies #[trigger] self.fkey(i) == pre.fkey(i) by {}
                assert forall|i: int| 0 <= i < pre.pending@.len() implies #[trigger] self.pkey(i) == pre.pkey(i) by {}
                assert forall|kk: int| nf0 <= kk < self.found@.len() implies #[trigger] self.fkey(kk).len()
                    == keys.len() + 1 && is_prefix(keys, self.fkey(kk)) && !names_of(entries@).contains(
                    self.fkey(kk).last(),
                ) by {
                    if names_of(entries@).contains(self.fkey(kk).last()) {
                        assert(names_of(prev).contains(self.fkey(kk).last()));
                    }
                }
                assert forall|i: int| np0 <= i < self.pending@.len() implies #[trigger] self.pkey(i).len()
                    == keys.len() + 1 && is_prefix(keys, self.pkey(i)) && !names_of(entries@).contains(
                    self.pkey(i).last(),
                ) by {
                    if names_of(entries@).contains(self.pkey(i).last()) {
                        assert(names_of(prev).contains(self.pkey(i).last()));
                    }
                }
            }
        }
        assert(files_in(keys, entries@) =~= Multiset::empty());
        assert(subdirs_in(keys, cdepth, max, entries@) =~= Multiset::empty());
        assert(self.found_files() =~= self.found_files().add(Multiset::empty()));
        assert(self.pending_dirs() =~= self.pending_dirs().add(Multiset::empty()));
    }
}


/// `a` comes strictly before `b` when compared name by name (each name in
/// code-point order), a proper prefix coming first: the order of paths.
pub open spec fn path_lt(a: Seq<Seq<char>>, b: Seq<Seq<char>>) -> bool
    decreases a.len(),
{
    if b.len() == 0 {
        false
    } else if a.len() == 0 {
        true
    } else if a[0] != b[0] {
        chars_lt(a[0], b[0])
    } else {
        path_lt(a.drop_first(), b.drop_first())
    }
}

/// Non-strict form of [`path_lt`], as a relation.
pub open spec fn path_le() -> spec_fn(Seq<Seq<char>>, Seq<Seq<char>>) -> bool {
    |a: Seq<Seq<char>>, b: Seq<Seq<char>>| a == b || path_lt(a, b)
}

proof fn lemma_path_lt_trichotomy(a: Seq<Seq<char>>, b: Seq<Seq<char>>)
    ensures
        a != b ==> (path_lt(a, b) || path_lt(b, a)),
        !(path_lt(a, b) && path_lt(b, a)),
        !path_lt(a, a),
    decreases a.len(),
{
    if a.len() > 0 {
        lemma_path_lt_trichotomy(a.drop_first(), a.drop_first());
    }
    if a.len() > 0 && b.len() > 0 && a[0] == b[0] {
        lemma_path_lt_trichotomy(a.drop_first(), b.drop_first());
        if a.drop_first() == b.drop_first() {
            assert(a =~= seq![a[0]] + a.drop_first());
            assert(b =~= seq![b[0]] + b.drop_first());
        }
    } else if a.len() > 0 && b.len() > 0 {
        lemma_chars_lt_trichotomy(a[0], b[0]);
    } else if a.len() == 0 && b.len() == 0 {
        assert(a =~= b);
    }
}

proof fn lemma_path_lt_transitive(a: Seq<Seq<char>>, b: Seq<Seq<char>>, c: Seq<Seq<char>>)
    requires
        path_lt(a, b),
        path_lt(b, c),
    ensures
        path_lt(a, c),
    decreases a.len(),
{
    if a.len() > 0 && b.len() > 0 && c.len() > 0 {
        if a[0] == b[0] && b[0] == c[0] {
            lemma_path_lt_transitive(a.drop_first(), b.drop_first(), c.drop_first());
        } else if a[0] != b[0] && b[0] != c[0] {
            lemma_chars_lt_transitive(a[0], b[0], c[0]);
            if a[0] == c[0] {
                lemma_chars_lt_trichotomy(a[0], b[0]);
            }
        }
    }
}

/// `true` when the name path `a` comes strictly before `b`.
pub fn keys_lt(a: &Vec<String>, b: &Vec<String>) -> (r: bool)
    ensures
        r == path_lt(names_view(a@), names_view(b@)),
{
    let ghost x = names_view(a@);
    let ghost y = names_view(b@);
    let mut i: usize = 0;
    assert(x.skip(0) =~= x);
    assert(y.skip(0) =~= y);
    while i < a.len() && i < b.len()
        invariant
            x == names_view(a@),
            y == names_view(b@),
            i <= a.len(),
            i <= b.len(),
            path_lt(x, y) == path_lt(x.skip(i as int), y.skip(i as int)),
        decreases a.len() - i,
    {
        assert(x.skip(i as int)[0] == a@[i as int]@);
        assert(y.skip(i as int)[0] == b@[i as int]@);
        if !str_equal(a[i].as_str(), b[i].as_str()) {
            return text_lt(a[i].as_str(), b[i].as_str());
        }
        assert(x.skip(i as int).drop_first() =~= x.skip(i + 1));
        assert(y.skip(i as int).drop_first() =~= y.skip(i + 1));
        i = i + 1;
    }
    i < b.len()
}

/// The name path of a collected file.
pub open spec fn file_keys<P>(f: FoundFile<P>) -> Seq<Seq<char>> {
    names_view(f.keys@)
}

/// The files collected by a finished walk, in the order of their paths
/// below the source folder (name by name), each path once.
pub fn collect_files<P>(walk: FileWalk<P>) -> (r: Vec<FoundFile<P>>)
    requires
        walk.wf(),
    ensures
        sorted_by(r@.map_values(|f: FoundFile<P>| file_keys(f)), path_le()),
        forall|a: int, b: int|
            0 <= a < b < r@.len() ==> path_lt(#[trigger] file_keys(r@[a]), #[trigger] file_keys(r@[b])),
        r@.map_values(|f: FoundFile<P>| file_view(f)).to_multiset() == walk.found_files(),
        forall|i: int|
            0 <= i < r@.len() ==> file_within(#[trigger] file_keys(r@[i]), walk.depth_limit()),
{
    let max = walk.max_depth;
    let mut rest = walk.found;
    let mut out: Vec<FoundFile<P>> = Vec::new();
    let ghost all = rest@.map_values(|f: FoundFile<P>| file_view(f)).to_multiset();
    proof {
        assert forall|a: int, b: int| 0 <= a < b < rest@.len() implies #[trigger] file_keys(rest@[a])
            != #[trigger] file_keys(rest@[b]) by {
            assert(file_keys(rest@[a]) == walk.fkey(a));
            assert(file_keys(rest@[b]) == walk.fkey(b));
        }
    }
    while rest.len() > 0
        invariant
            forall|a: int, b: int| 0 <= a < b < out@.len() ==> #[trigger] file_keys(out@[a]) != #[trigger] file_keys(out@[b]),
            forall|a: int, b: int| 0 <= a < b < rest@.len() ==> #[trigger] file_keys(rest@[a]) != #[trigger] file_keys(rest@[b]),
            forall|a: int, b: int| 0 <= a < out@.len() && 0 <= b < rest@.len() ==> #[trigger] file_keys(out@[a]) != #[trigger] file_keys(rest@[b]),
            sorted_by(out@.map_values(|f: FoundFile<P>| file_keys(f)), path_le()),
            out@.map_values(|f: FoundFile<P>| file_view(f)).to_multiset().add(
                rest@.map_values(|f: FoundFile<P>| file_view(f)).to_multiset(),
            ) == all,
            forall|i: int| 0 <= i < out@.len() ==> file_within(#[trigger] file_keys(out@[i]), max),
            forall|i: int| 0 <= i < rest@.len() ==> file_within(#[trigger] file_keys(rest@[i]), max),
        decreases rest.len(),
    {
        let ghost prev_rest = rest@;
        let x = rest.pop().unwrap();
        assert(prev_rest =~= rest@.push(x));
        assert(file_within(file_keys(prev_rest[prev_rest.len() - 1]), max));
        let mut j: usize = 0;
        while j < out.len() && !keys_lt(&x.keys, &out[j].keys)
            invariant
                j <= out.len(),
                forall|k: int| 0 <= k < j ==> path_le()(#[trigger] file_keys(out@[k]), file_keys(x)),
            decreases out.len() - j,
        {
            proof {
                lemma_path_lt_trichotomy(file_keys(x), file_keys(out@[j as int]));
            }
            j = j + 1;
        }
        let ghost before = out@;
        let ghost bk = before.map_values(|f: FoundFile<P>| file_keys(f));
        proof {
            assert forall|k: int| j <= k < before.len() implies path_lt(
                file_keys(x),
                #[trigger] bk[k],
            ) by {
                assert(path_lt(file_keys(x), bk[j as int]));
                if k > j {
                    assert(path_le()(bk[j as int], bk[k]));
                    if bk[j as int] != bk[k] {
                        lemma_path_lt_transitive(file_keys(x), bk[j as int], bk[k]);
                    }
                }
            }
        }
        let ghost xv = file_view(x);
        let ghost xk = file_keys(x);
        out.insert(j, x);
        proof {
            let ok = out@.map_values(|f: FoundFile<P>| file_keys(f));
            assert(ok =~= bk.insert(j as int, xk));
            assert(out@.map_values(|f: FoundFile<P>| file_view(f)) =~= before.map_values(
                |f: FoundFile<P>| file_view(f),
            ).insert(j as int, xv));
            assert(prev_rest.map_values(|f: FoundFile<P>| file_view(f)) =~= rest@.map_values(
                |f: FoundFile<P>| file_view(f),
            ).push(xv));
            assert forall|a: int, b: int| 0 <= a < b < ok.len() implies #[trigger] path_le()(
                ok[a],
                ok[b],
            ) by {
                if b < j {
                    assert(path_le()(bk[a], bk[b]));
                } else if a < j && b == j {
                } else if a < j {
                    assert(path_le()(bk[a], xk));
                    assert(path_lt(xk, bk[b - 1]));
                    if bk[a] != xk {
                        lemma_path_lt_transitive(bk[a], xk, bk[b - 1]);
                    }
                } else if a == j {
                    assert(path_lt(xk, bk[b - 1]));
                } else {
                    assert(path_le()(bk[a - 1], bk[b - 1]));
                }
            }
            assert(out@.map_values(|f: FoundFile<P>| file_view(f)).to_multiset().add(
                rest@.map_values(|f: FoundFile<P>| file_view(f)).to_multiset(),
            ) =~= all);
            assert forall|i: int| 0 <= i < out@.len() implies file_within(
                #[trigger] file_keys(out@[i]),
                max,
            ) by {
                if i < j {
                    assert(out@[i] == before[i]);
                } else if i > j {
                    assert(out@[i] == before[i - 1]);
                }
            }
            assert forall|a: int| 0 <= a < before.len() implies #[trigger] file_keys(before[a]) != xk by {
                assert(file_keys(prev_rest[prev_rest.len() - 1]) == xk);
            }
            assert forall|a: int| 0 <= a < rest@.len() implies #[trigger] file_keys(rest@[a]) != xk by {
                assert(rest@[a] == prev_rest[a]);
                assert(file_keys(prev_rest[prev_rest.len() - 1]) == xk);
            }
            assert forall|a: int, b: int| 0 <= a < b < out@.len() implies #[trigger] file_keys(out@[a])
                != #[trigger] file_keys(out@[b]) by {
                assert(ok[a] == file_keys(out@[a]));
                assert(ok[b] == file_keys(out@[b]));
                if b < j {
                } else if a < j && b == j {
                    assert(ok[a] == bk[a]);
                } else if a < j {
                    assert(ok[b] == bk[b - 1]);
                } else if a == j {
                    assert(ok[b] == bk[b - 1]);
                } else {
                    assert(ok[a] == bk[a - 1]);
                    assert(ok[b] == bk[b - 1]);
                }
            }
            assert forall|a: int, b: int| 0 <= a < out@.len() && 0 <= b < rest@.len() implies #[trigger] file_keys(
                out@[a],
            ) != #[trigger] file_keys(rest@[b]) by {
                assert(rest@[b] == prev_rest[b]);
                if a < j {
                    assert(out@[a] == before[a]);
                } else if a > j {
                    assert(out@[a] == before[a - 1]);
                }
            }
            assert forall|a: int, b: int| 0 <= a < b < rest@.len() implies #[trigger] file_keys(rest@[a])
                != #[trigger] file_keys(rest@[b]) by {
                assert(rest@[a] == prev_rest[a]);
                assert(rest@[b] == prev_rest[b]);
            }
        }
    }
    assert forall|a: int, b: int| 0 <= a < b < out@.len() implies path_lt(
        #[trigger] file_keys(out@[a]),
        #[trigger] file_keys(out@[b]),
    ) by {
        let ok = out@.map_values(|f: FoundFile<P>| file_keys(f));
        assert(ok[a] == file_keys(out@[a]) && ok[b] == file_keys(out@[b]));
        assert(path_le()(ok[a], ok[b]));
    }
    assert(rest@.map_values(|f: FoundFile<P>| file_view(f)) =~= Seq::<(Seq<Seq<char>>, P)>::empty());
    assert(out@.map_values(|f: FoundFile<P>| file_view(f)).to_multiset() =~= all);
    out
}

} // verus!
