//! The sorting session: which file is current, what was decided for each
//! file, the move/skip/undo counters and the recently used folders.
//!
//! The session performs no disk work itself: the front end carries out
//! each move (or the undoing of one) and reports what came of it.
use vstd::prelude::*;
use vstd::string::*;
use crate::names::{file_name_of, lemma_free_numbered_name, names_view, path_file_name, resolve_collision, resolved_name};
use crate::text::str_equal;
use crate::files::{first_index, get_subdirs, subdir_order};
use crate::kind::{detect_kind, detected_kind, FileKind};
use crate::rank::{fuzzy_score, match_list, matching_names};

verus! {

/// What was done with a file, kept so that stepping back can undo it.
pub enum Action {
    /// Moved to the given path.
    Moved(String),
    /// Left in place.
    Skipped,
}

/// Where the sorting stands, for headers and status lines.
#[derive(Clone, Copy, Debug, PartialEq, Eq, Structural)]
pub struct Progress {
    pub index: usize,
    pub total: usize,
    pub moved: usize,
    pub skipped: usize,
}

/// What a step of the session did, for the front end to report.
#[derive(Debug, Clone, PartialEq, Eq)]
pub enum Outcome {
    Moved { subfolder: String, dest_name: String },
    Skipped,
    Undone,
    MoveError(String),
    AtStart,
    Done,
}

/// What came of the disk work for moving the current file into a subfolder.
pub enum MoveReport {
    /// The subfolder could not be created (the message says why).
    DirError(String),
    /// The subfolder exists but the file could not be moved into it.
    MoveError(String),
    /// The file was moved to the path that [`SortSession::move_target`]
    /// planned.
    Moved,
}

/// The abstract state of a session.
pub struct SessionModel {
    pub destination: Seq<char>,
    /// The original path of each file.
    pub files: Seq<Seq<char>>,
    /// The original file name of each file.
    pub names: Seq<Seq<char>>,
    /// For each file: `None` while undecided, `Some(None)` when skipped,
    /// `Some(Some(p))` when moved to `p`.
    pub history: Seq<Option<Option<Seq<char>>>>,
    /// Subfolders moved into, most recent first.
    pub recent: Seq<Seq<char>>,
    pub index: nat,
    pub moved: nat,
    pub skipped: nat,
}

/// The file name of a path, empty when it has none.
pub open spec fn name_or_empty(path: Seq<char>) -> Seq<char> {
    match path_file_name(path) {
        Some(n) => n,
        None => Seq::empty(),
    }
}

/// How many files of `h` are recorded as moved.
pub open spec fn count_moved(h: Seq<Option<Option<Seq<char>>>>) -> nat
    decreases h.len(),
{
    if h.len() == 0 {
        0
    } else {
        count_moved(h.drop_last()) + if h.last() matches Some(Some(_)) {
            1nat
        } else {
            0nat
        }
    }
}

/// How many files of `h` are recorded as skipped.
pub open spec fn count_skipped(h: Seq<Option<Option<Seq<char>>>>) -> nat
    decreases h.len(),
{
    if h.len() == 0 {
        0
    } else {
        count_skipped(h.drop_last()) + if h.last() == Some(None::<Seq<char>>) {
            1nat
        } else {
            0nat
        }
    }
}

/// The invariant of a session: one name and one record per file; the
/// skipped counter counts the skipped records; the moved counter is at
/// least the number of moved records (it exceeds it by the moves whose
/// undoing failed when the file was then skipped).
pub open spec fn model_wf(m: SessionModel) -> bool {
    &&& m.files.len() == m.names.len()
    &&& m.files.len() == m.history.len()
    &&& m.skipped == count_skipped(m.history)
    &&& m.moved >= count_moved(m.history)
    &&& forall|i: int| 0 <= i < m.files.len() ==> #[trigger] m.names[i] == name_or_empty(m.files[i])
}

/// The moves counted that the records no longer show.
pub open spec fn unaccounted_moves(m: SessionModel) -> int {
    m.moved - count_moved(m.history)
}

/// The recent subfolders after moving into `sub`: `sub` first, then the
/// others in their order.
pub open spec fn recent_after(recent: Seq<Seq<char>>, sub: Seq<char>) -> Seq<Seq<char>> {
    seq![sub] + recent.filter(other_than(sub))
}

/// Selects the names other than `sub`.
pub open spec fn other_than(sub: Seq<char>) -> spec_fn(Seq<char>) -> bool {
    |d: Seq<char>| d != sub
}

/// The session after the current file was moved into `sub`, landing at `dest`.
pub open spec fn after_move(m: SessionModel, sub: Seq<char>, dest: Seq<char>) -> SessionModel {
    let prior = m.history[m.index as int];
    SessionModel {
        history: m.history.update(m.index as int, Some(Some(dest))),
        recent: recent_after(m.recent, sub),
        index: m.index + 1,
        moved: if prior matches Some(Some(_)) {
            m.moved
        } else {
            m.moved + 1
        },
        skipped: if prior == Some(None::<Seq<char>>) {
            (m.skipped - 1) as nat
        } else {
            m.skipped
        },
        ..m
    }
}

/// The session after the current file was skipped; `undo_ok` tells whether
/// an earlier move of it was undone on disk.
pub open spec fn after_skip(m: SessionModel, undo_ok: bool) -> SessionModel {
    let prior = m.history[m.index as int];
    SessionModel {
        history: m.history.update(m.index as int, Some(None)),
        index: m.index + 1,
        moved: if (prior matches Some(Some(_))) && undo_ok {
            (m.moved - 1) as nat
        } else {
            m.moved
        },
        skipped: if prior == Some(None::<Seq<char>>) {
            m.skipped
        } else {
            m.skipped + 1
        },
        ..m
    }
}

/// The session after stepping back from a non-first position; `undo_ok`
/// tells whether a move of the previous file was undone on disk.
pub open spec fn after_back(m: SessionModel, undo_ok: bool) -> SessionModel {
    let i = (m.index - 1) as nat;
    match m.history[i as int] {
        Some(Some(_)) => if undo_ok {
            SessionModel {
                history: m.history.update(i as int, None),
                moved: (m.moved - 1) as nat,
                index: i,
                ..m
            }
        } else {
            SessionModel { index: i, ..m }
        },
        Some(None) => SessionModel {
            history: m.history.update(i as int, None),
            skipped: (m.skipped - 1) as nat,
            index: i,
            ..m
        },
        None => SessionModel { index: i, ..m },
    }
}

/// How a part of a path between slashes moves the depth below the
/// destination: `..` climbs one level, an empty part or `.` stays, any other
/// name descends one level.
pub open spec fn part_step(part: Seq<char>) -> int {
    if part == seq!['.', '.'] {
        -1
    } else if part.len() == 0 || part == seq!['.'] {
        0
    } else {
        1
    }
}

/// Walks `s` part by part: the depth reached by the parts completed so far
/// (each followed by a slash), the part being read, and whether the depth
/// stayed at or above the destination after every completed part.
pub open spec fn depth_walk(s: Seq<char>) -> (int, Seq<char>, bool)
    decreases s.len(),
{
    if s.len() == 0 {
        (0, Seq::empty(), true)
    } else {
        let (d, cur, ok) = depth_walk(s.drop_last());
        if s.last() == '/' {
            let d2 = d + part_step(cur);
            (d2, Seq::empty(), ok && d2 >= 0)
        } else {
            (d, cur.push(s.last()), ok)
        }
    }
}

/// A subfolder name that stays under the destination: relative, and its
/// parts, followed one by one, never climb above the destination (`a/../b`
/// stays, `../b` and `a/../../b` leave). An absolute name is refused even
/// when it names a folder inside the destination.
pub open spec fn stays_inside(sub: Seq<char>) -> bool {
    &&& !(sub.len() > 0 && sub[0] == '/')
    &&& depth_walk(sub).2
    &&& depth_walk(sub).0 + part_step(depth_walk(sub).1) >= 0
}

proof fn lemma_walk_fails_for_good(s: Seq<char>, i: int)
    requires
        0 <= i <= s.len(),
        !depth_walk(s.take(i)).2,
    ensures
        !depth_walk(s).2,
    decreases s.len() - i,
{
    if i < s.len() {
        assert(s.take(i + 1).drop_last() =~= s.take(i));
        lemma_walk_fails_for_good(s, i + 1);
    } else {
        assert(s.take(i) =~= s);
    }
}

/// The path of the subfolder `sub` of the destination.
pub open spec fn folder_path(destination: Seq<char>, sub: Seq<char>) -> Seq<char> {
    destination + "/"@ + sub
}

/// Where the current file goes when moved into `sub`, the subfolder
/// where the names `taken` are in use: the subfolder's path, then the file's
/// original name made free (see [`resolved_name`]).
pub open spec fn planned_path(m: SessionModel, sub: Seq<char>, taken: Seq<Seq<char>>) -> Seq<char> {
    folder_path(m.destination, sub) + "/"@ + resolved_name(m.names[m.index as int], taken)
}

/// A session in which every undo so far succeeded: the position lies within
/// the list, only files before it carry a record, and the moved counter
/// counts the moved records.
pub open spec fn consistent(m: SessionModel) -> bool {
    &&& m.index <= m.files.len()
    &&& forall|j: int| m.index <= j < m.history.len() ==> #[trigger] m.history[j] is None
    &&& m.moved == count_moved(m.history)
}

/// The abstract value of a file's record.
pub open spec fn action_view(a: Option<Action>) -> Option<Option<Seq<char>>> {
    match a {
        None => None,
        Some(Action::Skipped) => Some(None),
        Some(Action::Moved(p)) => Some(Some(p@)),
    }
}

/// The value of a contribution of one record to the moved count.
pub open spec fn moved_one(a: Option<Option<Seq<char>>>) -> nat {
    if a matches Some(Some(_)) {
        1
    } else {
        0
    }
}

/// The value of a contribution of one record to the skipped count.
pub open spec fn skipped_one(a: Option<Option<Seq<char>>>) -> nat {
    if a == Some(None::<Seq<char>>) {
        1
    } else {
        0
    }
}

proof fn lemma_counts_update(h: Seq<Option<Option<Seq<char>>>>, i: int, x: Option<Option<Seq<char>>>)
    requires
        0 <= i < h.len(),
    ensures
        count_moved(h.update(i, x)) + moved_one(h[i]) == count_moved(h) + moved_one(x),
        count_skipped(h.update(i, x)) + skipped_one(h[i]) == count_skipped(h) + skipped_one(x),
    decreases h.len(),
{
    let u = h.update(i, x);
    if i == h.len() - 1 {
        assert(u.drop_last() =~= h.drop_last());
    } else {
        lemma_counts_update(h.drop_last(), i, x);
        assert(u.drop_last() =~= h.drop_last().update(i, x));
    }
}

proof fn lemma_counts_bound(h: Seq<Option<Option<Seq<char>>>>, i: int)
    requires
        0 <= i < h.len(),
    ensures
        count_moved(h) >= moved_one(h[i]),
        count_skipped(h) + 1 - skipped_one(h[i]) <= h.len(),
    decreases h.len(),
{
    lemma_counts_le_len(h.drop_last());
    if i < h.len() - 1 {
        lemma_counts_bound(h.drop_last(), i);
    }
}

proof fn lemma_counts_le_len(h: Seq<Option<Option<Seq<char>>>>)
    ensures
        count_skipped(h) <= h.len(),
    decreases h.len(),
{
    if h.len() > 0 {
        lemma_counts_le_len(h.drop_last());
    }
}

proof fn lemma_counts_empty(n: nat)
    ensures
        count_moved(Seq::new(n, |i: int| None::<Option<Seq<char>>>)) == 0,
        count_skipped(Seq::new(n, |i: int| None::<Option<Seq<char>>>)) == 0,
    decreases n,
{
    if n > 0 {
        lemma_counts_empty((n - 1) as nat);
        assert(Seq::new(n, |i: int| None::<Option<Seq<char>>>).drop_last() =~= Seq::new(
            (n - 1) as nat,
            |i: int| None::<Option<Seq<char>>>,
        ));
    }
}

proof fn lemma_counts_sum_le_len(h: Seq<Option<Option<Seq<char>>>>)
    ensures
        count_moved(h) + count_skipped(h) <= h.len(),
    decreases h.len(),
{
    if h.len() > 0 {
        lemma_counts_sum_le_len(h.drop_last());
    }
}

proof fn lemma_counts_within(h: Seq<Option<Option<Seq<char>>>>, k: int)
    requires
        0 <= k <= h.len(),
        forall|j: int| k <= j < h.len() ==> #[trigger] h[j] is None,
    ensures
        count_moved(h) + count_skipped(h) <= k,
    decreases h.len(),
{
    if h.len() == k {
        lemma_counts_sum_le_len(h);
    } else {
        assert(h.last() is None);
        lemma_counts_within(h.drop_last(), k);
    }
}

/// While every undo succeeds, the counters stay within the position: the
/// moved and skipped files together are at most the files passed, and the
/// moved counter is the number of files recorded as moved.
pub proof fn lemma_consistent_progress(m: SessionModel)
    requires
        model_wf(m),
        consistent(m),
    ensures
        m.moved + m.skipped <= m.index <= m.files.len(),
        m.moved == count_moved(m.history),
{
    lemma_counts_within(m.history, m.index as int);
}

/// Stepping back undoes a move: moving an undecided file and then stepping
/// back (the move being undone on disk) leaves the records, the position
/// and both counters as they were; only the recent folders keep the move.
pub proof fn lemma_back_undoes_move(m: SessionModel, sub: Seq<char>, dest: Seq<char>)
    requires
        model_wf(m),
        m.index < m.files.len(),
        m.history[m.index as int] is None,
    ensures
        after_back(after_move(m, sub, dest), true) == (SessionModel {
            recent: recent_after(m.recent, sub),
            ..m
        }),
{
    let t = after_move(m, sub, dest);
    assert(t.history[m.index as int] == Some(Some(dest)));
    assert(t.history.update(m.index as int, None) =~= m.history);
}

/// Stepping back undoes a skip: skipping an undecided file and then
/// stepping back gives the session back exactly as it was.
pub proof fn lemma_back_undoes_skip(m: SessionModel, undo_ok: bool, back_ok: bool)
    requires
        model_wf(m),
        m.index < m.files.len(),
        m.history[m.index as int] is None,
    ensures
        after_back(after_skip(m, undo_ok), back_ok) == m,
{
    let t = after_skip(m, undo_ok);
    assert(t.history[m.index as int] == Some(None::<Seq<char>>));
    assert(t.history.update(m.index as int, None) =~= m.history);
}

/// After a move into `sub`, `sub` leads the recent folders and appears
/// there once; the other recent folders keep their order.
pub proof fn lemma_recent_after_move(recent: Seq<Seq<char>>, sub: Seq<char>)
    ensures
        recent_after(recent, sub)[0] == sub,
        recent_after(recent, sub).drop_first() == recent.filter(other_than(sub)),
        forall|i: int|
            1 <= i < recent_after(recent, sub).len() ==> #[trigger] recent_after(recent, sub)[i] != sub,
{
    let f = recent.filter(other_than(sub));
    assert(recent_after(recent, sub).drop_first() =~= f);
    assert forall|i: int| 1 <= i < recent_after(recent, sub).len() implies #[trigger] recent_after(
        recent,
        sub,
    )[i] != sub by {
        assert(recent_after(recent, sub)[i] == f[i - 1]);
        recent.lemma_filter_pred(other_than(sub), i - 1);
    }
}

/// The recent subfolders after moving into `fs[0]`, `fs[1]`, ... in turn,
/// starting from `recent`.
pub open spec fn recent_after_all(recent: Seq<Seq<char>>, fs: Seq<Seq<char>>) -> Seq<Seq<char>>
    decreases fs.len(),
{
    if fs.len() == 0 {
        recent
    } else {
        recent_after(recent_after_all(recent, fs.drop_last()), fs.last())
    }
}

/// The last position of `x` in `fs`, -1 when it does not occur.
pub open spec fn last_use(fs: Seq<Seq<char>>, x: Seq<char>) -> int
    decreases fs.len(),
{
    if fs.len() == 0 {
        -1
    } else if fs.last() == x {
        fs.len() - 1
    } else {
        last_use(fs.drop_last(), x)
    }
}

proof fn lemma_last_use(fs: Seq<Seq<char>>, x: Seq<char>)
    ensures
        -1 <= last_use(fs, x) < fs.len(),
        fs.contains(x) <==> last_use(fs, x) >= 0,
        last_use(fs, x) >= 0 ==> fs[last_use(fs, x)] == x,
    decreases fs.len(),
{
    if fs.len() > 0 {
        lemma_last_use(fs.drop_last(), x);
        if fs.last() != x {
            if fs.contains(x) {
                let i = choose|i: int| 0 <= i < fs.len() && fs[i] == x;
                assert(fs.drop_last()[i] == x);
            }
            if fs.drop_last().contains(x) {
                let i = choose|i: int| 0 <= i < fs.drop_last().len() && fs.drop_last()[i] == x;
                assert(fs[i] == x);
            }
        } else {
            assert(fs[fs.len() - 1] == x);
        }
    }
}

/// Two entries of a filtered sequence come from the sequence in the same
/// order.
proof fn lemma_filter_order(s: Seq<Seq<char>>, p: spec_fn(Seq<char>) -> bool, i: int, j: int)
    requires
        0 <= i < j < s.filter(p).len(),
    ensures
        exists|a: int, b: int|
            0 <= a < b < s.len() && s[a] == s.filter(p)[i] && s[b] == s.filter(p)[j],
    decreases s.len(),
{
    reveal(Seq::filter);
    let rest = s.drop_last();
    rest.lemma_filter_len(p);
    if p(s.last()) {
        assert(s.filter(p) == rest.filter(p).push(s.last()));
        if j < rest.filter(p).len() {
            lemma_filter_order(rest, p, i, j);
            let (a, b) = choose|a: int, b: int|
                0 <= a < b < rest.len() && rest[a] == rest.filter(p)[i] && rest[b] == rest.filter(p)[j];
            assert(s[a] == rest[a] && s[b] == rest[b]);
        } else {
            assert(rest.filter(p).contains(rest.filter(p)[i]));
            rest.lemma_filter_contains_rev(p, rest.filter(p)[i]);
            let a = choose|a: int| 0 <= a < rest.len() && rest[a] == rest.filter(p)[i];
            assert(s[a] == rest[a]);
            assert(s[s.len() - 1] == s.filter(p)[j]);
        }
    } else {
        assert(s.filter(p) == rest.filter(p));
        lemma_filter_order(rest, p, i, j);
        let (a, b) = choose|a: int, b: int|
            0 <= a < b < rest.len() && rest[a] == rest.filter(p)[i] && rest[b] == rest.filter(p)[j];
        assert(s[a] == rest[a] && s[b] == rest[b]);
    }
}

/// Recently used folders first, over any run of moves: after moving into
/// `fs[0]`, `fs[1]`, ... starting with no recent folder, the recent
/// folders are exactly the folders moved into, each once, the most
/// recently used first. With [`crate::files::lemma_subdir_order_recent_first`]
/// this gives the listing offered at the prompt.
pub proof fn lemma_recent_after_moves(fs: Seq<Seq<char>>)
    ensures
        forall|i: int, j: int|
            0 <= i < j < recent_after_all(Seq::empty(), fs).len() ==> #[trigger] recent_after_all(
                Seq::empty(),
                fs,
            )[i] != #[trigger] recent_after_all(Seq::empty(), fs)[j],
        forall|x: Seq<char>| #[trigger] recent_after_all(Seq::empty(), fs).contains(x) <==> fs.contains(x),
        forall|i: int, j: int|
            0 <= i < j < recent_after_all(Seq::empty(), fs).len() ==> last_use(
                fs,
                #[trigger] recent_after_all(Seq::empty(), fs)[i],
            ) > last_use(fs, #[trigger] recent_after_all(Seq::empty(), fs)[j]),
    decreases fs.len(),
{
    let r = recent_after_all(Seq::empty(), fs);
    if fs.len() == 0 {
        assert(r =~= Seq::<Seq<char>>::empty());
    } else {
        let pre = fs.drop_last();
        let f = fs.last();
        let q = recent_after_all(Seq::empty(), pre);
        lemma_recent_after_moves(pre);
        let filt = q.filter(other_than(f));
        assert(r == seq![f] + filt);
        q.lemma_filter_len(other_than(f));
        assert forall|x: Seq<char>| x != f implies #[trigger] last_use(fs, x) == last_use(pre, x) by {}
        assert(last_use(fs, f) == fs.len() - 1);
        assert forall|k: int| 0 <= k < filt.len() implies #[trigger] filt[k] != f && q.contains(filt[k]) by {
            q.lemma_filter_pred(other_than(f), k);
            assert(filt.contains(filt[k]));
            q.lemma_filter_contains_rev(other_than(f), filt[k]);
        }
        assert forall|i: int, j: int| 0 <= i < j < r.len() implies #[trigger] r[i] != #[trigger] r[j] by {
            if i == 0 {
                assert(r[j] == filt[j - 1]);
            } else {
                assert(r[i] == filt[i - 1] && r[j] == filt[j - 1]);
                lemma_filter_order(q, other_than(f), i - 1, j - 1);
            }
        }
        assert forall|x: Seq<char>| #[trigger] r.contains(x) <==> fs.contains(x) by {
            if r.contains(x) {
                let k = choose|k: int| 0 <= k < r.len() && r[k] == x;
                if k == 0 {
                    assert(fs[fs.len() - 1] == x);
                } else {
                    assert(r[k] == filt[k - 1]);
                    assert(q.contains(x));
                    assert(pre.contains(x));
                    let m = choose|m: int| 0 <= m < pre.len() && pre[m] == x;
                    assert(fs[m] == x);
                }
            }
            if fs.contains(x) {
                if x == f {
                    assert(r[0] == x);
                } else {
                    let m = choose|m: int| 0 <= m < fs.len() && fs[m] == x;
                    assert(pre[m] == x);
                    assert(pre.contains(x));
                    assert(q.contains(x));
                    let k = choose|k: int| 0 <= k < q.len() && q[k] == x;
                    q.lemma_filter_contains(other_than(f), k);
                    let t = choose|t: int| 0 <= t < filt.len() && filt[t] == x;
                    assert(r[t + 1] == x);
                }
            }
        }
        assert forall|i: int, j: int| 0 <= i < j < r.len() implies last_use(fs, #[trigger] r[i]) > last_use(
            fs,
            #[trigger] r[j],
        ) by {
            assert(r[j] == filt[j - 1]);
            lemma_last_use(pre, r[j]);
            if i == 0 {
                assert(r[0] == f);
            } else {
                assert(r[i] == filt[i - 1]);
                lemma_filter_order(q, other_than(f), i - 1, j - 1);
                let (a, b) = choose|a: int, b: int|
                    0 <= a < b < q.len() && q[a] == filt[i - 1] && q[b] == filt[j - 1];
                assert(last_use(pre, q[a]) > last_use(pre, q[b]));
            }
        }
    }
}

/// The files being sorted and what was decided for each.
pub struct SortSession {
    destination: String,
    file_list: Vec<String>,
    file_names: Vec<String>,
    history: Vec<Option<Action>>,
    recent_dirs: Vec<String>,
    index: usize,
    moved: usize,
    skipped: usize,
}

impl View for SortSession {
    type V = SessionModel;

    closed spec fn view(&self) -> SessionModel {
        SessionModel {
            destination: self.destination@,
            files: names_view(self.file_list@),
            names: names_view(self.file_names@),
            history: self.history@.map_values(|a: Option<Action>| action_view(a)),
            recent: names_view(self.recent_dirs@),
            index: self.index as nat,
            moved: self.moved as nat,
            skipped: self.skipped as nat,
        }
    }
}

impl SortSession {
    /// The session's invariant ([`model_wf`]).
    pub open spec fn wf(&self) -> bool {
        model_wf(self@)
    }

    /// A session over `file_list` (the paths of the files to sort, in the
    /// order they are offered) moving files into subfolders of
    /// `destination`; nothing decided yet.
    pub fn from_file_list(file_list: Vec<String>, destination: String) -> (s: Self)
        ensures
            s.wf(),
            s@.destination == destination@,
            s@.files == names_view(file_list@),
            s@.history == Seq::new(file_list@.len(), |i: int| None::<Option<Seq<char>>>),
            s@.recent == Seq::<Seq<char>>::empty(),
            s@.index == 0,
            s@.moved == 0,
            s@.skipped == 0,
            consistent(s@),
    {
        let total = file_list.len();
        let mut names: Vec<String> = Vec::new();
        let mut history: Vec<Option<Action>> = Vec::new();
        let mut i: usize = 0;
        while i < total
            invariant
                total == file_list.len(),
                i <= total,
                names@.len() == i,
                history@.len() == i,
                forall|j: int| 0 <= j < i ==> #[trigger] names@[j]@ == name_or_empty(file_list@[j]@),
                forall|j: int| 0 <= j < i ==> #[trigger] history@[j] is None,
            decreases total - i,
        {
            let n = match file_name_of(file_list[i].as_str()) {
                Some(n) => n,
                None => String::new(),
            };
            names.push(n);
            history.push(None);
            i = i + 1;
        }
        let s = SortSession {
            destination,
            file_list,
            file_names: names,
            history,
            recent_dirs: Vec::new(),
            index: 0,
            moved: 0,
            skipped: 0,
        };
        proof {
            assert(s@.history =~= Seq::new(total as nat, |i: int| None::<Option<Seq<char>>>));
            lemma_counts_empty(total as nat);
            assert(s@.recent =~= Seq::<Seq<char>>::empty());
            assert forall|j: int| 0 <= j < s@.files.len() implies #[trigger] s@.names[j]
                == name_or_empty(s@.files[j]) by {
                assert(s@.names[j] == s.file_names@[j]@);
                assert(s@.files[j] == s.file_list@[j]@);
            }
        }
        s
    }

    /// `true` once every file has been passed.
    pub fn is_done(&self) -> (r: bool)
        requires
            self.wf(),
        ensures
            r == (self@.index >= self@.files.len()),
    {
        self.index >= self.file_list.len()
    }

    /// The number of files in the session.
    pub fn total(&self) -> (r: usize)
        requires
            self.wf(),
        ensures
            r == self@.files.len(),
    {
        self.file_list.len()
    }

    /// The folder whose subfolders receive the files.
    pub fn destination(&self) -> (r: &str)
        ensures
            r@ == self@.destination,
    {
        self.destination.as_str()
    }

    /// The position, the number of files and the two counters.
    pub fn progress(&self) -> (p: Progress)
        requires
            self.wf(),
        ensures
            p.index == self@.index,
            p.total == self@.files.len(),
            p.moved == self@.moved,
            p.skipped == self@.skipped,
    {
        Progress {
            index: self.index,
            total: self.file_list.len(),
            moved: self.moved,
            skipped: self.skipped,
        }
    }

    /// The index of the file being decided.
    pub fn index(&self) -> (r: usize)
        ensures
            r == self@.index,
    {
        self.index
    }

    /// Where the current file lives now: where it was moved to, if it was
    /// moved and the session stepped back onto it, else its original path.
    pub fn current(&self) -> (r: Option<String>)
        requires
            self.wf(),
        ensures
            self@.index >= self@.files.len() ==> r is None,
            self@.index < self@.files.len() ==> r is Some && r->0@ == match self@.history[self@.index as int] {
                Some(Some(p)) => p,
                _ => self@.files[self@.index as int],
            },
    {
        if self.index >= self.file_list.len() {
            return None;
        }
        let ghost h = self@.history;
        assert(h[self.index as int] == action_view(self.history@[self.index as int]));
        match &self.history[self.index] {
            Some(Action::Moved(p)) => Some(p.clone()),
            _ => Some(self.file_list[self.index].clone()),
        }
    }

    /// The original file name of the current file.
    pub fn current_original_name(&self) -> (r: Option<String>)
        requires
            self.wf(),
        ensures
            self@.index >= self@.files.len() ==> r is None,
            self@.index < self@.files.len() ==> r is Some && r->0@ == self@.names[self@.index as int],
    {
        if self.index >= self.file_list.len() {
            return None;
        }
        Some(self.file_names[self.index].clone())
    }

    /// The original file names, in order.
    pub fn file_names(&self) -> (r: Vec<String>)
        ensures
            names_view(r@) == self@.names,
    {
        let r = self.file_names.clone();
        proof {
            assert(names_view(r@) =~= names_view(self.file_names@)) by {
                assert forall|i: int| 0 <= i < r@.len() implies r@[i] == self.file_names@[i] by {
                    assert(vstd::pervasive::cloned(self.file_names@[i], r@[i]));
                }
            }
        }
        r
    }

    /// Advances past a file that no longer exists, recording nothing.
    pub fn skip_missing(&mut self)
        requires
            old(self).wf(),
            old(self)@.index < usize::MAX,
        ensures
            final(self).wf(),
            final(self)@ == (SessionModel { index: old(self)@.index + 1, ..old(self)@ }),
            consistent(old(self)@) && old(self)@.index < old(self)@.files.len() ==> consistent(
                final(self)@,
            ),
    {
        self.index = self.index + 1;
    }

    /// The move to undo before skipping the current file: where it was
    /// moved to and its original path, if it was moved.
    pub fn pending_undo(&self) -> (r: Option<(String, String)>)
        requires
            self.wf(),
        ensures
            match r {
                Some((from, to)) => self@.index < self@.files.len() && self@.history[self@.index as int]
                    == Some(Some(from@)) && to@ == self@.files[self@.index as int],
                None => self@.index >= self@.files.len() || !(self@.history[self@.index as int] matches Some(Some(_))),
            },
    {
        if self.index >= self.file_list.len() {
            return None;
        }
        self.undo_at(self.index)
    }

    /// The move to undo when stepping back: where the previous file was
    /// moved to and its original path, if it was moved.
    pub fn back_undo(&self) -> (r: Option<(String, String)>)
        requires
            self.wf(),
        ensures
            match r {
                Some((from, to)) => 0 < self@.index <= self@.files.len() && self@.history[self@.index - 1]
                    == Some(Some(from@)) && to@ == self@.files[self@.index - 1],
                None => self@.index == 0 || self@.index > self@.files.len() || !(
                self@.history[self@.index - 1] matches Some(Some(_))),
            },
    {
        if self.index == 0 || self.index > self.file_list.len() {
            return None;
        }
        self.undo_at(self.index - 1)
    }

    fn undo_at(&self, i: usize) -> (r: Option<(String, String)>)
        requires
            self.wf(),
            i < self@.files.len(),
        ensures
            match r {
                Some((from, to)) => self@.history[i as int] == Some(Some(from@)) && to@
                    == self@.files[i as int],
                None => !(self@.history[i as int] matches Some(Some(_))),
            },
    {
        assert(self@.history[i as int] == action_view(self.history@[i as int]));
        match &self.history[i] {
            Some(Action::Moved(p)) => Some((p.clone(), self.file_list[i].clone())),
            _ => None,
        }
    }

    /// The folder that moving into `subfolder` fills: `subfolder` under the
    /// destination, or `None` when `subfolder` would leave the destination
    /// (absolute, or climbing above it with `..`; see [`stays_inside`]).
    pub fn target_dir(&self, subfolder: &str) -> (r: Option<String>)
        ensures
            match r {
                Some(d) => stays_inside(subfolder@) && d@ == folder_path(self@.destination, subfolder@),
                None => !stays_inside(subfolder@),
            },
    {
        if !stays_under(subfolder) {
            return None;
        }
        let mut d = String::from_str(self.destination.as_str());
        d.append("/");
        d.append(subfolder);
        proof {
            reveal_strlit("/");
        }
        assert(d@ =~= folder_path(self@.destination, subfolder@));
        Some(d)
    }

    /// Where the current file goes when moved into `subfolder`, whose
    /// names `taken` are in use (the front end asks the disk about each name
    /// tried, see [`crate::names::collision_candidate`]): the subfolder's path, then the file's original
    /// name, numbered when taken (see [`resolve_collision`]). `None` when
    /// no file is current or `subfolder` would leave the destination.
    pub fn move_target(&self, subfolder: &str, taken: &Vec<String>) -> (r: Option<String>)
        requires
            self.wf(),
            taken.len() < u32::MAX,
        ensures
            match r {
                Some(p) => {
                    &&& self@.index < self@.files.len()
                    &&& stays_inside(subfolder@)
                    &&& p@ == planned_path(self@, subfolder@, names_view(taken@))
                },
                None => self@.index >= self@.files.len() || !stays_inside(subfolder@),
            },
    {
        if self.index >= self.file_list.len() {
            return None;
        }
        match self.target_dir(subfolder) {
            None => None,
            Some(mut d) => {
                let name = self.resolved_current_name(taken);
                d.append("/");
                d.append(name.as_str());
                proof {
                    reveal_strlit("/");
                }
                assert(d@ =~= planned_path(self@, subfolder@, names_view(taken@)));
                Some(d)
            },
        }
    }

    fn resolved_current_name(&self, taken: &Vec<String>) -> (r: String)
        requires
            self.wf(),
            self@.index < self@.files.len(),
            taken.len() < u32::MAX,
        ensures
            r@ == resolved_name(self@.names[self@.index as int], names_view(taken@)),
    {
        proof {
            lemma_free_numbered_name(self@.names[self@.index as int], names_view(taken@));
        }
        assert(self@.names[self@.index as int] == self.file_names@[self.index as int]@);
        resolve_collision(self.file_names[self.index].as_str(), taken)
    }

    /// Records what came of moving the current file into `subfolder` under
    /// the destination, the names `taken` being in use in the subfolder before the
    /// move, then advances. With no current file: `Done`, nothing changes.
    /// When `subfolder` would leave the destination, or could not be
    /// created: an error, nothing changes. When the move failed: an error,
    /// and the session advances. When it succeeded: the file is recorded as
    /// moved to its planned path ([`SortSession::move_target`]; counted once
    /// even when moved again), `subfolder` becomes the most recent, and the
    /// session advances.
    pub fn move_to(&mut self, subfolder: &str, taken: &Vec<String>, report: MoveReport) -> (r: Outcome)
        requires
            old(self).wf(),
            old(self)@.moved < usize::MAX,
            taken.len() < u32::MAX,
        ensures
            final(self).wf(),
            old(self)@.index >= old(self)@.files.len() ==> r == Outcome::Done && final(self)@ == old(
                self,
            )@,
            old(self)@.index < old(self)@.files.len() && !stays_inside(subfolder@) ==> {
                &&& final(self)@ == old(self)@
                &&& (r matches Outcome::MoveError(m) && m@ == "subfolder is outside the destination: "@
                    + subfolder@)
            },
            old(self)@.index < old(self)@.files.len() && stays_inside(subfolder@) ==> match report {
                MoveReport::DirError(e) => {
                    &&& final(self)@ == old(self)@
                    &&& (r matches Outcome::MoveError(m) && m@ == "creating directory: "@ + e@)
                },
                MoveReport::MoveError(e) => {
                    &&& final(self)@ == (SessionModel { index: old(self)@.index + 1, ..old(self)@ })
                    &&& (r matches Outcome::MoveError(m) && m@ == "moving file: "@ + e@)
                },
                MoveReport::Moved => {
                    &&& final(self)@ == after_move(
                        old(self)@,
                        subfolder@,
                        planned_path(old(self)@, subfolder@, names_view(taken@)),
                    )
                    &&& (r matches Outcome::Moved { subfolder: sub, dest_name } && sub@ == subfolder@
                        && dest_name@ == resolved_name(
                        old(self)@.names[old(self)@.index as int],
                        names_view(taken@),
                    ))
                },
            },
            unaccounted_moves(final(self)@) == unaccounted_moves(old(self)@),
            consistent(old(self)@) ==> consistent(final(self)@),
    {
        if self.index >= self.file_list.len() {
            return Outcome::Done;
        }
        if !stays_under(subfolder) {
            return Outcome::MoveError(concat("subfolder is outside the destination: ", subfolder));
        }
        match report {
            MoveReport::DirError(e) => {
                Outcome::MoveError(concat("creating directory: ", e.as_str()))
            },
            MoveReport::MoveError(e) => {
                self.index = self.index + 1;
                Outcome::MoveError(concat("moving file: ", e.as_str()))
            },
            MoveReport::Moved => {
                let dest = match self.move_target(subfolder, taken) {
                    Some(d) => d,
                    None => {
                        assert(false);
                        String::new()
                    },
                };
                let dest_name = self.resolved_current_name(taken);
                let ghost old_model = self@;
                let i = self.index;
                let ghost prior = old_model.history[i as int];
                assert(prior == action_view(self.history@[i as int]));
                proof {
                    lemma_counts_bound(old_model.history, i as int);
                    lemma_counts_update(old_model.history, i as int, Some(Some(dest@)));
                }
                match &self.history[i] {
                    Some(Action::Moved(_)) => {},
                    Some(Action::Skipped) => {
                        self.skipped = self.skipped - 1;
                        self.moved = self.moved + 1;
                    },
                    None => {
                        self.moved = self.moved + 1;
                    },
                }
                self.history[i] = Some(Action::Moved(dest));
                let new_recent = recent_with(&self.recent_dirs, subfolder);
                self.recent_dirs = new_recent;
                self.index = i + 1;
                proof {
                    assert(self@.history =~= old_model.history.update(i as int, Some(Some(dest@))));
                    if consistent(old_model) {
                        assert forall|j: int| self@.index <= j < self@.history.len() implies #[trigger] self@.history[j] is None by {
                            assert(self@.history[j] == old_model.history[j]);
                        }
                    }
                }
                assert(self@ == after_move(old_model, subfolder@, dest@));
                Outcome::Moved { subfolder: String::from_str(subfolder), dest_name }
            },
        }
    }

    /// Skips the current file, then advances. If the file had been moved,
    /// `undo` is what came of moving it back to its original path (see
    /// [`SortSession::pending_undo`]); when that failed the outcome is the
    /// error and the moved counter is not lowered. `undo` is ignored
    /// otherwise. A file skipped again is counted once.
    pub fn skip(&mut self, undo: Result<(), String>) -> (r: Outcome)
        requires
            old(self).wf(),
            old(self)@.index < old(self)@.files.len(),
        ensures
            final(self).wf(),
            final(self)@ == after_skip(old(self)@, undo is Ok),
            (old(self)@.history[old(self)@.index as int] matches Some(Some(_))) && undo is Err
                ==> (r matches Outcome::MoveError(m) && m@ == "undoing move: "@ + undo->Err_0@),
            !((old(self)@.history[old(self)@.index as int] matches Some(Some(_))) && undo is Err)
                ==> r == Outcome::Skipped,
            unaccounted_moves(final(self)@) == unaccounted_moves(old(self)@) + if (old(
                self,
            )@.history[old(self)@.index as int] matches Some(Some(_))) && undo is Err {
                1int
            } else {
                0int
            },
            consistent(old(self)@) ==> consistent(final(self)@),
    {
        let ghost old_model = self@;
        let i = self.index;
        let len = self.history.len();
        assert(old_model.history.len() == len);
        let ghost prior = old_model.history[i as int];
        assert(prior == action_view(self.history@[i as int]));
        proof {
            lemma_counts_bound(old_model.history, i as int);
            lemma_counts_update(old_model.history, i as int, Some(None));
        }
        let mut outcome = Outcome::Skipped;
        let was_moved = match &self.history[i] {
            Some(Action::Moved(_)) => true,
            _ => false,
        };
        let was_skipped = match &self.history[i] {
            Some(Action::Skipped) => true,
            _ => false,
        };
        if was_moved {
            match undo {
                Err(e) => {
                    outcome = Outcome::MoveError(concat("undoing move: ", e.as_str()));
                },
                Ok(()) => {
                    self.moved = self.moved - 1;
                },
            }
        }
        if !was_skipped {
            self.skipped = self.skipped + 1;
        }
        self.history[i] = Some(Action::Skipped);
        self.index = i + 1;
        proof {
            assert(self@.history =~= old_model.history.update(i as int, Some(None)));
            if consistent(old_model) {
                assert(old_model.history[i as int] is None);
                assert forall|j: int| self@.index <= j < self@.history.len() implies #[trigger] self@.history[j] is None by {
                    assert(self@.history[j] == old_model.history[j]);
                }
            }
        }
        outcome
    }

    /// Steps back to the previous file and undoes what was decided for it.
    /// At the first file: `AtStart`, nothing changes. A skipped file becomes
    /// undecided again. A moved file becomes undecided once `undo` (what
    /// came of moving it back, see [`SortSession::back_undo`]) succeeded;
    /// when that failed the outcome is the error, the session still steps
    /// back, and the file stays recorded as moved.
    pub fn go_back(&mut self, undo: Result<(), String>) -> (r: Outcome)
        requires
            old(self).wf(),
            old(self)@.index <= old(self)@.files.len(),
        ensures
            final(self).wf(),
            old(self)@.index == 0 ==> r == Outcome::AtStart && final(self)@ == old(self)@,
            old(self)@.index > 0 ==> final(self)@ == after_back(old(self)@, undo is Ok),
            old(self)@.index > 0 ==> if (old(self)@.history[old(self)@.index - 1] matches Some(
                Some(_),
            )) && undo is Err {
                (r matches Outcome::MoveError(m) && m@ == "undoing move: "@ + undo->Err_0@)
            } else {
                r == Outcome::Undone
            },
            unaccounted_moves(final(self)@) == unaccounted_moves(old(self)@),
            consistent(old(self)@) && undo is Ok ==> consistent(final(self)@),
    {
        if self.index == 0 {
            return Outcome::AtStart;
        }
        let ghost old_model = self@;
        let i = self.index - 1;
        self.index = i;
        let ghost prior = old_model.history[i as int];
        assert(prior == action_view(self.history@[i as int]));
        proof {
            lemma_counts_bound(old_model.history, i as int);
            lemma_counts_update(old_model.history, i as int, None);
        }
        let was_moved = match &self.history[i] {
            Some(Action::Moved(_)) => true,
            _ => false,
        };
        let was_skipped = match &self.history[i] {
            Some(Action::Skipped) => true,
            _ => false,
        };
        if was_moved {
            match undo {
                Err(e) => {
                    return Outcome::MoveError(concat("undoing move: ", e.as_str()));
                },
                Ok(()) => {
                    self.moved = self.moved - 1;
                    self.history[i] = None;
                },
            }
        } else if was_skipped {
            self.skipped = self.skipped - 1;
            self.history[i] = None;
        }
        proof {
            if was_moved || was_skipped {
                assert(self@.history =~= old_model.history.update(i as int, None));
            }
            if consistent(old_model) && undo is Ok {
                assert forall|j: int| self@.index <= j < self@.history.len() implies #[trigger] self@.history[j] is None by {
                    if j != i {
                        assert(self@.history[j] == old_model.history[j]);
                    }
                }
            }
        }
        Outcome::Undone
    }

    /// The kind of the current file, given its first bytes (see
    /// [`detect_kind`]).
    pub fn current_kind(&self, header: &[u8]) -> (r: Option<FileKind>)
        requires
            self.wf(),
        ensures
            self@.index >= self@.files.len() ==> r is None,
            self@.index < self@.files.len() ==> r == Some(detected_kind(
                match self@.history[self@.index as int] {
                    Some(Some(p)) => p,
                    _ => self@.files[self@.index as int],
                },
                header@,
            )),
    {
        match self.current() {
            Some(p) => Some(detect_kind(p.as_str(), header)),
            None => None,
        }
    }

    /// The subfolders offered at the prompt, given the names of the
    /// folders in the destination: recently used first, then alphabetically
    /// (see [`get_subdirs`]). Hidden folders (names starting with `.`) are
    /// not offered.
    pub fn subdir_listing(&self, dir_names: Vec<String>) -> (r: Vec<String>)
        ensures
            names_view(r@) == subdir_order(names_view(dir_names@), self@.recent),
    {
        get_subdirs(dir_names, &self.recent_dirs)
    }

    /// The subfolders suggested for what was typed: the whole listing when
    /// nothing was typed, else the matching ones ranked best first (see
    /// [`match_list`]).
    pub fn subdir_suggestions(&self, dir_names: Vec<String>, input: &str) -> (r: Vec<String>)
        ensures
            names_view(r@) == match_list(input@, subdir_order(names_view(dir_names@), self@.recent)),
            input@.len() > 0 ==> forall|i: int|
                0 <= i < r@.len() ==> subdir_order(names_view(dir_names@), self@.recent).contains(
                    #[trigger] r@[i]@,
                ) && fuzzy_score(r@[i]@, input@) is Some,
            input@.len() > 0 ==> forall|i: int, j: int|
                0 <= i < j < r@.len() ==> fuzzy_score(#[trigger] r@[i]@, input@)->0 >= fuzzy_score(
                    #[trigger] r@[j]@,
                    input@,
                )->0,
            input@.len() > 0 ==> forall|d: Seq<char>|
                subdir_order(names_view(dir_names@), self@.recent).contains(d) && #[trigger] fuzzy_score(
                    d,
                    input@,
                ) is Some ==> names_view(r@).contains(d),
    {
        let listing = self.subdir_listing(dir_names);
        matching_names(input, &listing)
    }

    /// Records the renaming of the destination subfolder `old_name` to
    /// `new_name`, given what came of renaming it on disk: when that
    /// succeeded, the first recent entry equal to `old_name` is replaced, so
    /// the renamed folder keeps its place in the listing
    /// ([`crate::files::lemma_rename_keeps_place`]).
    pub fn rename_subdir(&mut self, old_name: &str, new_name: &str, renamed: Result<(), String>) -> (r:
        Result<(), String>)
        requires
            old(self).wf(),
        ensures
            final(self).wf(),
            r == renamed,
            renamed is Err ==> final(self)@ == old(self)@,
            consistent(old(self)@) ==> consistent(final(self)@),
            renamed is Ok ==> final(self)@ == (SessionModel {
                recent: if old(self)@.recent.contains(old_name@) {
                    old(self)@.recent.update(first_index(old(self)@.recent, old_name@), new_name@)
                } else {
                    old(self)@.recent
                },
                ..old(self)@
            }),
    {
        if renamed.is_err() {
            return renamed;
        }
        let ghost rv = self@.recent;
        let ghost start = self@;
        let mut i: usize = 0;
        while i < self.recent_dirs.len()
            invariant
                self.wf(),
                self@ == start,
                start == old(self)@,
                renamed is Ok,
                rv == start.recent,
                i <= self.recent_dirs.len(),
                rv == names_view(self.recent_dirs@),
                forall|j: int| 0 <= j < i ==> rv[j] != old_name@,
            decreases self.recent_dirs.len() - i,
        {
            assert(rv[i as int] == self.recent_dirs@[i as int]@);
            if str_equal(self.recent_dirs[i].as_str(), old_name) {
                let ghost before = self@;
                self.recent_dirs[i] = String::from_str(new_name);
                proof {
                    crate::files::lemma_first_index_of(rv, old_name@, i as int);
                    assert(self@.recent =~= rv.update(i as int, new_name@));
                    assert(self@ == (SessionModel { recent: rv.update(i as int, new_name@), ..before }));
                }
                return renamed;
            }
            i = i + 1;
        }
        assert(!rv.contains(old_name@));
        renamed
    }
}

/// The depth step of the part `s[start..end]` (see [`part_step`]).
fn part_step_of(s: &str, start: usize, end: usize) -> (r: i8)
    requires
        start <= end <= s@.len(),
    ensures
        r as int == part_step(s@.subrange(start as int, end as int)),
{
    let ghost part = s@.subrange(start as int, end as int);
    if end - start == 2 && s.get_char(start) == '.' && s.get_char(start + 1) == '.' {
        assert(part =~= seq!['.', '.']);
        -1
    } else if end == start || (end - start == 1 && s.get_char(start) == '.') {
        assert(end - start == 1 ==> part =~= seq!['.']);
        assert(seq!['.', '.'].len() == 2);
        assert(part.len() <= 1);
        0
    } else {
        assert(part.len() == 2 ==> part[0] == s@[start as int] && part[1] == s@[start + 1]);
        assert(part.len() == 1 ==> part[0] == s@[start as int]);
        assert(seq!['.', '.'][0] == '.' && seq!['.', '.'][1] == '.' && seq!['.', '.'].len() == 2);
        assert(seq!['.'][0] == '.' && seq!['.'].len() == 1);
        assert(part != seq!['.', '.']);
        assert(part != seq!['.']);
        1
    }
}

/// Whether `subfolder` stays under the destination ([`stays_inside`]).
pub fn stays_under(subfolder: &str) -> (r: bool)
    ensures
        r == stays_inside(subfolder@),
{
    let n = subfolder.unicode_len();
    if n > 0 && subfolder.get_char(0) == '/' {
        return false;
    }
    let ghost s = subfolder@;
    let mut depth: usize = 0;
    let mut start: usize = 0;
    let mut i: usize = 0;
    assert(s.take(0) =~= Seq::<char>::empty());
    assert(s.subrange(0, 0) =~= Seq::<char>::empty());
    while i < n
        invariant
            n == s.len(),
            s == subfolder@,
            !(n > 0 && s[0] == '/'),
            start <= i <= n,
            depth <= i,
            depth_walk(s.take(i as int)) == (depth as int, s.subrange(start as int, i as int), true),
        decreases n - i,
    {
        assert(s.take(i + 1).drop_last() =~= s.take(i as int));
        assert(s.take(i + 1).last() == s[i as int]);
        if subfolder.get_char(i) == '/' {
            let step = part_step_of(subfolder, start, i);
            if step < 0 && depth == 0 {
                proof {
                    lemma_walk_fails_for_good(s, i + 1);
                }
                return false;
            }
            if step < 0 {
                depth = depth - 1;
            } else if step > 0 {
                depth = depth + 1;
            }
            start = i + 1;
            assert(s.subrange(start as int, i + 1) =~= Seq::<char>::empty());
        } else {
            assert(s.subrange(start as int, i + 1) =~= s.subrange(start as int, i as int).push(s[i as int]));
        }
        i = i + 1;
    }
    assert(s.take(n as int) =~= s);
    let step = part_step_of(subfolder, start, n);
    !(step < 0 && depth == 0)
}

/// `a` followed by `b`.
pub fn concat(a: &str, b: &str) -> (r: String)
    ensures
        r@ == a@ + b@,
{
    let mut r = String::from_str(a);
    r.append(b);
    r
}

/// The recent subfolders after moving into `sub`.
fn recent_with(recent: &Vec<String>, sub: &str) -> (r: Vec<String>)
    ensures
        names_view(r@) == recent_after(names_view(recent@), sub@),
{
    let ghost rv = names_view(recent@);
    let mut r: Vec<String> = Vec::new();
    r.push(String::from_str(sub));
    let mut i: usize = 0;
    assert(rv.take(0) =~= Seq::<Seq<char>>::empty());
    assert(names_view(r@) =~= seq![sub@] + rv.take(0).filter(other_than(sub@)));
    while i < recent.len()
        invariant
            i <= recent.len(),
            rv == names_view(recent@),
            names_view(r@) == seq![sub@] + rv.take(i as int).filter(other_than(sub@)),
        decreases recent.len() - i,
    {
        let ghost prev = names_view(r@);
        proof {
            assert(rv.take(i + 1) =~= rv.take(i as int).push(rv[i as int]));
            rv.take(i as int).lemma_filter_push(rv[i as int], other_than(sub@));
        }
        if !str_equal(recent[i].as_str(), sub) {
            r.push(recent[i].clone());
            assert(names_view(r@) =~= prev.push(rv[i as int]));
        }
        i = i + 1;
    }
    assert(rv.take(i as int) =~= rv);
    r
}

} // verus!
