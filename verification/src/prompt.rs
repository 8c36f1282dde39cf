//! The destination prompt of the terminal front end: editing what is
//! typed, moving through the suggestions, renaming a folder, and the
//! window of suggestions that fits on screen.
use vstd::prelude::*;
use vstd::string::*;
use crate::names::names_view;
use crate::rank::{match_list, matching_names};
use crate::text::{decimal, decimal_string, str_equal};

verus! {

/// How the prompt ended.
#[derive(Debug, Clone, PartialEq, Eq)]
pub enum PromptResult {
    /// Move the file into this subfolder.
    Input(String),
    /// Leave the file where it is.
    Skip,
    /// Step back to the previous file.
    GoBack,
    /// Stop sorting.
    Interrupted,
}

/// A key press, as the prompt distinguishes them.
#[derive(Debug, Clone, Copy, PartialEq, Eq, Structural)]
pub enum Key {
    /// A character typed without Control.
    Char(char),
    /// A character typed with Control held.
    Ctrl(char),
    Enter,
    Tab,
    Backspace,
    Up,
    Down,
    Left,
    Right,
    Esc,
    /// Any other key.
    Other,
}

/// `true` for the characters with the Unicode `White_Space` property, which
/// `char::is_whitespace` tests.
pub open spec fn is_white_space(c: char) -> bool {
    ||| '\u{9}' <= c <= '\u{d}'
    ||| c == ' '
    ||| c == '\u{85}'
    ||| c == '\u{a0}'
    ||| c == '\u{1680}'
    ||| '\u{2000}' <= c <= '\u{200a}'
    ||| c == '\u{2028}'
    ||| c == '\u{2029}'
    ||| c == '\u{202f}'
    ||| c == '\u{205f}'
    ||| c == '\u{3000}'
}

/// `true` for white space (see [`is_white_space`]).
pub fn white_space(c: char) -> (r: bool)
    ensures
        r == is_white_space(c),
{
    ('\u{9}' <= c && c <= '\u{d}') || c == ' ' || c == '\u{85}' || c == '\u{a0}' || c == '\u{1680}'
        || ('\u{2000}' <= c && c <= '\u{200a}') || c == '\u{2028}' || c == '\u{2029}' || c
        == '\u{202f}' || c == '\u{205f}' || c == '\u{3000}'
}

/// `s` without its leading and trailing white space (`str::trim`).
#[verifier::opaque]
pub open spec fn trimmed(s: Seq<char>) -> Seq<char> {
    if forall|i: int| 0 <= i < s.len() ==> is_white_space(#[trigger] s[i]) {
        Seq::empty()
    } else {
        let a = choose|a: int|
            0 <= a < s.len() && !is_white_space(s[a]) && forall|i: int|
                0 <= i < a ==> is_white_space(#[trigger] s[i]);
        let b = choose|b: int|
            0 <= b < s.len() && !is_white_space(s[b]) && forall|i: int|
                b < i < s.len() ==> is_white_space(#[trigger] s[i]);
        s.subrange(a, b + 1)
    }
}

/// `s` without its leading and trailing white space.
pub fn trim(s: &str) -> (r: String)
    ensures
        r@ == trimmed(s@),
{
    reveal(trimmed);
    let n = s.unicode_len();
    let mut a: usize = 0;
    while a < n && white_space(s.get_char(a))
        invariant
            n == s@.len(),
            a <= n,
            forall|i: int| 0 <= i < a ==> is_white_space(#[trigger] s@[i]),
        decreases n - a,
    {
        a = a + 1;
    }
    if a == n {
        return String::new();
    }
    let mut b: usize = n - 1;
    while white_space(s.get_char(b))
        invariant
            n == s@.len(),
            a < n,
            !is_white_space(s@[a as int]),
            a <= b < n,
            forall|i: int| b < i < n ==> is_white_space(#[trigger] s@[i]),
        decreases b,
    {
        b = b - 1;
    }
    proof {
        let a2 = choose|a2: int|
            0 <= a2 < s@.len() && !is_white_space(s@[a2]) && forall|i: int|
                0 <= i < a2 ==> is_white_space(#[trigger] s@[i]);
        assert(a2 == a) by {
            if a2 < a {
                assert(is_white_space(s@[a2]));
            } else if a2 > a {
                assert(is_white_space(s@[a as int]));
            }
        }
        let b2 = choose|b2: int|
            0 <= b2 < s@.len() && !is_white_space(s@[b2]) && forall|i: int|
                b2 < i < s@.len() ==> is_white_space(#[trigger] s@[i]);
        assert(b2 == b) by {
            if b2 < b {
                assert(is_white_space(s@[b as int]));
            } else if b2 > b {
                assert(is_white_space(s@[b2]));
            }
        }
    }
    let part = s.substring_char(a, b + 1);
    String::from_str(part)
}

/// Appends `c` to `s` (`String::push`).
#[verifier::external_body]
fn push_char(s: &mut String, c: char)
    ensures
        final(s)@ == old(s)@.push(c),
{
    s.push(c);
}

/// `s` without its last character (`String::pop`), unchanged when empty.
pub fn drop_last_char(s: &String) -> (r: String)
    ensures
        r@ == if s@.len() > 0 { s@.drop_last() } else { s@ },
{
    let n = s.as_str().unicode_len();
    if n == 0 {
        return s.clone();
    }
    let part = s.as_str().substring_char(0, n - 1);
    assert(part@ =~= s@.drop_last());
    String::from_str(part)
}


/// The abstract value of a prompt result.
pub enum PromptResultView {
    Input(Seq<char>),
    Skip,
    GoBack,
    Interrupted,
}

/// The abstract value of a prompt result.
pub open spec fn result_view(r: PromptResult) -> PromptResultView {
    match r {
        PromptResult::Input(s) => PromptResultView::Input(s@),
        PromptResult::Skip => PromptResultView::Skip,
        PromptResult::GoBack => PromptResultView::GoBack,
        PromptResult::Interrupted => PromptResultView::Interrupted,
    }
}

/// What the prompt does after a key press.
#[derive(Debug, Clone, PartialEq, Eq)]
pub enum PromptStep {
    /// Show the input and the suggestions again.
    Redraw,
    /// Nothing changed.
    Wait,
    /// The prompt is answered.
    Finish(PromptResult),
    /// Ask for a new name for this folder, then report it with
    /// [`PromptState::apply_rename`].
    Rename(String),
}

/// The abstract value of a prompt step.
pub enum PromptStepView {
    Redraw,
    Wait,
    Finish(PromptResultView),
    Rename(Seq<char>),
}

/// The abstract value of a prompt step.
pub open spec fn step_view(s: PromptStep) -> PromptStepView {
    match s {
        PromptStep::Redraw => PromptStepView::Redraw,
        PromptStep::Wait => PromptStepView::Wait,
        PromptStep::Finish(r) => PromptStepView::Finish(result_view(r)),
        PromptStep::Rename(n) => PromptStepView::Rename(n@),
    }
}

/// The abstract state of the prompt.
pub struct PromptModel {
    /// What has been typed.
    pub input: Seq<char>,
    /// The highlighted suggestion.
    pub selected: nat,
    /// The folder names offered.
    pub dirs: Seq<Seq<char>>,
}

/// What the Enter key answers for `input`: skip when only white space
/// was typed, else the trimmed input.
pub open spec fn enter_result(input: Seq<char>) -> PromptResultView {
    if trimmed(input).len() == 0 {
        PromptResultView::Skip
    } else {
        PromptResultView::Input(trimmed(input))
    }
}

/// The prompt's state after `key`.
pub open spec fn prompt_next(m: PromptModel, key: Key) -> PromptModel {
    let list = match_list(m.input, m.dirs);
    match key {
        Key::Tab => PromptModel {
            input: if list.len() > 0 && m.selected < list.len() {
                list[m.selected as int]
            } else {
                m.input
            },
            selected: 0,
            ..m
        },
        Key::Backspace => PromptModel {
            input: if m.input.len() > 0 {
                m.input.drop_last()
            } else {
                m.input
            },
            selected: 0,
            ..m
        },
        Key::Up => PromptModel {
            selected: if m.selected > 0 {
                (m.selected - 1) as nat
            } else {
                m.selected
            },
            ..m
        },
        Key::Down => PromptModel {
            selected: if list.len() > 0 && m.selected < list.len() - 1 {
                m.selected + 1
            } else {
                m.selected
            },
            ..m
        },
        Key::Char(c) => PromptModel { input: m.input.push(c), selected: 0, ..m },
        _ => m,
    }
}

/// What the prompt does after `key`.
pub open spec fn prompt_reply(m: PromptModel, key: Key) -> PromptStepView {
    let list = match_list(m.input, m.dirs);
    match key {
        Key::Ctrl(c) => if c == 'c' {
            PromptStepView::Finish(PromptResultView::Interrupted)
        } else if c == 'r' && list.len() > 0 && m.selected < list.len() {
            PromptStepView::Rename(list[m.selected as int])
        } else {
            PromptStepView::Wait
        },
        Key::Esc => PromptStepView::Finish(PromptResultView::Interrupted),
        Key::Enter => PromptStepView::Finish(enter_result(m.input)),
        Key::Left => if m.input.len() == 0 {
            PromptStepView::Finish(PromptResultView::GoBack)
        } else {
            PromptStepView::Wait
        },
        Key::Right => if m.input.len() == 0 {
            PromptStepView::Finish(PromptResultView::Skip)
        } else {
            PromptStepView::Wait
        },
        Key::Tab | Key::Backspace | Key::Up | Key::Down | Key::Char(_) => PromptStepView::Redraw,
        Key::Other => PromptStepView::Wait,
    }
}

/// Left and Right answer the prompt only when nothing is typed (Left steps
/// back, Right skips); with text typed they do nothing at all.
pub proof fn lemma_arrows_answer_only_blank_prompt(m: PromptModel)
    ensures
        prompt_next(m, Key::Left) == m,
        prompt_next(m, Key::Right) == m,
        m.input.len() > 0 ==> prompt_reply(m, Key::Left) == PromptStepView::Wait,
        m.input.len() > 0 ==> prompt_reply(m, Key::Right) == PromptStepView::Wait,
        m.input.len() == 0 ==> prompt_reply(m, Key::Left) == PromptStepView::Finish(
            PromptResultView::GoBack,
        ),
        m.input.len() == 0 ==> prompt_reply(m, Key::Right) == PromptStepView::Finish(
            PromptResultView::Skip,
        ),
{
}

/// The prompt is answered only by Enter, Esc, Ctrl+C, or Left or Right with
/// nothing typed; Enter answers the typed text, trimmed, or a skip when
/// only white space was typed; Esc and Ctrl+C stop sorting.
pub proof fn lemma_prompt_answers(m: PromptModel, key: Key)
    ensures
        prompt_reply(m, key) is Finish <==> (key == Key::Enter || key == Key::Esc || key == Key::Ctrl('c')
            || (m.input.len() == 0 && (key == Key::Left || key == Key::Right))),
        key == Key::Esc || key == Key::Ctrl('c') ==> prompt_reply(m, key) == PromptStepView::Finish(
            PromptResultView::Interrupted,
        ),
        trimmed(m.input).len() == 0 ==> prompt_reply(m, Key::Enter) == PromptStepView::Finish(
            PromptResultView::Skip,
        ),
        trimmed(m.input).len() > 0 ==> prompt_reply(m, Key::Enter) == PromptStepView::Finish(
            PromptResultView::Input(trimmed(m.input)),
        ),
{
}

/// Typing appends the character and puts the highlight on the first
/// suggestion; Backspace then gives the input back.
pub proof fn lemma_typing_and_backspace(m: PromptModel, c: char)
    ensures
        prompt_next(m, Key::Char(c)) == (PromptModel { input: m.input.push(c), selected: 0, ..m }),
        prompt_next(prompt_next(m, Key::Char(c)), Key::Backspace) == (PromptModel { selected: 0, ..m }),
{
    assert(m.input.push(c).drop_last() =~= m.input);
}

/// Up lowers a highlight above the first by exactly one and keeps the
/// first; Down raises it by exactly one while a suggestion follows; Up
/// undoes a Down that moved. Neither changes what is typed.
pub proof fn lemma_prompt_highlight_steps(m: PromptModel)
    ensures
        m.selected > 0 ==> prompt_next(m, Key::Up) == (PromptModel { selected: (m.selected - 1) as nat, ..m }),
        m.selected == 0 ==> prompt_next(m, Key::Up) == m,
        m.selected + 1 < match_list(m.input, m.dirs).len() ==> prompt_next(m, Key::Down) == (PromptModel {
            selected: m.selected + 1,
            ..m
        }),
        m.selected + 1 < match_list(m.input, m.dirs).len() ==> prompt_next(prompt_next(m, Key::Down), Key::Up)
            == m,
{
}

/// The state of the destination prompt.
pub struct PromptState {
    input: String,
    selected: usize,
    dirs: Vec<String>,
}

impl View for PromptState {
    type V = PromptModel;

    closed spec fn view(&self) -> PromptModel {
        PromptModel { input: self.input@, selected: self.selected as nat, dirs: names_view(self.dirs@) }
    }
}

impl PromptState {
    /// A prompt offering the folders `dirs`, with nothing typed.
    pub fn new(dirs: Vec<String>) -> (s: Self)
        ensures
            s@ == (PromptModel { input: Seq::empty(), selected: 0, dirs: names_view(dirs@) }),
    {
        PromptState { input: String::new(), selected: 0, dirs }
    }

    /// What has been typed.
    pub fn input(&self) -> (r: &str)
        ensures
            r@ == self@.input,
    {
        self.input.as_str()
    }

    /// The highlighted suggestion.
    pub fn selected(&self) -> (r: usize)
        ensures
            r == self@.selected,
    {
        self.selected
    }

    /// The folder names offered.
    pub fn dirs(&self) -> (r: &Vec<String>)
        ensures
            names_view(r@) == self@.dirs,
    {
        &self.dirs
    }

    /// The suggestions for what has been typed, best first.
    pub fn matches(&self) -> (r: Vec<String>)
        ensures
            names_view(r@) == match_list(self@.input, self@.dirs),
    {
        matching_names(self.input.as_str(), &self.dirs)
    }

    /// Handles one key press.
    pub fn handle_key(&mut self, key: Key) -> (r: PromptStep)
        requires
            old(self)@.selected < usize::MAX,
        ensures
            final(self)@ == prompt_next(old(self)@, key),
            step_view(r) == prompt_reply(old(self)@, key),
    {
        match key {
            Key::Ctrl(_) => self.on_ctrl(key),
            Key::Enter => self.on_enter(key),
            Key::Tab => self.on_tab(key),
            Key::Backspace => {
                self.input = drop_last_char(&self.input);
                self.selected = 0;
                PromptStep::Redraw
            },
            Key::Up => {
                if self.selected > 0 {
                    self.selected = self.selected - 1;
                }
                PromptStep::Redraw
            },
            Key::Down => self.on_down(key),
            Key::Left => {
                if self.input.as_str().unicode_len() == 0 {
                    PromptStep::Finish(PromptResult::GoBack)
                } else {
                    PromptStep::Wait
                }
            },
            Key::Right => {
                if self.input.as_str().unicode_len() == 0 {
                    PromptStep::Finish(PromptResult::Skip)
                } else {
                    PromptStep::Wait
                }
            },
            Key::Char(c) => {
                push_char(&mut self.input, c);
                self.selected = 0;
                PromptStep::Redraw
            },
            Key::Esc => PromptStep::Finish(PromptResult::Interrupted),
            Key::Other => PromptStep::Wait,
        }
    }

    fn on_ctrl(&mut self, key: Key) -> (r: PromptStep)
        requires
            key is Ctrl,
        ensures
            final(self)@ == prompt_next(old(self)@, key),
            step_view(r) == prompt_reply(old(self)@, key),
    {
        let c = match key {
            Key::Ctrl(c) => c,
            _ => ' ',
        };
        if c == 'c' {
            PromptStep::Finish(PromptResult::Interrupted)
        } else if c == 'r' {
            let list = self.matches();
            if list.len() > 0 && self.selected < list.len() {
                PromptStep::Rename(list[self.selected].clone())
            } else {
                PromptStep::Wait
            }
        } else {
            PromptStep::Wait
        }
    }

    fn on_enter(&mut self, key: Key) -> (r: PromptStep)
        requires
            key is Enter,
        ensures
            final(self)@ == prompt_next(old(self)@, key),
            step_view(r) == prompt_reply(old(self)@, key),
    {
        let t = trim(self.input.as_str());
        if t.as_str().unicode_len() == 0 {
            PromptStep::Finish(PromptResult::Skip)
        } else {
            PromptStep::Finish(PromptResult::Input(t))
        }
    }

    fn on_tab(&mut self, key: Key) -> (r: PromptStep)
        requires
            key is Tab,
        ensures
            final(self)@ == prompt_next(old(self)@, key),
            step_view(r) == prompt_reply(old(self)@, key),
    {
        let list = self.matches();
        if list.len() > 0 && self.selected < list.len() {
            self.input = list[self.selected].clone();
        }
        self.selected = 0;
        PromptStep::Redraw
    }

    fn on_down(&mut self, key: Key) -> (r: PromptStep)
        requires
            key is Down,
            old(self)@.selected < usize::MAX,
        ensures
            final(self)@ == prompt_next(old(self)@, key),
            step_view(r) == prompt_reply(old(self)@, key),
    {
        let list = self.matches();
        if list.len() > 0 && self.selected < list.len() - 1 {
            self.selected = self.selected + 1;
        }
        PromptStep::Redraw
    }

    /// Finishes a rename asked for by [`PromptStep::Rename`]: `renamed` is
    /// the new name when the folder `old_name` was renamed on disk. The
    /// first offered folder named `old_name` then takes the new name; the
    /// first suggestion is highlighted either way.
    pub fn apply_rename(&mut self, old_name: &str, renamed: Option<String>)
        ensures
            final(self)@.input == old(self)@.input,
            final(self)@.selected == 0,
            final(self)@.dirs == match renamed {
                Some(n) => if old(self)@.dirs.contains(old_name@) {
                    old(self)@.dirs.update(
                        crate::files::first_index(old(self)@.dirs, old_name@),
                        n@,
                    )
                } else {
                    old(self)@.dirs
                },
                None => old(self)@.dirs,
            },
    {
        self.selected = 0;
        match renamed {
            Some(n) => {
                match crate::files::position_of(&self.dirs, old_name) {
                    Some(i) => {
                        let ghost dv = self@.dirs;
                        let ghost nv = n@;
                        self.dirs[i] = n;
                        assert(dv.contains(old_name@));
                        assert(names_view(self.dirs@) =~= dv.update(i as int, nv));
                    },
                    None => {},
                }
            },
            None => {},
        }
    }
}

/// The new name to give a folder after the rename question was answered
/// with `answer` (`None`: cancelled): only a non-empty name different from
/// the old one leads to a rename.
pub fn rename_target(old_name: &str, answer: Option<String>) -> (r: Option<String>)
    ensures
        r == match answer {
            Some(n) => if n@.len() > 0 && n@ != old_name@ {
                Some(n)
            } else {
                None
            },
            None => None::<String>,
        },
{
    match answer {
        Some(n) => {
            if n.as_str().unicode_len() > 0 && !str_equal(n.as_str(), old_name) {
                Some(n)
            } else {
                None
            }
        },
        None => None,
    }
}


/// What the rename question does after a key press.
#[derive(Debug, Clone, PartialEq, Eq)]
pub enum RenameStep {
    /// Show the name being edited again.
    Redraw,
    /// Nothing changed.
    Wait,
    /// The question is answered: the trimmed new name, or `None` when
    /// cancelled.
    Done(Option<String>),
}

/// The state of the rename question: the name being edited.
pub struct RenameState {
    name: String,
}

impl View for RenameState {
    type V = Seq<char>;

    closed spec fn view(&self) -> Seq<char> {
        self.name@
    }
}

impl RenameState {
    /// Starts editing from the folder's current name.
    pub fn new(old_name: &str) -> (s: Self)
        ensures
            s@ == old_name@,
    {
        RenameState { name: String::from_str(old_name) }
    }

    /// The name being edited.
    pub fn name(&self) -> (r: &str)
        ensures
            r@ == self@,
    {
        self.name.as_str()
    }

    /// Handles one key press: Escape and Control-C cancel, Enter answers
    /// with the trimmed name, Backspace and characters edit it.
    pub fn handle_key(&mut self, key: Key) -> (r: RenameStep)
        ensures
            match key {
                Key::Esc => final(self)@ == old(self)@ && r == RenameStep::Done(None),
                Key::Ctrl(c) => final(self)@ == old(self)@ && if c == 'c' {
                    r == RenameStep::Done(None)
                } else {
                    r == RenameStep::Wait
                },
                Key::Enter => final(self)@ == old(self)@ && (r matches RenameStep::Done(Some(n))
                    && n@ == trimmed(old(self)@)),
                Key::Backspace => final(self)@ == (if old(self)@.len() > 0 {
                    old(self)@.drop_last()
                } else {
                    old(self)@
                }) && r == RenameStep::Redraw,
                Key::Char(c) => final(self)@ == old(self)@.push(c) && r == RenameStep::Redraw,
                _ => final(self)@ == old(self)@ && r == RenameStep::Wait,
            },
    {
        match key {
            Key::Esc => RenameStep::Done(None),
            Key::Ctrl(c) => {
                if c == 'c' {
                    RenameStep::Done(None)
                } else {
                    RenameStep::Wait
                }
            },
            Key::Enter => RenameStep::Done(Some(trim(self.name.as_str()))),
            Key::Backspace => {
                self.name = drop_last_char(&self.name);
                RenameStep::Redraw
            },
            Key::Char(c) => {
                push_char(&mut self.name, c);
                RenameStep::Redraw
            },
            _ => RenameStep::Wait,
        }
    }
}

/// How many suggestions fit on a terminal `term_height` rows high: the
/// rows left after the 10 taken by the header, preview and prompt, and at
/// least 5.
pub fn max_visible_rows(term_height: u16) -> (r: usize)
    ensures
        r == if term_height >= 15 { (term_height - 10) as usize } else { 5usize },
{
    let available: usize = if term_height > 10 {
        (term_height - 10) as usize
    } else {
        0
    };
    if available > 5 {
        available
    } else {
        5
    }
}

/// The window of suggestions shown, as `(start, end)` positions: all of
/// them when they fit in `max_vis` rows, else `max_vis` of them with the
/// selected one kept near the middle.
pub open spec fn window_of(len: nat, selected: nat, max_vis: nat) -> (nat, nat) {
    if len <= max_vis {
        (0, len)
    } else {
        let half = max_vis / 2;
        let start: nat = if selected < half {
            0
        } else if selected + half >= len {
            (len - max_vis) as nat
        } else {
            (selected - half) as nat
        };
        (start, start + max_vis)
    }
}

/// The selected suggestion is always drawn: the window holds it, and as
/// many suggestions as fit (all of them when they fit).
pub proof fn lemma_selected_in_window(len: nat, selected: nat, max_vis: nat)
    requires
        selected < len,
        max_vis >= 1,
    ensures
        window_of(len, selected, max_vis).0 <= selected < window_of(len, selected, max_vis).1 <= len,
        window_of(len, selected, max_vis).1 - window_of(len, selected, max_vis).0 == if len <= max_vis {
            len
        } else {
            max_vis
        },
{
}

/// The window of `matches_len` suggestions shown in `max_vis` rows with
/// `selected` highlighted (see [`window_of`]).
pub fn visible_window(matches_len: usize, selected: usize, max_vis: usize) -> (r: (usize, usize))
    requires
        selected + max_vis / 2 <= usize::MAX,
    ensures
        r.0 as nat == window_of(matches_len as nat, selected as nat, max_vis as nat).0,
        r.1 as nat == window_of(matches_len as nat, selected as nat, max_vis as nat).1,
        r.0 <= r.1 <= matches_len,
{
    if matches_len <= max_vis {
        return (0, matches_len);
    }
    let half = max_vis / 2;
    let start = if selected < half {
        0
    } else if selected + half >= matches_len {
        matches_len - max_vis
    } else {
        selected - half
    };
    (start, start + max_vis)
}

/// The lines drawn under the prompt for a list of suggestions.
#[derive(Clone, Copy, Debug, PartialEq, Eq, Structural)]
pub struct SuggestionLayout {
    /// First suggestion shown.
    pub start: usize,
    /// One past the last suggestion shown.
    pub end: usize,
    /// A "more above" line is drawn first.
    pub has_above: bool,
    /// A "more below" line is drawn last.
    pub has_below: bool,
    /// How many lines are drawn.
    pub drawn_lines: usize,
}

/// The layout of `matches_len` suggestions in `max_vis` rows with
/// `selected` highlighted: the visible window, an indicator line above
/// when suggestions are hidden before it and one below when hidden after.
pub fn suggestion_layout(matches_len: usize, selected: usize, max_vis: usize) -> (r: SuggestionLayout)
    requires
        selected + max_vis / 2 <= usize::MAX,
    ensures
        r.start as nat == window_of(matches_len as nat, selected as nat, max_vis as nat).0,
        r.end as nat == window_of(matches_len as nat, selected as nat, max_vis as nat).1,
        r.has_above == (r.start > 0),
        r.has_below == (r.end < matches_len),
        r.drawn_lines == (if r.has_above { 1int } else { 0int }) + (r.end - r.start) + (if r.has_below {
            1int
        } else {
            0int
        }),
{
    let (start, end) = visible_window(matches_len, selected, max_vis);
    let has_above = start > 0;
    let has_below = end < matches_len;
    let drawn = (if has_above { 1 } else { 0 }) + (end - start) + (if has_below { 1 } else { 0 });
    SuggestionLayout { start, end, has_above, has_below, drawn_lines: drawn }
}

/// A line drawn under the prompt.
pub struct SuggestionRow {
    /// What the line shows.
    pub text: String,
    /// The line is drawn in reverse video (the selected suggestion).
    pub highlighted: bool,
}

/// The abstract value of a drawn line.
pub open spec fn row_view(r: SuggestionRow) -> (Seq<char>, bool) {
    (r.text@, r.highlighted)
}

/// The line that counts the suggestions hidden above the window.
pub open spec fn more_above_text(n: nat) -> Seq<char> {
    "  \u{2191} "@ + decimal(n) + " more"@
}

/// The line that counts the suggestions hidden below the window.
pub open spec fn more_below_text(n: nat) -> Seq<char> {
    "  \u{2193} "@ + decimal(n) + " more"@
}

/// The line of a suggestion.
pub open spec fn name_row_text(name: Seq<char>) -> Seq<char> {
    "  "@ + name + " "@
}

/// The visible suggestions from `start` to `end`, the one at `selected`
/// highlighted.
pub open spec fn window_rows(names: Seq<Seq<char>>, start: nat, end: nat, selected: nat) -> Seq<
    (Seq<char>, bool),
> {
    Seq::new(
        (end - start) as nat,
        |k: int| (name_row_text(names[start + k]), start + k == selected),
    )
}

/// The lines drawn under the prompt for the suggestions `names` in
/// `max_vis` rows with `selected` highlighted: a count of the hidden ones
/// above when there are any, the visible window (see [`window_of`]), and a
/// count of the hidden ones below when there are any.
pub open spec fn rows_of(names: Seq<Seq<char>>, selected: nat, max_vis: nat) -> Seq<(Seq<char>, bool)> {
    let w = window_of(names.len(), selected, max_vis);
    let above = if w.0 > 0 {
        seq![(more_above_text(w.0), false)]
    } else {
        Seq::empty()
    };
    let below = if w.1 < names.len() {
        seq![(more_below_text((names.len() - w.1) as nat), false)]
    } else {
        Seq::empty()
    };
    above + window_rows(names, w.0, w.1, selected) + below
}

/// A line that counts hidden suggestions.
fn more_row(arrow: &str, n: usize) -> (r: SuggestionRow)
    ensures
        r.text@ == "  "@ + arrow@ + " "@ + decimal(n as nat) + " more"@,
        !r.highlighted,
{
    let mut t = String::from_str("  ");
    t.append(arrow);
    t.append(" ");
    t.append(decimal_string(n as u64).as_str());
    t.append(" more");
    SuggestionRow { text: t, highlighted: false }
}

/// The lines drawn under the prompt (see [`rows_of`]).
pub fn suggestion_rows(matches: &Vec<String>, selected: usize, max_vis: usize) -> (r: Vec<SuggestionRow>)
    requires
        selected + max_vis / 2 <= usize::MAX,
    ensures
        r@.map_values(|x: SuggestionRow| row_view(x)) == rows_of(names_view(matches@), selected as nat, max_vis as nat),
{
    let ghost names = names_view(matches@);
    let layout = suggestion_layout(matches.len(), selected, max_vis);
    let mut rows: Vec<SuggestionRow> = Vec::new();
    let ghost above: Seq<(Seq<char>, bool)> = Seq::empty();
    if layout.has_above {
        proof {
            reveal_strlit("\u{2191}");
            reveal_strlit("  \u{2191} ");
            reveal_strlit("  ");
            reveal_strlit(" ");
        }
        let row = more_row("\u{2191}", layout.start);
        rows.push(row);
        proof {
            above = seq![(more_above_text(layout.start as nat), false)];
            assert(row.text@ =~= more_above_text(layout.start as nat));
        }
    }
    assert(rows@.map_values(|x: SuggestionRow| row_view(x)) =~= above);
    let mut i: usize = layout.start;
    while i < layout.end
        invariant
            layout.start <= i <= layout.end <= matches.len(),
            names == names_view(matches@),
            rows@.map_values(|x: SuggestionRow| row_view(x)) == above + window_rows(
                names,
                layout.start as nat,
                i as nat,
                selected as nat,
            ),
        decreases layout.end - i,
    {
        let ghost prev = rows@.map_values(|x: SuggestionRow| row_view(x));
        let mut t = String::from_str("  ");
        t.append(matches[i].as_str());
        t.append(" ");
        rows.push(SuggestionRow { text: t, highlighted: i == selected });
        proof {
            assert(names[i as int] == matches@[i as int]@);
            assert(window_rows(names, layout.start as nat, (i + 1) as nat, selected as nat) =~= window_rows(
                names,
                layout.start as nat,
                i as nat,
                selected as nat,
            ).push((name_row_text(names[i as int]), i == selected)));
            assert(rows@.map_values(|x: SuggestionRow| row_view(x)) =~= prev.push(
                (name_row_text(names[i as int]), i == selected),
            ));
        }
        i = i + 1;
    }
    if layout.has_below {
        proof {
            reveal_strlit("\u{2193}");
            reveal_strlit("  \u{2193} ");
            reveal_strlit("  ");
            reveal_strlit(" ");
        }
        let ghost prev = rows@.map_values(|x: SuggestionRow| row_view(x));
        let row = more_row("\u{2193}", matches.len() - layout.end);
        rows.push(row);
        proof {
            assert(row.text@ =~= more_below_text((names.len() - layout.end) as nat));
            assert(rows@.map_values(|x: SuggestionRow| row_view(x)) =~= prev.push(
                (more_below_text((names.len() - layout.end) as nat), false),
            ));
        }
    }
    proof {
        let below = if layout.end < names.len() {
            seq![(more_below_text((names.len() - layout.end) as nat), false)]
        } else {
            Seq::<(Seq<char>, bool)>::empty()
        };
        assert(rows@.map_values(|x: SuggestionRow| row_view(x)) =~= above + window_rows(
            names,
            layout.start as nat,
            layout.end as nat,
            selected as nat,
        ) + below);
    }
    rows
}

} // verus!
