//! The decisions of the desktop front end: the setup form, the status
//! line, and what each message asks of the window.
use vstd::prelude::*;
use vstd::string::*;
use crate::prompt::{trim, trimmed};
use crate::session::{concat, Outcome, Progress};
use crate::text::{decimal, decimal_string, digits_value, is_digit};
use crate::names::{names_view, opt_view};

verus! {

/// What the desktop front end starts from (from its command line).
#[derive(Clone)]
pub struct Flags {
    pub origin: Option<String>,
    pub destination: Option<String>,
    pub depth: u16,
}

/// The messages of the desktop front end.
#[derive(Debug, Clone)]
pub enum Message {
    OriginChanged(String),
    DestinationChanged(String),
    DepthChanged(String),
    BrowseOrigin,
    BrowseDestination,
    Start,
    InputChanged(String),
    Confirm,
    Skip,
    GoBack,
    SuggestionUp,
    SuggestionDown,
    AcceptSuggestion,
    SelectSuggestion(usize),
    ArrowLeft,
    ArrowRight,
    Tick,
    Quit,
}

/// The status line after a step of the session.
pub open spec fn outcome_text(o: Outcome) -> Seq<char> {
    match o {
        Outcome::Moved { subfolder, dest_name } => "Moved \u{2192} "@ + subfolder@ + "/"@ + dest_name@,
        Outcome::Skipped => "Skipped"@,
        Outcome::Undone => "Undone"@,
        Outcome::MoveError(e) => "Error "@ + e@,
        Outcome::AtStart => "Already at the first file"@,
        Outcome::Done => Seq::empty(),
    }
}

/// The status line after a step of the session.
pub fn describe_outcome(o: &Outcome) -> (r: String)
    ensures
        r@ == outcome_text(*o),
{
    match o {
        Outcome::Moved { subfolder, dest_name } => {
            let mut r = String::from_str("Moved \u{2192} ");
            r.append(subfolder.as_str());
            r.append("/");
            r.append(dest_name.as_str());
            r
        },
        Outcome::Skipped => String::from_str("Skipped"),
        Outcome::Undone => String::from_str("Undone"),
        Outcome::MoveError(e) => concat("Error ", e.as_str()),
        Outcome::AtStart => String::from_str("Already at the first file"),
        Outcome::Done => String::new(),
    }
}

/// The header of the sorting screen: the one-based position (at most the
/// number of files), the number of files and both counters.
pub open spec fn header_text(p: Progress) -> Seq<char> {
    let shown = if p.index + 1 < p.total { p.index + 1 } else { p.total as int };
    "["@ + decimal(shown as nat) + "/"@ + decimal(p.total as nat) + "]  moved "@ + decimal(
        p.moved as nat,
    ) + "  skipped "@ + decimal(p.skipped as nat)
}

/// The header of the sorting screen.
pub fn sorting_header(p: Progress) -> (r: String)
    ensures
        r@ == header_text(p),
{
    let index = p.index as u64;
    let total = p.total as u64;
    let shown = if index < total { index + 1 } else { total };
    let mut r = String::from_str("[");
    r.append(decimal_string(shown).as_str());
    r.append("/");
    r.append(decimal_string(total).as_str());
    r.append("]  moved ");
    r.append(decimal_string(p.moved as u64).as_str());
    r.append("  skipped ");
    r.append(decimal_string(p.skipped as u64).as_str());
    r
}

/// The most suggestions the sorting screen lists.
pub const MAX_SUGGESTIONS: usize = 12;

/// The suggestions the sorting screen lists: the first
/// [`MAX_SUGGESTIONS`], each with whether it is the highlighted one.
pub fn suggestion_buttons(suggestions: &Vec<String>, selected: usize) -> (r: Vec<(String, bool)>)
    ensures
        r.len() == (if suggestions.len() < MAX_SUGGESTIONS { suggestions.len() } else { MAX_SUGGESTIONS }),
        forall|k: int| 0 <= k < r.len() ==> #[trigger] r[k] == (suggestions[k], k == selected),
{
    let n = if suggestions.len() < MAX_SUGGESTIONS { suggestions.len() } else { MAX_SUGGESTIONS };
    let mut r: Vec<(String, bool)> = Vec::new();
    let mut i: usize = 0;
    while i < n
        invariant
            n <= suggestions.len(),
            i <= n,
            r.len() == i,
            forall|j: int| 0 <= j < i ==> #[trigger] r[j] == (suggestions[j], j == selected),
        decreases n - i,
    {
        let name = suggestions[i].clone();
        assert(name == suggestions[i as int]);
        r.push((name, i == selected));
        i = i + 1;
    }
    r
}

/// The summary on the last screen.
pub open spec fn summary_text(p: Progress) -> Seq<char> {
    "Moved "@ + decimal(p.moved as nat) + ", skipped "@ + decimal(p.skipped as nat) + ", of "@
        + decimal(p.total as nat) + " files."@
}

/// The summary on the last screen.
pub fn done_summary(p: Progress) -> (r: String)
    ensures
        r@ == summary_text(p),
{
    let mut r = String::from_str("Moved ");
    r.append(decimal_string(p.moved as u64).as_str());
    r.append(", skipped ");
    r.append(decimal_string(p.skipped as u64).as_str());
    r.append(", of ");
    r.append(decimal_string(p.total as u64).as_str());
    r.append(" files.");
    r
}

/// The outcome of checking a folder field: the folder's canonical path, or
/// the message shown under the form.
pub open spec fn dir_check(
    input: Seq<char>,
    label: Seq<char>,
    resolved: Result<(Seq<char>, bool), Seq<char>>,
) -> Result<Seq<char>, Seq<char>> {
    let t = trimmed(input);
    if t.len() == 0 {
        Err("Please choose a "@ + label + " folder."@)
    } else {
        match resolved {
            Err(e) => Err(label + " '"@ + t + "': "@ + e),
            Ok((p, is_dir)) => if is_dir {
                Ok(p)
            } else {
                Err(label + " '"@ + t + "' is not a directory."@)
            },
        }
    }
}

/// The abstract value of a resolved path.
pub open spec fn resolved_view(r: Result<(String, bool), String>) -> Result<(Seq<char>, bool), Seq<char>> {
    match r {
        Ok((p, d)) => Ok((p@, d)),
        Err(e) => Err(e@),
    }
}

/// The abstract value of a checked path.
pub open spec fn checked_view(r: Result<String, String>) -> Result<Seq<char>, Seq<char>> {
    match r {
        Ok(p) => Ok(p@),
        Err(e) => Err(e@),
    }
}

/// Checks the folder field `input` labelled `label`, given what resolving
/// its trimmed text on disk gave (`resolved`: the canonical path and
/// whether it is a folder, or why it could not be resolved; not looked at
/// when the field is blank).
pub fn validate_dir(input: &str, label: &str, resolved: Result<(String, bool), String>) -> (r: Result<
    String,
    String,
>)
    ensures
        checked_view(r) == dir_check(input@, label@, resolved_view(resolved)),
{
    let t = trim(input);
    if t.as_str().unicode_len() == 0 {
        let mut m = String::from_str("Please choose a ");
        m.append(label);
        m.append(" folder.");
        return Err(m);
    }
    match resolved {
        Err(e) => {
            let mut m = String::from_str(label);
            m.append(" '");
            m.append(t.as_str());
            m.append("': ");
            m.append(e.as_str());
            Err(m)
        },
        Ok((p, is_dir)) => {
            if is_dir {
                Ok(p)
            } else {
                let mut m = String::from_str(label);
                m.append(" '");
                m.append(t.as_str());
                m.append("' is not a directory.");
                Err(m)
            }
        },
    }
}

/// `s` without a leading `+`.
pub open spec fn unsigned_part(s: Seq<char>) -> Seq<char> {
    if s.len() > 0 && s[0] == '+' {
        s.drop_first()
    } else {
        s
    }
}

/// Every character of `d` is a decimal digit.
pub open spec fn all_digits(d: Seq<char>) -> bool {
    forall|i: int| 0 <= i < d.len() ==> is_digit(#[trigger] d[i])
}

/// The value that `str::parse::<u16>` reads from `s`: an optional `+`
/// followed by one or more decimal digits denoting at most 65535.
pub open spec fn parsed_u16(s: Seq<char>) -> Option<u16> {
    let d = unsigned_part(s);
    if d.len() > 0 && all_digits(d) && digits_value(d) <= 65535 {
        Some(digits_value(d) as u16)
    } else {
        None
    }
}

proof fn lemma_digits_value_monotone(d: Seq<char>, i: int, j: int)
    requires
        0 <= i <= j <= d.len(),
    ensures
        digits_value(d.take(i)) <= digits_value(d.take(j)),
    decreases j - i,
{
    if i < j {
        lemma_digits_value_monotone(d, i, j - 1);
        assert(d.take(j).drop_last() =~= d.take(j - 1));
    }
}

fn digit_of(c: char) -> (v: u32)
    requires
        is_digit(c),
    ensures
        v == crate::text::digit_value(c),
{
    if c == '1' {
        1
    } else if c == '2' {
        2
    } else if c == '3' {
        3
    } else if c == '4' {
        4
    } else if c == '5' {
        5
    } else if c == '6' {
        6
    } else if c == '7' {
        7
    } else if c == '8' {
        8
    } else if c == '9' {
        9
    } else {
        0
    }
}

/// Reads an unsigned 16-bit number as `str::parse::<u16>` does.
pub fn parse_u16(s: &str) -> (r: Option<u16>)
    ensures
        r == parsed_u16(s@),
{
    let n = s.unicode_len();
    let start: usize = if n > 0 && s.get_char(0) == '+' {
        1
    } else {
        0
    };
    let ghost d = unsigned_part(s@);
    assert(d =~= s@.skip(start as int));
    if start == n {
        return None;
    }
    let mut value: u32 = 0;
    let mut i: usize = start;
    assert(d.take(0) =~= Seq::<char>::empty());
    while i < n
        invariant
            start <= i <= n,
            n == s@.len(),
            d == s@.skip(start as int),
            d == unsigned_part(s@),
            value as nat == digits_value(d.take(i - start)),
            value <= 65535,
            forall|k: int| 0 <= k < i - start ==> is_digit(#[trigger] d[k]),
        decreases n - i,
    {
        let c = s.get_char(i);
        assert(d[i - start] == c);
        if !('0' <= c && c <= '9') {
            assert(!is_digit(d[i - start]));
            return None;
        }
        let v = digit_of(c);
        assert(d.take(i - start + 1).drop_last() =~= d.take(i - start));
        assert(d.take(i - start + 1).last() == c);
        assert(digits_value(d.take(i - start + 1)) == value * 10 + v);
        let next = value * 10 + v;
        if next > 65535 {
            proof {
                lemma_digits_value_monotone(d, i - start + 1, d.len() as int);
                assert(d.take(d.len() as int) =~= d);
                assert(digits_value(d) > 65535);
            }
            return None;
        }
        value = next;
        i = i + 1;
    }
    assert(d.take(n - start) =~= d);
    Some(value as u16)
}

/// The scan depth given in the setup form: the trimmed field read as a
/// number, 0 when it is not one.
pub fn parse_depth(input: &str) -> (r: u16)
    ensures
        r == match parsed_u16(trimmed(input@)) {
            Some(v) => v,
            None => 0u16,
        },
{
    let t = trim(input);
    match parse_u16(t.as_str()) {
        Some(v) => v,
        None => 0,
    }
}


/// What the window has to do after a message.
#[derive(Debug, Clone, PartialEq, Eq)]
pub enum Command {
    /// Nothing beyond redrawing.
    Nothing,
    /// Ask for the source folder in a dialog.
    PickOrigin,
    /// Ask for the destination folder in a dialog.
    PickDestination,
    /// Check the form and start sorting.
    Start,
    /// Compute the suggestions for the input again.
    Recompute,
    /// Move the current file into this subfolder.
    Move(String),
    /// Skip the current file.
    Skip,
    /// Step back to the previous file.
    GoBack,
    /// Show the next video frame.
    Tick,
    /// Close the window.
    Quit,
}

/// The abstract value of a command.
pub enum CommandView {
    Nothing,
    PickOrigin,
    PickDestination,
    Start,
    Recompute,
    Move(Seq<char>),
    Skip,
    GoBack,
    Tick,
    Quit,
}

/// The abstract value of a command.
pub open spec fn command_view(c: Command) -> CommandView {
    match c {
        Command::Nothing => CommandView::Nothing,
        Command::PickOrigin => CommandView::PickOrigin,
        Command::PickDestination => CommandView::PickDestination,
        Command::Start => CommandView::Start,
        Command::Recompute => CommandView::Recompute,
        Command::Move(s) => CommandView::Move(s@),
        Command::Skip => CommandView::Skip,
        Command::GoBack => CommandView::GoBack,
        Command::Tick => CommandView::Tick,
        Command::Quit => CommandView::Quit,
    }
}

/// The screens of the desktop front end.
#[derive(Clone, Copy, Debug, PartialEq, Eq, Structural)]
pub enum Screen {
    /// The setup form.
    Setup,
    /// Sorting, file by file.
    Sorting,
    /// Every file has been passed.
    Done,
}

/// The abstract state of the form fields and of the destination input.
pub struct FormModel {
    pub origin: Seq<char>,
    pub destination: Seq<char>,
    pub depth: Seq<char>,
    pub input: Seq<char>,
    pub suggestions: Seq<Seq<char>>,
    pub selected: nat,
    /// The status line under the input.
    pub status: Seq<char>,
    /// Why the last start failed, shown on the setup form.
    pub setup_error: Option<Seq<char>>,
    pub screen: Screen,
}

/// The window after the current file changed: the input cleared, the
/// highlight on the first of the fresh `suggestions`, and the last screen
/// once every file has been passed.
pub open spec fn refreshed(m: FormModel, done: bool, suggestions: Seq<Seq<char>>) -> FormModel {
    FormModel {
        input: Seq::empty(),
        selected: 0,
        suggestions,
        screen: if done {
            Screen::Done
        } else {
            m.screen
        },
        ..m
    }
}

/// The form after `msg`.
pub open spec fn form_next(m: FormModel, msg: Message) -> FormModel {
    match msg {
        Message::OriginChanged(s) => FormModel { origin: s@, ..m },
        Message::DestinationChanged(s) => FormModel { destination: s@, ..m },
        Message::DepthChanged(s) => FormModel { depth: s@, ..m },
        Message::InputChanged(s) => FormModel { input: s@, selected: 0, ..m },
        Message::SuggestionUp => FormModel {
            selected: if m.selected > 0 {
                (m.selected - 1) as nat
            } else {
                0
            },
            ..m
        },
        Message::SuggestionDown => FormModel {
            selected: if m.selected + 1 < m.suggestions.len() {
                m.selected + 1
            } else {
                m.selected
            },
            ..m
        },
        Message::AcceptSuggestion => if m.selected < m.suggestions.len() {
            FormModel { input: m.suggestions[m.selected as int], selected: 0, ..m }
        } else {
            m
        },
        Message::SelectSuggestion(i) => if i < m.suggestions.len() {
            FormModel { input: m.suggestions[i as int], selected: 0, ..m }
        } else {
            m
        },
        _ => m,
    }
}

/// Up and Down move the highlight one suggestion at a time and touch
/// nothing else: Up lowers a highlight above the first by exactly one and
/// keeps the first; Down raises it by exactly one while a suggestion
/// follows; and Up undoes a Down that moved.
pub proof fn lemma_highlight_steps(m: FormModel)
    ensures
        m.selected > 0 ==> form_next(m, Message::SuggestionUp) == (FormModel {
            selected: (m.selected - 1) as nat,
            ..m
        }),
        m.selected == 0 ==> form_next(m, Message::SuggestionUp) == m,
        m.selected + 1 < m.suggestions.len() ==> form_next(m, Message::SuggestionDown) == (FormModel {
            selected: m.selected + 1,
            ..m
        }),
        m.selected + 1 >= m.suggestions.len() ==> form_next(m, Message::SuggestionDown) == m,
        m.selected + 1 < m.suggestions.len() ==> form_next(
            form_next(m, Message::SuggestionDown),
            Message::SuggestionUp,
        ) == m,
        form_command(m, Message::SuggestionUp) == CommandView::Nothing,
        form_command(m, Message::SuggestionDown) == CommandView::Nothing,
{
}

/// Left and Right step through the files only while nothing is typed;
/// with text typed they do nothing. Confirm skips a blank input and
/// otherwise moves into the typed name, trimmed.
pub proof fn lemma_arrows_and_confirm(m: FormModel)
    ensures
        form_next(m, Message::ArrowLeft) == m,
        form_next(m, Message::ArrowRight) == m,
        form_next(m, Message::Confirm) == m,
        m.input.len() > 0 ==> form_command(m, Message::ArrowLeft) == CommandView::Nothing
            && form_command(m, Message::ArrowRight) == CommandView::Nothing,
        m.input.len() == 0 ==> form_command(m, Message::ArrowLeft) == CommandView::GoBack
            && form_command(m, Message::ArrowRight) == CommandView::Skip,
        trimmed(m.input).len() == 0 ==> form_command(m, Message::Confirm) == CommandView::Skip,
        trimmed(m.input).len() > 0 ==> form_command(m, Message::Confirm) == CommandView::Move(
            trimmed(m.input),
        ),
{
}

/// What the window has to do after `msg`.
pub open spec fn form_command(m: FormModel, msg: Message) -> CommandView {
    match msg {
        Message::BrowseOrigin => CommandView::PickOrigin,
        Message::BrowseDestination => CommandView::PickDestination,
        Message::Start => CommandView::Start,
        Message::InputChanged(_) => CommandView::Recompute,
        Message::Confirm => if trimmed(m.input).len() == 0 {
            CommandView::Skip
        } else {
            CommandView::Move(trimmed(m.input))
        },
        Message::Skip => CommandView::Skip,
        Message::GoBack => CommandView::GoBack,
        Message::ArrowLeft => if m.input.len() == 0 {
            CommandView::GoBack
        } else {
            CommandView::Nothing
        },
        Message::ArrowRight => if m.input.len() == 0 {
            CommandView::Skip
        } else {
            CommandView::Nothing
        },
        Message::AcceptSuggestion => if m.selected < m.suggestions.len() {
            CommandView::Recompute
        } else {
            CommandView::Nothing
        },
        Message::SelectSuggestion(i) => if i < m.suggestions.len() {
            CommandView::Recompute
        } else {
            CommandView::Nothing
        },
        Message::Tick => CommandView::Tick,
        Message::Quit => CommandView::Quit,
        _ => CommandView::Nothing,
    }
}

/// The fields of the setup form and the destination input of the desktop
/// front end.
pub struct FormState {
    origin: String,
    destination: String,
    depth: String,
    input: String,
    suggestions: Vec<String>,
    selected: usize,
    status: String,
    setup_error: Option<String>,
    screen: Screen,
}

impl View for FormState {
    type V = FormModel;

    closed spec fn view(&self) -> FormModel {
        FormModel {
            origin: self.origin@,
            destination: self.destination@,
            depth: self.depth@,
            input: self.input@,
            suggestions: names_view(self.suggestions@),
            selected: self.selected as nat,
            status: self.status@,
            setup_error: opt_view(self.setup_error),
            screen: self.screen,
        }
    }
}

impl FormState {
    /// The highlighted suggestion is one of them (or the first).
    pub open spec fn wf(&self) -> bool {
        self@.selected == 0 || self@.selected < self@.suggestions.len()
    }

    /// The form filled from the command line: the folders given (else
    /// empty) and the depth.
    pub fn new(flags: Flags) -> (s: Self)
        ensures
            s.wf(),
            s@.origin == match flags.origin {
                Some(o) => o@,
                None => Seq::<char>::empty(),
            },
            s@.destination == match flags.destination {
                Some(d) => d@,
                None => Seq::<char>::empty(),
            },
            s@.depth == decimal(flags.depth as nat),
            s@.input == Seq::<char>::empty(),
            s@.suggestions == Seq::<Seq<char>>::empty(),
            s@.selected == 0,
            s@.status == Seq::<char>::empty(),
            s@.setup_error is None,
            s@.screen == Screen::Setup,
    {
        let origin = match flags.origin {
            Some(o) => o,
            None => String::new(),
        };
        let destination = match flags.destination {
            Some(d) => d,
            None => String::new(),
        };
        let s = FormState {
            origin,
            destination,
            depth: decimal_string(flags.depth as u64),
            input: String::new(),
            suggestions: Vec::new(),
            selected: 0,
            status: String::new(),
            setup_error: None,
            screen: Screen::Setup,
        };
        assert(s@.suggestions =~= Seq::<Seq<char>>::empty());
        s
    }

    /// The source folder field.
    pub fn origin(&self) -> (r: &str)
        ensures
            r@ == self@.origin,
    {
        self.origin.as_str()
    }

    /// The destination folder field.
    pub fn destination(&self) -> (r: &str)
        ensures
            r@ == self@.destination,
    {
        self.destination.as_str()
    }

    /// The scan depth field.
    pub fn depth(&self) -> (r: &str)
        ensures
            r@ == self@.depth,
    {
        self.depth.as_str()
    }

    /// What has been typed as destination subfolder.
    pub fn input(&self) -> (r: &str)
        ensures
            r@ == self@.input,
    {
        self.input.as_str()
    }

    /// The suggestions shown.
    pub fn suggestions(&self) -> (r: &Vec<String>)
        ensures
            names_view(r@) == self@.suggestions,
    {
        &self.suggestions
    }

    /// The highlighted suggestion.
    pub fn selected(&self) -> (r: usize)
        ensures
            r == self@.selected,
    {
        self.selected
    }

    /// Handles a message: updates the fields and says what the window has
    /// to do.
    pub fn update(&mut self, msg: Message) -> (r: Command)
        requires
            old(self).wf(),
        ensures
            final(self).wf(),
            final(self)@ == form_next(old(self)@, msg),
            command_view(r) == form_command(old(self)@, msg),
    {
        assert(self@.suggestions.len() == self.suggestions@.len());
        assert(self.selected == 0 || self.selected < self.suggestions.len());
        match msg {
            Message::OriginChanged(s) => {
                self.origin = s;
                Command::Nothing
            },
            Message::DestinationChanged(s) => {
                self.destination = s;
                Command::Nothing
            },
            Message::DepthChanged(s) => {
                self.depth = s;
                Command::Nothing
            },
            Message::BrowseOrigin => Command::PickOrigin,
            Message::BrowseDestination => Command::PickDestination,
            Message::Start => Command::Start,
            Message::InputChanged(s) => {
                self.input = s;
                self.selected = 0;
                Command::Recompute
            },
            Message::Confirm => {
                let t = trim(self.input.as_str());
                if t.as_str().unicode_len() == 0 {
                    Command::Skip
                } else {
                    Command::Move(t)
                }
            },
            Message::Skip => Command::Skip,
            Message::GoBack => Command::GoBack,
            Message::ArrowLeft => {
                if self.input.as_str().unicode_len() == 0 {
                    Command::GoBack
                } else {
                    Command::Nothing
                }
            },
            Message::ArrowRight => {
                if self.input.as_str().unicode_len() == 0 {
                    Command::Skip
                } else {
                    Command::Nothing
                }
            },
            Message::SuggestionUp => {
                if self.selected > 0 {
                    self.selected = self.selected - 1;
                }
                Command::Nothing
            },
            Message::SuggestionDown => {
                assert(self@.suggestions.len() == self.suggestions@.len());
                assert(self.selected == 0 || self.selected < self.suggestions.len());
                if self.selected + 1 < self.suggestions.len() {
                    self.selected = self.selected + 1;
                }
                Command::Nothing
            },
            Message::AcceptSuggestion => self.take_suggestion(self.selected),
            Message::SelectSuggestion(i) => self.take_suggestion(i),
            Message::Tick => Command::Tick,
            Message::Quit => Command::Quit,
        }
    }

    fn take_suggestion(&mut self, i: usize) -> (r: Command)
        ensures
            final(self)@ == if i < old(self)@.suggestions.len() {
                FormModel { input: old(self)@.suggestions[i as int], selected: 0, ..old(self)@ }
            } else {
                old(self)@
            },
            command_view(r) == if i < old(self)@.suggestions.len() {
                CommandView::Recompute
            } else {
                CommandView::Nothing
            },
    {
        if i < self.suggestions.len() {
            self.input = self.suggestions[i].clone();
            self.selected = 0;
            Command::Recompute
        } else {
            Command::Nothing
        }
    }

    /// The screen shown.
    pub fn screen(&self) -> (r: Screen)
        ensures
            r == self@.screen,
    {
        self.screen
    }

    /// The status line.
    pub fn status(&self) -> (r: &str)
        ensures
            r@ == self@.status,
    {
        self.status.as_str()
    }

    /// Why the last start failed, if it did.
    pub fn setup_error(&self) -> (r: &Option<String>)
        ensures
            opt_view(*r) == self@.setup_error,
    {
        &self.setup_error
    }

    /// Records what came of the `Start` command: on success the sorting
    /// screen opens on the first file (see [`refreshed`]; `done` when there
    /// is no file, `suggestions` those for an empty input) and the setup
    /// error is cleared; on failure the error is shown on the setup form.
    pub fn after_start(&mut self, result: Result<(), String>, done: bool, suggestions: Vec<String>)
        requires
            old(self).wf(),
        ensures
            final(self).wf(),
            final(self)@ == match result {
                Ok(()) => refreshed(
                    FormModel { screen: Screen::Sorting, setup_error: None, ..old(self)@ },
                    done,
                    names_view(suggestions@),
                ),
                Err(e) => FormModel { setup_error: Some(e@), ..old(self)@ },
            },
    {
        match result {
            Ok(()) => {
                self.screen = Screen::Sorting;
                self.setup_error = None;
                self.refresh(done, suggestions);
            },
            Err(e) => {
                self.setup_error = Some(e);
            },
        }
    }

    /// Records the outcome of a step of the session (a move, a skip or a
    /// step back, as commanded by [`FormState::update`]): the status line
    /// describes it ([`describe_outcome`]), then the window moves on to the
    /// new current file (see [`refreshed`]; `done` when the session is
    /// finished, `suggestions` those for an empty input).
    pub fn after_step(&mut self, outcome: &Outcome, done: bool, suggestions: Vec<String>)
        requires
            old(self).wf(),
        ensures
            final(self).wf(),
            final(self)@ == refreshed(
                FormModel { status: outcome_text(*outcome), ..old(self)@ },
                done,
                names_view(suggestions@),
            ),
    {
        self.status = describe_outcome(outcome);
        self.refresh(done, suggestions);
    }

    fn refresh(&mut self, done: bool, suggestions: Vec<String>)
        ensures
            final(self).wf(),
            final(self)@ == refreshed(old(self)@, done, names_view(suggestions@)),
    {
        self.input = String::new();
        self.selected = 0;
        self.suggestions = suggestions;
        if done {
            self.screen = Screen::Done;
        }
    }

    /// Shows `list` as the suggestions; the highlight goes back to the
    /// first when it falls outside the list.
    pub fn set_suggestions(&mut self, list: Vec<String>)
        ensures
            final(self).wf(),
            final(self)@ == (FormModel {
                suggestions: names_view(list@),
                selected: if old(self)@.selected >= list@.len() {
                    0
                } else {
                    old(self)@.selected
                },
                ..old(self)@
            }),
    {
        if self.selected >= list.len() {
            self.selected = 0;
        }
        self.suggestions = list;
    }

    /// Clears the input after the current file changed.
    pub fn clear_input(&mut self)
        requires
            old(self).wf(),
        ensures
            final(self).wf(),
            final(self)@ == (FormModel { input: Seq::empty(), selected: 0, ..old(self)@ }),
    {
        self.input = String::new();
        self.selected = 0;
    }
}

} // verus!
