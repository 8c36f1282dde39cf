use pifbip::gui::{
    describe_outcome, done_summary, parse_depth, sorting_header, suggestion_buttons, Screen, validate_dir, Command, Flags, FormState,
    Message,
};
use pifbip::{Outcome, Progress};

#[test]
fn outcome_status_lines() {
    let o = Outcome::Moved { subfolder: "docs".to_string(), dest_name: "a.txt".to_string() };
    assert_eq!(describe_outcome(&o), "Moved \u{2192} docs/a.txt");
    assert_eq!(describe_outcome(&Outcome::Skipped), "Skipped");
    assert_eq!(describe_outcome(&Outcome::Undone), "Undone");
    assert_eq!(describe_outcome(&Outcome::MoveError("x".to_string())), "Error x");
    assert_eq!(describe_outcome(&Outcome::AtStart), "Already at the first file");
    assert_eq!(describe_outcome(&Outcome::Done), "");
}

#[test]
fn folder_fields_are_checked() {
    assert_eq!(
        validate_dir("   ", "source", Ok(("/x".to_string(), true))),
        Err("Please choose a source folder.".to_string())
    );
    assert_eq!(
        validate_dir(" /nope ", "destination", Err("No such file".to_string())),
        Err("destination '/nope': No such file".to_string())
    );
    assert_eq!(
        validate_dir("/f", "source", Ok(("/f".to_string(), false))),
        Err("source '/f' is not a directory.".to_string())
    );
    assert_eq!(validate_dir("/d", "source", Ok(("/real/d".to_string(), true))), Ok("/real/d".to_string()));
}

#[test]
fn depth_field_parses_like_std() {
    for s in ["0", " 3 ", "+7", "65535", "65536", "-1", "", "+", "abc", "007", "1 2", "99999999999"] {
        assert_eq!(parse_depth(s), s.trim().parse::<u16>().unwrap_or(0), "{:?}", s);
    }
}

#[test]
fn form_messages() {
    let flags = Flags { origin: Some("/src".to_string()), destination: None, depth: 2 };
    let mut f = FormState::new(flags);
    assert_eq!((f.origin(), f.destination(), f.depth()), ("/src", "", "2"));
    assert_eq!(f.update(Message::DestinationChanged("/dst".to_string())), Command::Nothing);
    assert_eq!(f.destination(), "/dst");
    assert_eq!(f.update(Message::BrowseOrigin), Command::PickOrigin);
    assert_eq!(f.update(Message::Start), Command::Start);
    assert_eq!(f.update(Message::ArrowLeft), Command::GoBack);
    assert_eq!(f.update(Message::ArrowRight), Command::Skip);
    assert_eq!(f.update(Message::Confirm), Command::Skip);
    f.set_suggestions(vec!["a".to_string(), "b".to_string()]);
    assert_eq!(f.update(Message::SuggestionDown), Command::Nothing);
    assert_eq!(f.update(Message::SuggestionDown), Command::Nothing);
    assert_eq!(f.selected(), 1);
    assert_eq!(f.update(Message::AcceptSuggestion), Command::Recompute);
    assert_eq!(f.input(), "b");
    assert_eq!(f.update(Message::ArrowLeft), Command::Nothing);
    assert_eq!(f.update(Message::Confirm), Command::Move("b".to_string()));
    assert_eq!(f.update(Message::SelectSuggestion(5)), Command::Nothing);
    assert_eq!(f.update(Message::InputChanged("  q ".to_string())), Command::Recompute);
    assert_eq!(f.update(Message::Confirm), Command::Move("q".to_string()));
    f.clear_input();
    assert_eq!(f.input(), "");
    assert_eq!(f.update(Message::Quit), Command::Quit);
}

#[test]
fn sorting_header_caps_position_at_total() {
    let p = Progress { index: 0, total: 3, moved: 0, skipped: 0 };
    assert_eq!(sorting_header(p), "[1/3]  moved 0  skipped 0");
    let p = Progress { index: 3, total: 3, moved: 2, skipped: 1 };
    assert_eq!(sorting_header(p), "[3/3]  moved 2  skipped 1");
    let p = Progress { index: 0, total: 0, moved: 0, skipped: 0 };
    assert_eq!(sorting_header(p), "[0/0]  moved 0  skipped 0");
}

#[test]
fn done_screen_summary() {
    let p = Progress { index: 4, total: 4, moved: 3, skipped: 1 };
    assert_eq!(done_summary(p), "Moved 3, skipped 1, of 4 files.");
}

#[test]
fn at_most_twelve_suggestions_listed() {
    let names: Vec<String> = (0..20).map(|i| format!("d{}", i)).collect();
    let rows = suggestion_buttons(&names, 3);
    assert_eq!(rows.len(), 12);
    assert_eq!(rows[0], ("d0".to_string(), false));
    assert_eq!(rows[3], ("d3".to_string(), true));
    assert_eq!(rows[11].0, "d11");
    let few = suggestion_buttons(&names[..2].to_vec(), 5);
    assert_eq!(few, vec![("d0".to_string(), false), ("d1".to_string(), false)]);
}

#[test]
fn confirm_then_refresh() {
    let flags = Flags { origin: Some("/src".to_string()), destination: Some("/dst".to_string()), depth: 0 };
    let mut f = FormState::new(flags);
    assert_eq!(f.screen(), Screen::Setup);
    f.after_start(Err("Please choose a source folder.".to_string()), false, vec![]);
    assert_eq!(f.screen(), Screen::Setup);
    assert_eq!(f.setup_error(), &Some("Please choose a source folder.".to_string()));
    f.after_start(Ok(()), false, vec!["docs".to_string(), "music".to_string()]);
    assert_eq!(f.screen(), Screen::Sorting);
    assert_eq!(f.setup_error(), &None);
    assert_eq!(f.suggestions(), &vec!["docs".to_string(), "music".to_string()]);

    f.update(Message::InputChanged("mus".to_string()));
    f.update(Message::SuggestionDown);
    let cmd = f.update(Message::Confirm);
    assert_eq!(cmd, Command::Move("mus".to_string()));
    let outcome = Outcome::Moved { subfolder: "mus".to_string(), dest_name: "a.txt".to_string() };
    f.after_step(&outcome, false, vec!["mus".to_string(), "docs".to_string()]);
    assert_eq!(f.input(), "");
    assert_eq!(f.selected(), 0);
    assert_eq!(f.status(), "Moved \u{2192} mus/a.txt");
    assert_eq!(f.screen(), Screen::Sorting);

    f.after_step(&Outcome::Skipped, true, vec![]);
    assert_eq!(f.status(), "Skipped");
    assert_eq!(f.screen(), Screen::Done);
}

#[test]
fn start_with_no_files_goes_to_done() {
    let flags = Flags { origin: None, destination: None, depth: 0 };
    let mut f = FormState::new(flags);
    f.after_start(Ok(()), true, vec![]);
    assert_eq!(f.screen(), Screen::Done);
    assert_eq!(f.status(), "");
}
