use pifbip::prompt::{
    max_visible_rows, rename_target, suggestion_layout, suggestion_rows, trim, visible_window, Key, PromptResult,
    PromptState, PromptStep, RenameState, RenameStep,
};
use pifbip::rank::compute_matches;

fn dirs(names: &[&str]) -> Vec<String> {
    names.iter().map(|s| s.to_string()).collect()
}

#[test]
fn typing_and_answering() {
    let mut p = PromptState::new(dirs(&["music", "documents"]));
    assert_eq!(p.handle_key(Key::Char('d')), PromptStep::Redraw);
    assert_eq!(p.handle_key(Key::Char('o')), PromptStep::Redraw);
    assert_eq!(p.input(), "do");
    assert_eq!(p.handle_key(Key::Backspace), PromptStep::Redraw);
    assert_eq!(p.input(), "d");
    assert_eq!(p.handle_key(Key::Left), PromptStep::Wait);
    assert_eq!(p.handle_key(Key::Enter), PromptStep::Finish(PromptResult::Input("d".to_string())));
}

#[test]
fn empty_input_keys() {
    let mut p = PromptState::new(dirs(&["a"]));
    assert_eq!(p.handle_key(Key::Enter), PromptStep::Finish(PromptResult::Skip));
    assert_eq!(p.handle_key(Key::Right), PromptStep::Finish(PromptResult::Skip));
    assert_eq!(p.handle_key(Key::Left), PromptStep::Finish(PromptResult::GoBack));
    assert_eq!(p.handle_key(Key::Esc), PromptStep::Finish(PromptResult::Interrupted));
    assert_eq!(p.handle_key(Key::Ctrl('c')), PromptStep::Finish(PromptResult::Interrupted));
    assert_eq!(p.handle_key(Key::Ctrl('x')), PromptStep::Wait);
    assert_eq!(p.handle_key(Key::Other), PromptStep::Wait);
    // Only white space typed: skip.
    p.handle_key(Key::Char(' '));
    p.handle_key(Key::Char('\t'));
    assert_eq!(p.handle_key(Key::Enter), PromptStep::Finish(PromptResult::Skip));
}

#[test]
fn navigation_and_tab() {
    let mut p = PromptState::new(dirs(&["alpha", "beta", "gamma"]));
    assert_eq!(p.selected(), 0);
    p.handle_key(Key::Up);
    assert_eq!(p.selected(), 0);
    p.handle_key(Key::Down);
    p.handle_key(Key::Down);
    p.handle_key(Key::Down);
    assert_eq!(p.selected(), 2);
    p.handle_key(Key::Up);
    assert_eq!(p.selected(), 1);
    assert_eq!(p.handle_key(Key::Tab), PromptStep::Redraw);
    assert_eq!(p.input(), "beta");
    assert_eq!(p.selected(), 0);
    assert_eq!(p.matches(), vec!["beta"]);
}

#[test]
fn rename_flow() {
    let mut p = PromptState::new(dirs(&["alpha", "beta"]));
    p.handle_key(Key::Down);
    assert_eq!(p.handle_key(Key::Ctrl('r')), PromptStep::Rename("beta".to_string()));
    let mut r = RenameState::new("beta");
    assert_eq!(r.handle_key(Key::Backspace), RenameStep::Redraw);
    assert_eq!(r.handle_key(Key::Char('x')), RenameStep::Redraw);
    assert_eq!(r.handle_key(Key::Up), RenameStep::Wait);
    assert_eq!(r.name(), "betx");
    let answer = match r.handle_key(Key::Enter) {
        RenameStep::Done(a) => a,
        other => panic!("unexpected {:?}", other),
    };
    let target = rename_target("beta", answer);
    assert_eq!(target, Some("betx".to_string()));
    p.apply_rename("beta", target);
    assert_eq!(p.dirs(), &dirs(&["alpha", "betx"]));
    assert_eq!(p.selected(), 0);
    assert_eq!(rename_target("a", Some("a".to_string())), None);
    assert_eq!(rename_target("a", Some(String::new())), None);
    assert_eq!(rename_target("a", None), None);
    let mut c = RenameState::new("z");
    assert_eq!(c.handle_key(Key::Esc), RenameStep::Done(None));
}

#[test]
fn trim_matches_std() {
    for s in ["  a b  ", "\t\n", "", "x", "\u{3000}y\u{2003}", "\u{85}z"] {
        assert_eq!(trim(s), s.trim());
    }
}

#[test]
fn windows_of_suggestions() {
    assert_eq!(visible_window(3, 0, 5), (0, 3));
    assert_eq!(visible_window(20, 0, 5), (0, 5));
    assert_eq!(visible_window(20, 10, 5), (8, 13));
    assert_eq!(visible_window(20, 19, 5), (15, 20));
    let l = suggestion_layout(20, 10, 5);
    assert!(l.has_above && l.has_below);
    assert_eq!(l.drawn_lines, 7);
    let l = suggestion_layout(3, 1, 5);
    assert_eq!((l.has_above, l.has_below, l.drawn_lines), (false, false, 3));
    assert_eq!(max_visible_rows(24), 14);
    assert_eq!(max_visible_rows(12), 5);
    assert_eq!(max_visible_rows(0), 5);
}

#[test]
fn ranking_is_best_first_and_stable() {
    let d = dirs(&["xyz", "abc", "axbycz", "abcabc"]);
    let m = compute_matches("abc", &d);
    for w in m.windows(2) {
        assert!(w[0].1 >= w[1].1);
    }
    let names: Vec<&str> = m.iter().map(|(n, _)| n.as_str()).collect();
    assert!(names.contains(&"abc") && names.contains(&"axbycz") && !names.contains(&"xyz"));
    let all = compute_matches("", &d);
    assert_eq!(all.iter().map(|(n, s)| (n.as_str(), *s)).collect::<Vec<_>>(), vec![("xyz", 0), ("abc", 0), ("axbycz", 0), ("abcabc", 0)]);
    let same = pifbip::rank::rank_matches(vec![("a".to_string(), 1), ("b".to_string(), 2), ("c".to_string(), 1)]);
    assert_eq!(same, vec![("b".to_string(), 2), ("a".to_string(), 1), ("c".to_string(), 1)]);
}

#[test]
fn rows_drawn_under_the_prompt() {
    let names: Vec<String> = (0..20).map(|i| format!("d{}", i)).collect();
    let rows = suggestion_rows(&names, 10, 5);
    let texts: Vec<&str> = rows.iter().map(|r| r.text.as_str()).collect();
    assert_eq!(
        texts,
        vec!["  \u{2191} 8 more", "  d8 ", "  d9 ", "  d10 ", "  d11 ", "  d12 ", "  \u{2193} 7 more"]
    );
    let lit: Vec<bool> = rows.iter().map(|r| r.highlighted).collect();
    assert_eq!(lit, vec![false, false, false, true, false, false, false]);

    let rows = suggestion_rows(&dirs(&["a", "b"]), 1, 5);
    assert_eq!(rows.len(), 2);
    assert_eq!(rows[0].text, "  a ");
    assert!(!rows[0].highlighted && rows[1].highlighted);
    assert!(suggestion_rows(&vec![], 0, 5).is_empty());
}
