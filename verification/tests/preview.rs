use pifbip::preview::{text_preview, truncate_line};

fn lines(n: usize) -> Vec<String> {
    (1..=n).map(|i| format!("line {}", i)).collect()
}

#[test]
fn short_text_is_shown_whole() {
    let out = text_preview(&lines(1), 80);
    assert_eq!(out, vec!["  --- 1 line ---", "  line 1", "  --- end ---"]);
    let out = text_preview(&lines(25), 80);
    assert_eq!(out.len(), 27);
    assert_eq!(out[0], "  --- 25 lines ---");
}

#[test]
fn long_text_shows_head_and_tail() {
    let out = text_preview(&lines(30), 80);
    assert_eq!(out.len(), 1 + 10 + 1 + 10 + 1);
    assert_eq!(out[0], "  --- 30 lines ---");
    assert_eq!(out[10], "  line 10");
    assert_eq!(out[11], "  ... (10 lines omitted) ...");
    assert_eq!(out[12], "  line 21");
    assert_eq!(out[21], "  line 30");
    assert_eq!(out[22], "  --- end ---");
}

#[test]
fn lines_are_cut_to_width() {
    assert_eq!(truncate_line("abcdefgh", 8), "  abcd");
    assert_eq!(truncate_line("ab", 8), "  ab");
    assert_eq!(truncate_line("héllo", 3), "  hél");
    assert_eq!(text_preview(&vec![], 10), vec!["  --- 0 lines ---", "  --- end ---"]);
}
