use pifbip::status::{decided_count, file_title, opening_line, tally_line};
use pifbip::Progress;

fn progress(index: usize, total: usize, moved: usize, skipped: usize) -> Progress {
    Progress { index, total, moved, skipped }
}

#[test]
fn opening_line_uses_plural_unless_one() {
    assert_eq!(opening_line(1), "1 file to sort. Press Ctrl+C to quit.");
    assert_eq!(opening_line(0), "0 files to sort. Press Ctrl+C to quit.");
    assert_eq!(opening_line(12), "12 files to sort. Press Ctrl+C to quit.");
}

#[test]
fn header_shows_one_based_position_and_decided_count() {
    let p = progress(2, 10, 1, 1);
    assert_eq!(file_title(p, "photo.jpg"), "[3/10] photo.jpg");
    assert_eq!(decided_count(p), "(2/10)");
    assert_eq!(file_title(progress(0, 1, 0, 0), "a  (b).txt"), "[1/1] a  (b).txt");
}

#[test]
fn tally_reports_counts() {
    assert_eq!(tally_line(progress(5, 5, 3, 2)), "Done. Moved: 3, Skipped: 2, Total: 5");
}
