use pifbip::{MoveReport, Outcome, SortSession};

fn paths(names: &[&str]) -> Vec<String> {
    let mut v: Vec<String> = names.iter().map(|n| format!("/src/{}", n)).collect();
    v.sort();
    v
}

fn names(v: &[&str]) -> Vec<String> {
    v.iter().map(|t| t.to_string()).collect()
}

/// A move that succeeds into `sub`, whose folder holds no entries.
fn move_into(s: &mut SortSession, sub: &str) -> Outcome {
    s.move_to(sub, &Vec::new(), MoveReport::Moved)
}

#[test]
fn move_advances_and_counts() {
    let files = paths(&["a.txt", "b.txt"]);
    let mut s = SortSession::from_file_list(files, "/dst".to_string());

    assert_eq!(s.total(), 2);
    // The move goes into the subfolder of the destination.
    assert_eq!(s.move_target("photos", &Vec::new()), Some("/dst/photos/a.txt".to_string()));
    let out = s.move_to("photos", &Vec::new(), MoveReport::Moved);
    assert!(matches!(out, Outcome::Moved { .. }));
    assert_eq!(s.progress().moved, 1);
    assert_eq!(s.progress().index, 1);
    // The file now lives in the destination subfolder, no longer at its
    // origin: stepping back would move it from there to its origin.
    assert_eq!(
        s.back_undo(),
        Some(("/dst/photos/a.txt".to_string(), "/src/a.txt".to_string()))
    );
}

#[test]
fn skip_then_back_restores_counts() {
    let files = paths(&["a.txt", "b.txt"]);
    let mut s = SortSession::from_file_list(files, "/dst".to_string());

    s.skip(Ok(()));
    assert_eq!(s.progress().skipped, 1);
    assert_eq!(s.progress().index, 1);

    // Go back to file 0 — the skip is undone.
    assert_eq!(s.go_back(Ok(())), Outcome::Undone);
    assert_eq!(s.progress().skipped, 0);
    assert_eq!(s.progress().index, 0);
}

#[test]
fn move_then_back_restores_file_to_origin() {
    let files = paths(&["a.txt"]);
    let orig = files[0].clone();
    let mut s = SortSession::from_file_list(files, "/dst".to_string());

    move_into(&mut s, "docs");
    assert_eq!(s.back_undo(), Some(("/dst/docs/a.txt".to_string(), orig.clone())));
    assert!(s.is_done());

    // Back from the end re-enters file 0 and restores it.
    assert_eq!(s.go_back(Ok(())), Outcome::Undone);
    assert_eq!(s.progress().moved, 0);
    assert_eq!(s.current(), Some(orig));
    assert_eq!(s.pending_undo(), None);
}

#[test]
fn move_after_skip_swaps_counts() {
    let files = paths(&["a.txt"]);
    let mut s = SortSession::from_file_list(files, "/dst".to_string());

    s.skip(Ok(()));
    assert_eq!(s.progress().skipped, 1);
    s.go_back(Ok(()));
    // Now re-decide: move it instead.
    move_into(&mut s, "keep");
    assert_eq!(s.progress().skipped, 0);
    assert_eq!(s.progress().moved, 1);
}

#[test]
fn collision_resolves_to_suffixed_name() {
    let files = paths(&["a.txt"]);
    let mut s = SortSession::from_file_list(files, "/dst".to_string());
    // The target subfolder already holds an `a.txt`.
    let taken = names(&["a.txt"]);
    assert_eq!(s.move_target("dup", &taken), Some("/dst/dup/a_1.txt".to_string()));
    match s.move_to("dup", &taken, MoveReport::Moved) {
        Outcome::Moved { dest_name, .. } => assert_eq!(dest_name, "a_1.txt"),
        other => panic!("expected move, got {:?}", other),
    }
    // The earlier `a.txt` is left alone: the file went to `a_1.txt`.
    assert_eq!(
        s.back_undo(),
        Some(("/dst/dup/a_1.txt".to_string(), "/src/a.txt".to_string()))
    );
}

#[test]
fn go_back_at_start_reports_at_start() {
    let files = paths(&["a.txt"]);
    let mut s = SortSession::from_file_list(files, "/dst".to_string());
    assert_eq!(s.go_back(Ok(())), Outcome::AtStart);
}

#[test]
fn recent_dirs_ordering_drives_suggestions() {
    let files = paths(&["a.txt", "b.txt"]);
    let mut s = SortSession::from_file_list(files, "/dst".to_string());
    let dirs = || vec!["alpha".to_string(), "beta".to_string(), "gamma".to_string()];

    move_into(&mut s, "gamma");
    // Most recently used folder should lead the listing.
    assert_eq!(
        s.subdir_listing(dirs()).first().map(String::as_str),
        Some("gamma")
    );
}

#[test]
fn move_errors_and_missing_files() {
    let files = paths(&["a.txt", "b.txt", "c.txt"]);
    let mut s = SortSession::from_file_list(files, "/dst".to_string());
    // A folder that cannot be created keeps the same file.
    let out = s.move_to("x", &Vec::new(), MoveReport::DirError("denied".to_string()));
    assert_eq!(out, Outcome::MoveError("creating directory: denied".to_string()));
    assert_eq!(s.index(), 0);
    // A failed move still advances, without counting.
    let out = s.move_to("x", &Vec::new(), MoveReport::MoveError("busy".to_string()));
    assert_eq!(out, Outcome::MoveError("moving file: busy".to_string()));
    assert_eq!(s.index(), 1);
    assert_eq!(s.progress().moved, 0);
    s.skip_missing();
    assert_eq!(s.index(), 2);
    assert_eq!(s.progress().skipped, 0);
    s.skip(Ok(()));
    assert!(s.is_done());
    assert_eq!(move_into(&mut s, "x"), Outcome::Done);
    assert_eq!(s.move_target("x", &Vec::new()), None);
    assert_eq!(s.current(), None);
}

#[test]
fn failed_undo_keeps_the_move_recorded() {
    let files = paths(&["a.txt", "b.txt"]);
    let mut s = SortSession::from_file_list(files, "/dst".to_string());
    move_into(&mut s, "docs");
    let out = s.go_back(Err("gone".to_string()));
    assert_eq!(out, Outcome::MoveError("undoing move: gone".to_string()));
    assert_eq!(s.index(), 0);
    assert_eq!(s.progress().moved, 1);
    // Still recorded as moved: the current file is where it was moved to.
    assert_eq!(s.current(), Some("/dst/docs/a.txt".to_string()));
    assert_eq!(s.pending_undo(), Some(("/dst/docs/a.txt".to_string(), "/src/a.txt".to_string())));
    // Skipping it with a failed undo leaves the moved counter as it was.
    let out = s.skip(Err("still gone".to_string()));
    assert_eq!(out, Outcome::MoveError("undoing move: still gone".to_string()));
    assert_eq!(s.progress().moved, 1);
    assert_eq!(s.progress().skipped, 1);
}

#[test]
fn remove_again_counts_once_and_recent_leads() {
    let files = paths(&["a.txt", "b.txt"]);
    let mut s = SortSession::from_file_list(files, "/dst".to_string());
    move_into(&mut s, "one");
    move_into(&mut s, "two");
    assert_eq!(s.progress().moved, 2);
    let dirs = vec!["one".to_string(), "three".to_string(), "two".to_string()];
    assert_eq!(s.subdir_listing(dirs.clone()), vec!["two", "one", "three"]);
    // Step back onto b.txt (failed undo keeps it moved) and move it again.
    s.go_back(Err("no".to_string()));
    let out = move_into(&mut s, "one");
    assert!(matches!(out, Outcome::Moved { .. }));
    assert_eq!(s.progress().moved, 2);
    assert_eq!(s.subdir_listing(dirs), vec!["one", "two", "three"]);
}

#[test]
fn rename_updates_recent_on_success_only() {
    let files = paths(&["a.txt", "b.txt"]);
    let mut s = SortSession::from_file_list(files, "/dst".to_string());
    move_into(&mut s, "old");
    assert_eq!(s.rename_subdir("old", "new", Err("denied".to_string())), Err("denied".to_string()));
    assert_eq!(s.subdir_listing(vec!["new".to_string(), "old".to_string()]), vec!["old", "new"]);
    assert_eq!(s.rename_subdir("old", "new", Ok(())), Ok(()));
    assert_eq!(s.subdir_listing(vec!["a".to_string(), "new".to_string()]), vec!["new", "a"]);
}

#[test]
fn names_come_from_paths() {
    let s = SortSession::from_file_list(
        vec!["/src/sub/photo.JPG".to_string(), "/src/notes".to_string()],
        "/dst".to_string(),
    );
    assert_eq!(s.file_names(), vec!["photo.JPG", "notes"]);
    assert_eq!(s.current_original_name(), Some("photo.JPG".to_string()));
    assert_eq!(s.current_kind(&[]), Some(pifbip::FileKind::Image));
}

#[test]
fn suggestions_rank_matches() {
    let s = SortSession::from_file_list(vec!["/src/a".to_string()], "/dst".to_string());
    let dirs = vec!["music".to_string(), "documents".to_string(), ".git".to_string()];
    assert_eq!(s.subdir_suggestions(dirs.clone(), ""), vec!["documents", "music"]);
    assert_eq!(s.subdir_suggestions(dirs.clone(), "mus"), vec!["music"]);
    assert_eq!(s.subdir_suggestions(dirs, "zzz"), Vec::<String>::new());
}

#[test]
fn subfolders_outside_the_destination_are_refused() {
    let files = paths(&["a.txt"]);
    let mut s = SortSession::from_file_list(files, "/dst".to_string());
    for bad in ["/tmp/elsewhere", "/dst/photos", "../elsewhere", "a/../../b", "..", "./..", "a/b/../../.."] {
        assert_eq!(s.target_dir(bad), None, "{}", bad);
        assert_eq!(s.move_target(bad, &Vec::new()), None, "{}", bad);
        let out = move_into(&mut s, bad);
        assert_eq!(
            out,
            Outcome::MoveError(format!("subfolder is outside the destination: {}", bad))
        );
        assert_eq!(s.index(), 0);
        assert_eq!(s.progress().moved, 0);
    }
    for good in ["photos", "a/b", "..x", "x..", "./docs", "a..b/c", "a/../b", "x/..", "a/b/../../c", "a//b/./"] {
        assert_eq!(s.target_dir(good), Some(format!("/dst/{}", good)), "{}", good);
    }
    assert_eq!(s.move_target("a/b", &names(&["a.txt", "a_1.txt"])), Some("/dst/a/b/a_2.txt".to_string()));
}

#[test]
fn subfolder_climbing_back_in_is_moved_into() {
    let files = paths(&["a.txt", "b.txt"]);
    let mut s = SortSession::from_file_list(files, "/dst".to_string());
    assert_eq!(s.move_target("a/../b", &Vec::new()), Some("/dst/a/../b/a.txt".to_string()));
    let out = move_into(&mut s, "a/../b");
    assert_eq!(
        out,
        Outcome::Moved { subfolder: "a/../b".to_string(), dest_name: "a.txt".to_string() }
    );
    assert_eq!(s.progress().moved, 1);
    assert_eq!(s.index(), 1);
    assert_eq!(s.go_back(Ok(())), Outcome::Undone);
    assert_eq!(s.progress().moved, 0);
    assert_eq!(s.current(), Some("/src/a.txt".to_string()));
}

#[test]
fn renamed_recent_folder_keeps_its_place() {
    let files = paths(&["a.txt", "b.txt", "c.txt"]);
    let mut s = SortSession::from_file_list(files, "/dst".to_string());
    move_into(&mut s, "old");
    move_into(&mut s, "b");
    let before = names(&["z", "old", "a", "b"]);
    assert_eq!(s.subdir_listing(before), vec!["b", "old", "a", "z"]);
    assert_eq!(s.rename_subdir("old", "new", Ok(())), Ok(()));
    let after = names(&["a", "new", "z", "b"]);
    assert_eq!(s.subdir_listing(after), vec!["b", "new", "a", "z"]);
}
