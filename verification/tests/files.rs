use std::collections::BTreeMap;

use pifbip::walk::{FileWalk, FoundFile, WalkEntry};
use pifbip::names::collision_candidate;
use pifbip::{collect_files, get_subdirs, resolve_collision};

/// A folder tree held in memory: folder path -> entries (name, is_dir).
fn tree(entries: &[(&str, &[(&str, bool)])]) -> BTreeMap<String, Vec<(String, bool)>> {
    entries
        .iter()
        .map(|(dir, list)| {
            (
                dir.to_string(),
                list.iter().map(|(n, d)| (n.to_string(), *d)).collect(),
            )
        })
        .collect()
}

/// Runs a walk over the in-memory tree from "root" the way the front end
/// runs it over the disk.
fn walk(t: &BTreeMap<String, Vec<(String, bool)>>, depth: u16) -> Vec<String> {
    let mut w: FileWalk<String> = FileWalk::new("root".to_string(), depth);
    while let Some(dir) = w.next_dir() {
        let entries: Vec<WalkEntry<String>> = t
            .get(&dir)
            .cloned()
            .unwrap_or_default()
            .into_iter()
            .map(|(name, is_dir)| WalkEntry {
                path: format!("{}/{}", dir, name),
                name,
                is_file: !is_dir,
                is_dir,
            })
            .collect();
        w.visit(entries);
    }
    collect_files(w)
        .into_iter()
        .map(|f: FoundFile<String>| f.keys.join("/"))
        .collect()
}

#[test]
fn collect_files_respects_depth_and_ignores_hidden_entries() {
    let t = tree(&[
        (
            "root",
            &[("top.txt", false), (".hidden.txt", false), ("sub", true), (".hidden-dir", true)],
        ),
        ("root/sub", &[("one.txt", false), ("deeper", true)]),
        ("root/sub/deeper", &[("two.txt", false)]),
        ("root/.hidden-dir", &[("secret.txt", false)]),
    ]);

    assert_eq!(walk(&t, 0), vec!["top.txt"]);
    assert_eq!(walk(&t, 1), vec!["sub/one.txt", "top.txt"]);
    assert_eq!(
        walk(&t, 2),
        vec!["sub/deeper/two.txt", "sub/one.txt", "top.txt"]
    );
}

#[test]
fn collect_files_orders_by_path_components() {
    // Component order, not text order: "sub" sorts before "sub.txt" even
    // though '/' comes after '.'.
    let t = tree(&[
        ("root", &[("sub.txt", false), ("sub", true), ("a", false)]),
        ("root/sub", &[("z.txt", false)]),
    ]);
    assert_eq!(walk(&t, 1), vec!["a", "sub/z.txt", "sub.txt"]);
    let mut expected = vec![
        std::path::PathBuf::from("sub.txt"),
        std::path::PathBuf::from("sub/z.txt"),
        std::path::PathBuf::from("a"),
    ];
    expected.sort();
    let expected: Vec<String> = expected.iter().map(|p| p.to_string_lossy().to_string()).collect();
    assert_eq!(walk(&t, 1), expected);
}

#[test]
fn collect_files_of_an_unreadable_root_is_empty() {
    let t = tree(&[]);
    assert_eq!(walk(&t, 3), Vec::<String>::new());
}

#[test]
fn get_subdirs_prioritizes_recent_dirs_then_remaining_alphabetically() {
    let names: Vec<String> = ["documents", "fruits", "instruments", "sports", ".hidden"]
        .iter()
        .map(|s| s.to_string())
        .collect();

    let recent = vec![
        "sports".to_string(),
        "fruits".to_string(),
        "missing".to_string(),
    ];
    assert_eq!(
        get_subdirs(names, &recent),
        vec!["sports", "fruits", "documents", "instruments"]
    );
}

#[test]
fn get_subdirs_sorts_by_code_point() {
    let names: Vec<String> = ["b", "B", "a", "é", "Z", "aa"].iter().map(|s| s.to_string()).collect();
    assert_eq!(get_subdirs(names, &vec![]), vec!["B", "Z", "a", "aa", "b", "é"]);
}

#[test]
fn get_subdirs_with_repeated_recent_names() {
    let names: Vec<String> = ["x", "y", "z"].iter().map(|s| s.to_string()).collect();
    let recent = vec!["z".to_string(), "z".to_string(), "x".to_string()];
    assert_eq!(get_subdirs(names, &recent), vec!["z", "x", "y"]);
}

#[test]
fn resolve_collision_adds_incrementing_suffix_before_extension() {
    let taken = vec!["report.txt".to_string(), "report_1.txt".to_string()];
    assert_eq!(resolve_collision("report.txt", &taken), "report_2.txt");
}

#[test]
fn resolve_collision_keeps_a_free_name() {
    let taken = vec!["other.txt".to_string()];
    assert_eq!(resolve_collision("report.txt", &taken), "report.txt");
}

#[test]
fn resolve_collision_without_extension_and_dotfiles() {
    let taken = vec!["notes".to_string(), ".bashrc".to_string(), "a.tar.gz".to_string(), "x.".to_string()];
    assert_eq!(resolve_collision("notes", &taken), "notes_1");
    assert_eq!(resolve_collision(".bashrc", &taken), ".bashrc_1");
    assert_eq!(resolve_collision("a.tar.gz", &taken), "a.tar_1.gz");
    assert_eq!(resolve_collision("x.", &taken), "x_1.");
}

#[test]
fn resolve_collision_skips_many_taken() {
    let mut taken = vec!["f.rs".to_string()];
    for k in 1..=12 {
        taken.push(format!("f_{}.rs", k));
    }
    assert_eq!(resolve_collision("f.rs", &taken), "f_13.rs");
}

#[test]
fn split_matches_std_path() {
    for name in ["a.txt", "a", ".bashrc", "a.tar.gz", "x.", ".a.b", "é.ü"] {
        let (stem, ext) = pifbip::names::split_file_name(name);
        let p = std::path::Path::new(name);
        assert_eq!(Some(stem.as_str()), p.file_stem().and_then(|s| s.to_str()), "{}", name);
        assert_eq!(ext.as_deref(), p.extension().and_then(|s| s.to_str()), "{}", name);
    }
}

#[test]
fn listing_without_a_folder_taken_changes_nothing() {
    let mut w: FileWalk<String> = FileWalk::new("root".to_string(), 0);
    w.visit(vec![WalkEntry { name: "x".to_string(), is_file: true, is_dir: false, path: "root/x".to_string() }]);
    assert_eq!(w.next_dir(), Some("root".to_string()));
    w.visit(vec![WalkEntry { name: "y".to_string(), is_file: true, is_dir: false, path: "root/y".to_string() }]);
    // The folder was listed: a second listing has no folder to go to.
    w.visit(vec![WalkEntry { name: "z".to_string(), is_file: true, is_dir: false, path: "root/z".to_string() }]);
    assert_eq!(w.next_dir(), None);
    let found: Vec<String> = collect_files(w).into_iter().map(|f| f.path).collect();
    assert_eq!(found, vec!["root/y"]);
}

#[test]
fn file_name_matches_std_path() {
    let cases = [
        "", "/", "a", "/a", "a/b", "a/b/", "a//b//", "a/.", "a/./", ".", "./", "./a", "..", "a/..",
        "../a", "...", "a/...", "/.", "//", "a/b/.././", ".hidden", "dir/.hidden", "é/ü.txt",
        "photo.JPG", "/src/sub/photo.JPG", "a/./.", "./.", "x/..y", "..a/b..",
    ];
    for c in cases {
        let expected = std::path::Path::new(c).file_name().map(|n| n.to_string_lossy().into_owned());
        assert_eq!(pifbip::names::file_name_of(c), expected, "{:?}", c);
    }
}

#[test]
fn collision_candidates_in_order() {
    assert_eq!(collision_candidate("a.txt", 0), "a.txt");
    assert_eq!(collision_candidate("a.txt", 1), "a_1.txt");
    assert_eq!(collision_candidate("a.tar.gz", 12), "a.tar_12.gz");
    assert_eq!(collision_candidate(".bashrc", 2), ".bashrc_2");
    // Names found on disk up to the first free candidate give that candidate.
    let taken: Vec<String> = (0..3).map(|k| collision_candidate("r.txt", k)).collect();
    assert_eq!(resolve_collision("r.txt", &taken), "r_3.txt");
}
