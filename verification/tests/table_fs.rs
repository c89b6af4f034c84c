use sim_platform::find::{find_glob, relative_path, FindMatch, GrepSearch, LinePattern, PathGlob};
use sim_platform::host_dir::{HostDirErrorKind, HostDirModel, HostEntry, HostEntryKind};

fn path(parts: &[&str]) -> Vec<String> {
    parts.iter().map(|p| p.to_string()).collect()
}

fn tree() -> Vec<Vec<String>> {
    vec![
        path(&["a.siml"]),
        path(&["d"]),
        path(&["d", "b.siml"]),
        path(&["d", "c.json"]),
        path(&["z.siml"]),
    ]
}

#[test]
fn relative_paths_join_segments_with_slashes() {
    assert_eq!(relative_path(&path(&["d", "e", "f.siml"])), "d/e/f.siml");
    assert_eq!(relative_path(&path(&["top"])), "top");
    assert_eq!(relative_path(&Vec::new()), "");
}

#[test]
fn globs_do_not_cross_separators() {
    let glob = PathGlob::new("*.siml").unwrap();
    let found = find_glob(&glob, &tree(), 10);
    assert_eq!(found.paths, vec!["a.siml".to_string(), "z.siml".to_string()]);
    assert!(!found.truncated);

    let deep = PathGlob::new("**/*.siml").unwrap();
    let found = find_glob(&deep, &tree(), 10);
    assert_eq!(
        found.paths,
        vec!["a.siml".to_string(), "d/b.siml".to_string(), "z.siml".to_string()]
    );
}

#[test]
fn glob_results_are_bounded() {
    let deep = PathGlob::new("**/*.siml").unwrap();
    let found = find_glob(&deep, &tree(), 2);
    assert_eq!(found.paths, vec!["a.siml".to_string(), "d/b.siml".to_string()]);
    assert!(found.truncated);

    let exact = find_glob(&deep, &tree(), 3);
    assert_eq!(exact.paths.len(), 3);
    assert!(!exact.truncated);

    let none = find_glob(&deep, &tree(), 0);
    assert!(none.paths.is_empty());
    assert!(none.truncated);
}

#[test]
fn malformed_patterns_are_refused() {
    let glob = PathGlob::new("a[").err().unwrap();
    assert!(glob.starts_with("table/fs: glob "), "{glob}");
    let regex = LinePattern::new("(").err().unwrap();
    assert!(regex.starts_with("table/fs: regex "), "{regex}");
    let search = GrepSearch::new("(", Some("a["), 3).err().unwrap();
    assert!(search.starts_with("table/fs: regex "), "{search}");
    let search = GrepSearch::new("ok", Some("a["), 3).err().unwrap();
    assert!(search.starts_with("table/fs: glob "), "{search}");
}

#[test]
fn grep_reports_matching_lines_with_numbers() {
    let mut search = GrepSearch::new("fo+", None, 10).unwrap();
    search.feed(&path(&["d", "b.siml"]), "foo\nbar\r\nbar foo\r\nlast fo");
    assert!(!search.is_finished());
    let result = search.finish();
    assert_eq!(
        result.matches,
        vec![
            FindMatch { path: "d/b.siml".into(), line: 1, text: "foo".into() },
            FindMatch { path: "d/b.siml".into(), line: 3, text: "bar foo".into() },
            FindMatch { path: "d/b.siml".into(), line: 4, text: "last fo".into() },
        ]
    );
    assert!(!result.truncated);
}

#[test]
fn grep_lines_follow_str_lines() {
    let mut search = GrepSearch::new("^$", None, 10).unwrap();
    search.feed(&path(&["a"]), "x\n\ny\n");
    let result = search.finish();
    assert_eq!(result.matches, vec![FindMatch { path: "a".into(), line: 2, text: "".into() }]);

    let mut carriage = GrepSearch::new("\r", None, 10).unwrap();
    carriage.feed(&path(&["a"]), "one\r\ntwo\rthree\n");
    let result = carriage.finish();
    assert_eq!(result.matches, vec![FindMatch { path: "a".into(), line: 2, text: "two\rthree".into() }]);
}

#[test]
fn grep_stops_once_more_matches_exist_than_the_bound() {
    let mut search = GrepSearch::new("x", None, 2).unwrap();
    search.feed(&path(&["a"]), "x1\ny\nx2");
    assert!(!search.is_finished());
    search.feed(&path(&["b"]), "x3\nx4");
    assert!(search.is_finished());
    search.feed(&path(&["c"]), "x5");
    let result = search.finish();
    assert_eq!(
        result.matches,
        vec![
            FindMatch { path: "a".into(), line: 1, text: "x1".into() },
            FindMatch { path: "a".into(), line: 3, text: "x2".into() },
        ]
    );
    assert!(result.truncated);
}

#[test]
fn grep_candidates_need_the_glob_and_a_known_extension() {
    let known = vec!["siml".to_string(), "json".to_string()];
    let search = GrepSearch::new("x", Some("d/*"), 5).unwrap();
    assert_eq!(search.wants(&path(&["d", "b.siml"]), &known), Some("siml".to_string()));
    assert_eq!(search.wants(&path(&["d", "c.json"]), &known), Some("json".to_string()));
    assert_eq!(search.wants(&path(&["d", "c.txt"]), &known), None);
    assert_eq!(search.wants(&path(&["a.siml"]), &known), None);
    let open = GrepSearch::new("x", None, 5).unwrap();
    assert_eq!(open.wants(&path(&["a.b.siml"]), &known), Some("siml".to_string()));
    assert_eq!(open.wants(&path(&["noext"]), &known), None);
    assert_eq!(open.wants(&path(&["d"]), &known), None);
    assert_eq!(open.wants(&Vec::new(), &known), None);
}

#[test]
fn a_read_gives_back_what_was_written() {
    let mut store = HostDirModel::new(10);
    assert_eq!(store.replace(&path(&["a.siml"]), b"hello", false), Ok(()));
    assert_eq!(store.read(&path(&["a.siml"])), Ok(b"hello".to_vec()));
    assert_eq!(
        store.metadata(&path(&["a.siml"])),
        Some(HostEntry { name: "a.siml".into(), kind: HostEntryKind::File, len: 5 })
    );
    assert_eq!(store.metadata(&path(&["b"])), None);
    let missing = store.read(&path(&["b"])).unwrap_err();
    assert_eq!(missing.kind, HostDirErrorKind::NotFound);
    assert_eq!(missing.message, "entry not found");
}

#[test]
fn writes_are_held_to_the_quota() {
    let mut store = HostDirModel::new(10);
    store.replace(&path(&["a"]), b"12345", false).unwrap();
    let refused = store.replace(&path(&["b"]), b"123456", false).unwrap_err();
    assert_eq!(refused.kind, HostDirErrorKind::QuotaExceeded);
    assert_eq!(refused.message, "storage quota exceeded");
    assert_eq!(store.metadata(&path(&["b"])), None);
    // Replacing a file counts only the difference.
    assert_eq!(store.replace(&path(&["a"]), b"1234567890", false), Ok(()));
    assert_eq!(store.read(&path(&["a"])), Ok(b"1234567890".to_vec()));
    let cancelled = store.replace(&path(&["c"]), b"", true).unwrap_err();
    assert_eq!(cancelled.kind, HostDirErrorKind::Cancelled);
    assert_eq!(cancelled.message, "write cancelled");
}

#[test]
fn listings_are_sorted_by_name() {
    let mut store = HostDirModel::new(100);
    store.replace(&path(&["b"]), b"bb", false).unwrap();
    store.create_dir(&path(&["a"]));
    store.replace(&path(&["C"]), b"c", false).unwrap();
    store.replace(&path(&["a", "inner"]), b"i", false).unwrap();
    let names: Vec<(String, HostEntryKind, u64)> =
        store.list(&Vec::new()).into_iter().map(|e| (e.name, e.kind, e.len)).collect();
    assert_eq!(
        names,
        vec![
            ("C".to_string(), HostEntryKind::File, 1),
            ("a".to_string(), HostEntryKind::Directory, 0),
            ("b".to_string(), HostEntryKind::File, 2),
        ]
    );
    let inner = store.list(&path(&["a"]));
    assert_eq!(inner, vec![HostEntry { name: "inner".into(), kind: HostEntryKind::File, len: 1 }]);
    assert!(store.list(&path(&["b"])).is_empty());
}

#[test]
fn directories_are_not_files() {
    let mut store = HostDirModel::new(100);
    store.create_dir(&path(&["d"]));
    store.create_dir(&path(&["d"]));
    store.replace(&path(&["d", "x"]), b"x", false).unwrap();
    let read = store.read(&path(&["d"])).unwrap_err();
    assert_eq!(read.kind, HostDirErrorKind::SpecialFile);
    assert_eq!(read.message, "entry is a directory");
    let removed = store.remove_file(&path(&["d"])).unwrap_err();
    assert_eq!(removed.kind, HostDirErrorKind::SpecialFile);
    assert!(store.metadata(&path(&["d"])).is_some());
    let missing = store.remove_file(&path(&["nope"])).unwrap_err();
    assert_eq!(missing.kind, HostDirErrorKind::NotFound);
    assert_eq!(store.remove_file(&path(&["d", "x"])), Ok(()));
    assert_eq!(store.metadata(&path(&["d", "x"])), None);
    // Creating a directory over a file keeps the file.
    store.replace(&path(&["f"]), b"f", false).unwrap();
    store.create_dir(&path(&["f"]));
    assert_eq!(store.read(&path(&["f"])), Ok(b"f".to_vec()));
}

#[test]
fn removing_a_directory_removes_everything_below_it() {
    let mut store = HostDirModel::new(100);
    store.create_dir(&path(&["d"]));
    store.create_dir(&path(&["d", "e"]));
    store.replace(&path(&["d", "e", "x"]), b"xx", false).unwrap();
    store.replace(&path(&["d2"]), b"keep", false).unwrap();
    assert_eq!(store.remove_dir_all(&path(&["d"])), Ok(()));
    assert_eq!(store.metadata(&path(&["d"])), None);
    assert_eq!(store.metadata(&path(&["d", "e", "x"])), None);
    assert_eq!(store.read(&path(&["d2"])), Ok(b"keep".to_vec()));
    let not_dir = store.remove_dir_all(&path(&["d2"])).unwrap_err();
    assert_eq!(not_dir.kind, HostDirErrorKind::NotFound);
    assert_eq!(not_dir.message, "directory not found");
    // The bytes freed count again toward the quota.
    let mut small = HostDirModel::new(4);
    small.create_dir(&path(&["d"]));
    small.replace(&path(&["d", "x"]), b"1234", false).unwrap();
    assert!(small.replace(&path(&["y"]), b"1", false).is_err());
    small.remove_dir_all(&path(&["d"])).unwrap();
    assert_eq!(small.replace(&path(&["y"]), b"1234", false), Ok(()));
}
