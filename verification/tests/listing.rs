use kaze::file_entry::{FileEntry, FileKind, Timestamp};
use kaze::sorting::{rank_search_results, sort_entries, visible_entries, SortColumn, SortDirection};

fn now() -> Timestamp {
    Timestamp { secs: 1_700_000_000, nanos: 0 }
}

fn file(dir: &str, name: &str, size: u64, secs: i64) -> FileEntry {
    FileEntry::new(
        format!("{}/{}", dir, name),
        name.to_string(),
        FileKind::File,
        size,
        Some(Timestamp { secs, nanos: 0 }),
        false,
        now(),
    )
}

fn folder(dir: &str, name: &str, nonempty: bool) -> FileEntry {
    FileEntry::new(
        format!("{}/{}", dir, name),
        name.to_string(),
        FileKind::Directory,
        4096,
        Some(Timestamp { secs: 1_600_000_000, nanos: 0 }),
        nonempty,
        now(),
    )
}

/// The entries of a small test folder, two files and a folder with an entry, in the order a
/// directory listing might return them.
fn test_dir(name: &str) -> Vec<FileEntry> {
    let dir = format!("/tmp/kaze_test_{}", name);
    vec![
        file(&dir, "file_b.txt", 2, 1_650_000_000),
        folder(&dir, "subdir", true),
        file(&dir, "file_a.txt", 1, 1_660_000_000),
    ]
}

fn names(v: &[FileEntry]) -> Vec<&str> {
    v.iter().map(|e| e.name.as_str()).collect()
}

#[test]
fn test_scan_dir_finds_files() {
    let entries = visible_entries(test_dir("scan"), false, SortColumn::Name, SortDirection::Ascending);
    assert!(entries.len() >= 3, "expected at least 3 entries, got {}", entries.len());
    assert!(entries[0].is_dir(), "first entry should be a directory");
    assert!(entries[0].has_children, "subdir should have children");
}

#[test]
fn test_empty_dir_has_no_children() {
    let entries = visible_entries(Vec::new(), false, SortColumn::Name, SortDirection::Ascending);
    assert!(entries.is_empty(), "empty dir should have no entries");
}

#[test]
fn test_sort_entries() {
    let mut entries = visible_entries(test_dir("sorting"), false, SortColumn::Name, SortDirection::Ascending);
    assert_eq!(entries[0].name, "subdir");

    sort_entries(&mut entries, SortColumn::Size, SortDirection::Descending);
    assert_eq!(entries[0].name, "subdir");
    assert_eq!(entries[1].name, "file_b.txt");
    assert_eq!(entries[2].name, "file_a.txt");
}

#[test]
fn test_hidden_files_filtered() {
    let mut raw = test_dir("hidden");
    raw.push(file("/tmp/kaze_test_hidden", ".hidden", 6, 1_650_000_000));
    let entries = visible_entries(
        raw.iter().map(|e| e.duplicate()).collect(),
        false,
        SortColumn::Name,
        SortDirection::Ascending,
    );
    assert!(!entries.iter().any(|e| e.name == ".hidden"), "hidden file should be filtered");
    let entries_with_hidden = visible_entries(raw, true, SortColumn::Name, SortDirection::Ascending);
    assert!(
        entries_with_hidden.iter().any(|e| e.name == ".hidden"),
        "hidden file should show with show_hidden=true"
    );
}

#[test]
fn names_sort_case_insensitively_and_stably() {
    let d = "/x";
    let mut v = vec![file(d, "beta", 1, 0), file(d, "Alpha", 1, 0), file(d, "BETA", 2, 0), file(d, "alpha", 3, 0)];
    sort_entries(&mut v, SortColumn::Name, SortDirection::Ascending);
    assert_eq!(names(&v), vec!["Alpha", "alpha", "beta", "BETA"]);
    sort_entries(&mut v, SortColumn::Name, SortDirection::Descending);
    assert_eq!(names(&v), vec!["beta", "BETA", "Alpha", "alpha"]);
}

#[test]
fn folders_lead_in_every_order() {
    let d = "/x";
    for column in [SortColumn::Name, SortColumn::DateModified, SortColumn::Size, SortColumn::Kind] {
        for direction in [SortDirection::Ascending, SortDirection::Descending] {
            let mut v = vec![
                file(d, "a", 10, 5),
                folder(d, "zeta", false),
                file(d, "b", 20, 1),
                folder(d, "alpha", true),
            ];
            sort_entries(&mut v, column, direction);
            assert!(v[0].is_dir() && v[1].is_dir() && !v[2].is_dir() && !v[3].is_dir());
        }
    }
}

#[test]
fn dates_sort_with_missing_times_as_the_epoch() {
    let d = "/x";
    let mut none = file(d, "none", 1, 0);
    none.modified = None;
    let mut v = vec![file(d, "new", 1, 2_000), none, file(d, "old", 1, 1_000), file(d, "before", 1, -5)];
    sort_entries(&mut v, SortColumn::DateModified, SortDirection::Ascending);
    assert_eq!(names(&v), vec!["before", "none", "old", "new"]);
    sort_entries(&mut v, SortColumn::DateModified, SortDirection::Descending);
    assert_eq!(names(&v), vec!["new", "old", "none", "before"]);
}

#[test]
fn sizes_tie_break_by_name() {
    let d = "/x";
    let mut v = vec![file(d, "c", 5, 0), file(d, "B", 5, 0), file(d, "a", 9, 0)];
    sort_entries(&mut v, SortColumn::Size, SortDirection::Ascending);
    assert_eq!(names(&v), vec!["B", "c", "a"]);
}

#[test]
fn kinds_sort_by_label_then_name() {
    let d = "/x";
    let link = FileEntry::new("/x/link".to_string(), "link".to_string(), FileKind::Symlink, 1, None, false, now());
    let mut v = vec![file(d, "doc", 1, 0), link, file(d, "alpha", 1, 0)];
    sort_entries(&mut v, SortColumn::Kind, SortDirection::Ascending);
    assert_eq!(names(&v), vec!["link", "alpha", "doc"]);
}

#[test]
fn sorting_a_sorted_listing_changes_nothing() {
    let d = "/x";
    let mut v = vec![folder(d, "s", false), file(d, "b", 2, 0), file(d, "a", 2, 0), file(d, "c", 1, 0)];
    sort_entries(&mut v, SortColumn::Size, SortDirection::Descending);
    let first = names(&v).iter().map(|s| s.to_string()).collect::<Vec<_>>();
    sort_entries(&mut v, SortColumn::Size, SortDirection::Descending);
    assert_eq!(names(&v), first);
}

#[test]
fn search_results_rank_exact_then_prefix_then_others() {
    let e = |path: &str, name: &str, dir: bool| {
        FileEntry::new(
            path.to_string(),
            name.to_string(),
            if dir { FileKind::Directory } else { FileKind::File },
            1,
            None,
            false,
            now(),
        )
    };
    let entries = vec![
        e("/h/.cache/notes", "notes", false),
        e("/h/my-notes.txt", "my-notes.txt", false),
        e("/h/notes.md", "notes.md", false),
        e("/h/Notes", "Notes", true),
        e("/h/notes", "notes", false),
        e("/h/.notes", ".notes", false),
    ];
    let ranked = rank_search_results(entries, "notes");
    let paths: Vec<&str> = ranked.iter().map(|e| e.path.as_str()).collect();
    assert_eq!(paths, vec!["/h/Notes", "/h/notes", "/h/notes.md", "/h/my-notes.txt", "/h/.cache/notes", "/h/.notes"]);
}

#[test]
fn search_results_keep_the_first_hundred() {
    let entries: Vec<FileEntry> = (0..150).map(|i| file("/s", &format!("f{:03}", i), 1, 0)).collect();
    let ranked = rank_search_results(entries, "f");
    assert_eq!(ranked.len(), 100);
    assert_eq!(ranked[0].name, "f000");
    assert_eq!(ranked[99].name, "f099");
}
