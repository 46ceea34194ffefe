use kaze::file_entry::{FileEntry, FileKind, Timestamp};
use kaze::file_list::{FileListView, Removal};
use kaze::naming::duplicate_target;
use kaze::paths::{is_in_trash, join};
use kaze::sorting::compare_name_keys;
use kaze::text::Order;

const MS: u64 = 1_000_000;

fn entry(dir: &str, name: &str, kind: FileKind) -> FileEntry {
    let stamp = Timestamp { secs: 1_700_000_000, nanos: 0 };
    FileEntry::new(format!("{}/{}", dir, name), name.to_string(), kind, 1, None, kind == FileKind::Directory, stamp)
}

fn listing() -> Vec<FileEntry> {
    vec![
        entry("/x", "f", FileKind::File),
        entry("/x", "d", FileKind::Directory),
        entry("/x", "g", FileKind::File),
    ]
}

fn names(v: &FileListView, col: usize) -> Vec<String> {
    v.columns[col].entries.iter().map(|e| e.name.clone()).collect()
}

#[test]
fn a_trailing_slash_names_the_same_row() {
    let mut v = FileListView::new("/x".to_string(), listing());
    assert_eq!(names(&v, 0), vec!["d", "f", "g"]);
    let (removal, start) = v.delete_file_by_path(&"/x/f/".to_string(), 5 * MS);
    assert_eq!(removal, Removal::MoveToTrash);
    assert!(start);
    let (_, start_again) = v.delete_file_by_path(&"/x/f".to_string(), 6 * MS);
    assert!(!start_again);
    assert_eq!(v.deleting.len(), 1);
    assert_eq!(v.pending_started_at(&"/x/f".to_string()), Some(5 * MS));
    assert_eq!(v.pending_started_at(&"/x//f".to_string()), Some(5 * MS));
    assert_eq!(v.pending_started_at(&"/x/g".to_string()), None);
    assert!(!v.finish_deletions(300 * MS));
    assert_eq!(names(&v, 0), vec!["d", "g"]);
}

#[test]
fn a_dropped_path_with_a_trailing_slash_flies_from_its_row() {
    let mut v = FileListView::new("/x".to_string(), listing());
    let (plan, start) = v.animate_trash_drop_by_path(&"/x/g/".to_string(), 0);
    assert!(start);
    let flight = plan.flight.expect("the row is found");
    assert_eq!((flight.col_ix, flight.entry_ix, flight.is_dir), (0, 2, false));
    assert_eq!(v.deleting.len(), 1);
}

#[test]
fn deleting_the_open_folder_closes_every_column() {
    let mut v = FileListView::new("/x".to_string(), listing());
    v.delete_file_by_path(&"/x".to_string(), 0);
    v.finish_deletions(300 * MS);
    assert_eq!(v.columns.len(), 0);
}

#[test]
fn a_tick_keeps_the_first_column_when_it_lies_outside() {
    let mut v = FileListView::new("/x".to_string(), listing());
    v.delete_file_by_path(&"/x/d".to_string(), 0);
    v.delete_file_by_path(&"/x/g".to_string(), 0);
    v.finish_deletions(300 * MS);
    assert_eq!(v.columns.len(), 1);
    assert_eq!(v.cwd(), "/x");
    assert_eq!(names(&v, 0), vec!["f"]);
}

#[test]
fn a_name_ending_in_a_dot_keeps_an_empty_extension() {
    assert_eq!(duplicate_target("/d/a.", false, &Vec::new()), "/d/a copy.");
    assert_eq!(duplicate_target("/d/.hidden.", false, &Vec::new()), "/d/.hidden copy.");
}

#[test]
fn name_keys_compare_character_by_character() {
    assert_eq!(compare_name_keys("apple", "banana"), Order::Less);
    assert_eq!(compare_name_keys("banana", "apple"), Order::Greater);
    assert_eq!(compare_name_keys("ab", "abc"), Order::Less);
    assert_eq!(compare_name_keys("same", "same"), Order::Equal);
    assert_eq!(compare_name_keys("Zebra", "apple"), Order::Less);
}

#[test]
fn what_lies_below_a_trash_path_is_in_the_trash() {
    for base in ["/home/u/.local/share/Trash", "/srv/Trash", "/mnt/Trash/files", "/a/Trash/b"] {
        assert!(is_in_trash(base));
        assert!(is_in_trash(&join(base, "x")));
        assert!(is_in_trash(&join(base, "x/y.txt")));
    }
    assert_eq!(join("/srv/Trash", "x"), "/srv/Trash/x");
    assert!(!is_in_trash("/home/u/Documents/a.txt"));
    assert!(!is_in_trash(&join("/srv/Trash", "/home/u")));
}

#[test]
fn an_absolute_trash_folder_and_what_lies_below_are_in_the_trash() {
    let from_xdg = kaze::trash::trash_base_dir(Some("/data".to_string()), None).unwrap();
    assert_eq!(from_xdg, "/data/Trash");
    let from_home = kaze::trash::trash_base_dir(None, Some("/home/u/".to_string())).unwrap();
    assert_eq!(from_home, "/home/u/.local/share/Trash");
    for b in [from_xdg, from_home] {
        assert!(is_in_trash(&b));
        assert!(is_in_trash(&join(&b, "files/a.txt")));
        assert!(is_in_trash(&join(&b, "info")));
    }
}

#[test]
fn dropping_the_same_path_twice_queues_it_once() {
    let mut v = FileListView::new("/x".to_string(), listing());
    let (_, start) = v.animate_trash_drop_by_path(&"/x/f".to_string(), 0);
    assert!(start);
    let (plan, start_again) = v.animate_trash_drop_by_path(&"/x/f".to_string(), MS);
    assert!(!start_again);
    assert!(plan.flight.is_some());
    assert_eq!(v.deleting.len(), 1);
    assert_eq!(v.pending_started_at(&"/x/f".to_string()), Some(0));
}

#[test]
fn a_tick_keeps_the_selection_on_the_same_row() {
    let mut v = FileListView::new("/x".to_string(), listing());
    v.select_in_column(0, 2, MS);
    assert_eq!(v.columns[0].selected, Some(2));
    v.delete_file_by_path(&"/x/d".to_string(), 0);
    v.finish_deletions(300 * MS);
    assert_eq!(names(&v, 0), vec!["f", "g"]);
    assert_eq!(v.columns[0].selected, Some(1));
    assert!(v.columns.iter().all(|c| c.entries.iter().all(|e| e.path != "/x/d")));
}
