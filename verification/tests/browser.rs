use kaze::file_entry::{FileEntry, FileKind, Timestamp};
use kaze::file_list::{FileListView, ModalAction, ModalState, OpenAction, Removal, ViewMode};
use kaze::menus::{
    background_menu, item_menu, menu_label, new_item_parent, terminal_candidates, terminal_dir, MenuItem,
};
use kaze::presentation::{
    column_row, column_title, dialog_for, list_row, sort_arrow, Body, Dialog, RowBackground, RowIcon, Tone,
};
use kaze::sorting::{SortColumn, SortDirection};

const MS: u64 = 1_000_000;

fn now() -> Timestamp {
    Timestamp { secs: 1_700_000_000, nanos: 0 }
}

fn entry(dir: &str, name: &str, kind: FileKind, size: u64) -> FileEntry {
    FileEntry::new(format!("{}/{}", dir, name), name.to_string(), kind, size, None, kind == FileKind::Directory, now())
}

fn home_listing() -> Vec<FileEntry> {
    vec![
        entry("/home/u", "notes.txt", FileKind::File, 10),
        entry("/home/u", "src", FileKind::Directory, 4096),
        entry("/home/u", ".config", FileKind::Directory, 4096),
        entry("/home/u", "a.md", FileKind::File, 30),
    ]
}

fn names(v: &FileListView, col: usize) -> Vec<String> {
    v.columns[col].entries.iter().map(|e| e.name.clone()).collect()
}

#[test]
fn a_new_browser_lists_visible_entries_by_name() {
    let v = FileListView::new("/home/u".to_string(), home_listing());
    assert_eq!(v.columns.len(), 1);
    assert_eq!(v.cwd(), "/home/u");
    assert_eq!(names(&v, 0), vec!["src", "a.md", "notes.txt"]);
    assert_eq!(v.columns[0].selected, None);
    assert_eq!(v.view_mode, ViewMode::Columns);
    assert!(v.last_error.is_none());
}

#[test]
fn toggling_hidden_files_shows_them() {
    let mut v = FileListView::new("/home/u".to_string(), home_listing());
    v.toggle_hidden(vec![home_listing()]);
    assert!(v.show_hidden);
    assert_eq!(names(&v, 0), vec![".config", "src", "a.md", "notes.txt"]);
}

#[test]
fn toggling_the_sort_twice_restores_it() {
    let mut v = FileListView::new("/home/u".to_string(), home_listing());
    v.toggle_sort(SortColumn::Size);
    assert_eq!((v.sort_column, v.sort_direction), (SortColumn::Size, SortDirection::Descending));
    assert_eq!(names(&v, 0), vec!["src", "a.md", "notes.txt"]);
    v.toggle_sort(SortColumn::Size);
    assert_eq!(v.sort_direction, SortDirection::Ascending);
    assert_eq!(names(&v, 0), vec!["src", "notes.txt", "a.md"]);
    v.toggle_sort(SortColumn::Name);
    assert_eq!((v.sort_column, v.sort_direction), (SortColumn::Name, SortDirection::Ascending));
}

#[test]
fn a_click_selects_and_a_quick_second_click_opens() {
    let mut v = FileListView::new("/home/u".to_string(), home_listing());
    let first = v.select_in_column(0, 2, 1000 * MS);
    assert!(matches!(first, OpenAction::Nothing));
    assert_eq!(v.columns[0].selected, Some(2));
    let second = v.select_in_column(0, 2, 1100 * MS);
    match second {
        OpenAction::OpenFile { path } => assert_eq!(path, "/home/u/notes.txt"),
        _ => panic!("expected the file to open"),
    }
    let late = v.select_in_column(0, 2, 1500 * MS);
    assert!(matches!(late, OpenAction::Nothing));
    let too_late = v.select_in_column(0, 2, 1500 * MS + 270 * MS);
    assert!(matches!(too_late, OpenAction::Nothing));
}

#[test]
fn a_click_on_a_folder_opens_the_next_column() {
    let mut v = FileListView::new("/home/u".to_string(), home_listing());
    match v.select_in_column(0, 0, 5 * MS) {
        OpenAction::OpenColumn { after, path } => {
            assert_eq!(after, 0);
            assert_eq!(path, "/home/u/src");
            v.open_column(after, path, vec![entry("/home/u/src", "main.rs", FileKind::File, 5)]);
        },
        _ => panic!("expected a new column"),
    }
    assert_eq!(v.columns.len(), 2);
    assert_eq!(v.current_path().unwrap(), "/home/u/src");
    assert_eq!(v.parent_to_show(), Some("/home/u".to_string()));
    v.show_column(0);
    assert_eq!(v.columns.len(), 1);
    assert_eq!(v.columns[0].selected, None);
}

#[test]
fn select_all_selects_the_first_row_of_the_last_column() {
    let mut v = FileListView::new("/home/u".to_string(), home_listing());
    v.select_all();
    assert_eq!(v.columns[0].selected, Some(0));
    match v.open_selected() {
        OpenAction::Navigate { path } => assert_eq!(path, "/home/u/src"),
        _ => panic!("expected the folder"),
    }
}

#[test]
fn dialogs_confirm_into_requests() {
    let mut v = FileListView::new("/home/u".to_string(), home_listing());
    let initial = v.start_rename("/home/u/a.md".to_string());
    assert_eq!(initial, "a.md");
    let (action, start) = v.confirm_modal("  b.md ", 0);
    assert!(!start);
    match action {
        ModalAction::Rename { from, to } => {
            assert_eq!(from, "/home/u/a.md");
            assert_eq!(to, "/home/u/b.md");
        },
        _ => panic!("expected a rename"),
    }
    assert!(matches!(v.modal_state, ModalState::Closed));

    let taken = vec!["Untitled Folder".to_string()];
    assert_eq!(v.prompt_new_folder("/home/u".to_string(), &taken), "Untitled Folder 2");
    match v.confirm_modal("Work", 0).0 {
        ModalAction::CreateFolder { path } => assert_eq!(path, "/home/u/Work"),
        _ => panic!("expected a folder"),
    }
    assert_eq!(v.prompt_new_file("/home/u".to_string(), &Vec::new()), "Untitled.txt");
    assert!(matches!(v.confirm_modal("   ", 0).0, ModalAction::Nothing));

    v.start_rename("/home/u/a.md".to_string());
    assert!(matches!(v.confirm_modal("a.md", 0).0, ModalAction::Nothing));
}

#[test]
fn deleting_queues_one_animation_per_path() {
    let mut v = FileListView::new("/home/u".to_string(), home_listing());
    v.confirm_permanent_delete("/home/u/notes.txt".to_string(), false);
    let (action, start) = v.confirm_modal("", 50 * MS);
    assert!(start);
    match action {
        ModalAction::Delete { path, is_dir, removal } => {
            assert_eq!(path, "/home/u/notes.txt");
            assert!(!is_dir);
            assert_eq!(removal, Removal::MoveToTrash);
        },
        _ => panic!("expected a deletion"),
    }
    let (removal, start_again) = v.delete_file_by_path(&"/home/u/notes.txt".to_string(), 60 * MS);
    assert_eq!(removal, Removal::MoveToTrash);
    assert!(!start_again);
    assert_eq!(v.deleting.len(), 1);
    assert_eq!(v.pending_started_at(&"/home/u/notes.txt".to_string()), Some(50 * MS));

    let (removal, _) = v.delete_file_by_path(&"/home/u/.local/share/Trash/files/x".to_string(), 60 * MS);
    assert_eq!(removal, Removal::DeletePermanently);
}

#[test]
fn finished_deletions_leave_the_listing() {
    let mut v = FileListView::new("/home/u".to_string(), home_listing());
    v.select_in_column(0, 2, MS);
    assert_eq!(v.columns[0].selected, Some(2));
    v.delete_file_by_path(&"/home/u/a.md".to_string(), 0);
    assert!(v.finish_deletions(10 * MS));
    assert_eq!(names(&v, 0), vec!["src", "a.md", "notes.txt"]);
    assert!(!v.finish_deletions(200 * MS));
    assert_eq!(names(&v, 0), vec!["src", "notes.txt"]);
    assert_eq!(v.columns[0].selected, Some(1));
    assert!(v.deleting.is_empty());
}

#[test]
fn undo_without_history_reports_an_error() {
    let mut v = FileListView::new("/home/u".to_string(), home_listing());
    assert!(v.undo_last_delete(7).is_none());
    let (msg, at) = v.last_error.clone().unwrap();
    assert_eq!(msg, "Nothing to undo");
    assert_eq!(at, 7);
    v.clear_error();
    assert!(v.last_error.is_none());
}

#[test]
fn searches_only_show_their_own_results() {
    let mut v = FileListView::new("/home/u".to_string(), home_listing());
    let q = v.search_text_changed("  Report ");
    assert_eq!(q, Some("Report".to_string()));
    let generation = v.search_generation;
    assert!(v.searching);
    assert!(!v.accept_search_results(generation.wrapping_sub(1), vec![entry("/x", "old", FileKind::File, 1)]));
    assert!(v.accept_search_results(generation, vec![entry("/x", "report.pdf", FileKind::File, 1)]));
    assert_eq!(v.search_results.len(), 1);
    let opened = v.open_search_result("/x/report.pdf".to_string(), false);
    assert_eq!(opened.show_folder, Some("/x".to_string()));
    assert_eq!(opened.open_file, Some("/x/report.pdf".to_string()));
    assert!(!v.searching);
    assert_eq!(v.search_text_changed(""), None);
}

#[test]
fn the_toolbar_follows_the_state() {
    let mut v = FileListView::new("/home/u".to_string(), home_listing());
    let t = v.toolbar();
    assert_eq!(t.breadcrumb, vec!["u".to_string()]);
    assert_eq!(t.status, "3 items");
    assert_eq!(t.sidebar_tooltip, "Hide sidebar (Ctrl+B)");
    assert!(t.show_new_folder && !t.show_empty_trash);
    assert_eq!(t.body, Body::Columns);
    v.set_sidebar_collapsed(true);
    v.set_view_mode(ViewMode::List);
    assert_eq!(v.toolbar().sidebar_tooltip, "Show sidebar (Ctrl+B)");
    assert_eq!(v.toolbar().body, Body::List);
    v.search_text_changed("x");
    let t = v.toolbar();
    assert_eq!(t.status, "0 search results");
    assert_eq!(t.body, Body::SearchResults);

    let trash = FileListView::new("/home/u/.local/share/Trash/files".to_string(), Vec::new());
    let t = trash.toolbar();
    assert!(t.show_empty_trash && !t.show_new_folder);
    assert_eq!(t.breadcrumb, vec!["files".to_string()]);
    let root = FileListView::new("/".to_string(), Vec::new());
    assert_eq!(root.toolbar().breadcrumb, vec!["/".to_string()]);
}

#[test]
fn headers_and_rows_look_as_designed() {
    assert_eq!(column_title(SortColumn::DateModified), "Date Modified");
    assert_eq!(sort_arrow(SortColumn::Size, SortDirection::Descending, SortColumn::Size), Some(SortDirection::Descending));
    assert_eq!(sort_arrow(SortColumn::Size, SortDirection::Descending, SortColumn::Name), None);

    let hidden = entry("/h", ".profile", FileKind::File, 1);
    let look = list_row(&hidden, false, 3);
    assert_eq!(look.icon, RowIcon::File);
    assert_eq!(look.icon_tone, Tone::Muted);
    assert_eq!(look.name_tone, Tone::Muted);
    assert_eq!(look.background, RowBackground::Stripe);
    assert!(look.faint);
    let selected = list_row(&hidden, true, 3);
    assert_eq!(selected.icon_tone, Tone::Selection);
    assert_eq!(selected.name_tone, Tone::Foreground);
    assert_eq!(selected.background, RowBackground::Highlight);

    let dir = entry("/h", "src", FileKind::Directory, 1);
    let col = column_row(&dir, false);
    assert_eq!(col.icon, RowIcon::Folder);
    assert_eq!(col.icon_tone, Tone::Accent);
    assert!(col.chevron);
    assert_eq!(col.background, RowBackground::Clear);
}

#[test]
fn dialogs_have_their_texts() {
    assert!(dialog_for(&ModalState::Closed).is_none());
    match dialog_for(&ModalState::Rename { path: "/a".to_string() }) {
        Some(Dialog::Input { title, confirm }) => {
            assert_eq!(title, "Rename Item");
            assert_eq!(confirm, "Rename");
        },
        _ => panic!("expected an input dialog"),
    }
    let e = FileEntry::new("/h/big.iso".to_string(), "big.iso".to_string(), FileKind::File, 1536, None, false, now());
    match dialog_for(&ModalState::GetInfo { entry: e }) {
        Some(Dialog::Info { title, name, kind, size, modified, location }) => {
            assert_eq!(title, "Get Info");
            assert_eq!(name, "big.iso");
            assert_eq!(kind, "Document");
            assert_eq!(size, "2 KB (1,536 bytes)");
            assert_eq!(modified, "--");
            assert_eq!(location, "/h/big.iso");
        },
        _ => panic!("expected the info dialog"),
    }
    match dialog_for(&ModalState::ConfirmDelete { path: "/h/old".to_string(), is_dir: true }) {
        Some(Dialog::Confirm { title, message, confirm }) => {
            assert_eq!(title, "Delete Permanently");
            assert_eq!(message, "\u{201c}old\u{201d} will be permanently deleted. This folder cannot be undone.");
            assert_eq!(confirm, "Delete");
        },
        _ => panic!("expected the confirmation"),
    }
}

#[test]
fn context_menus_depend_on_the_trash() {
    let m = item_menu("/home/u/a.txt", false);
    assert_eq!(
        m,
        vec![
            MenuItem::Open,
            MenuItem::OpenInTerminal,
            MenuItem::Separator,
            MenuItem::Rename,
            MenuItem::Duplicate,
            MenuItem::CopyPath,
            MenuItem::CopyName,
            MenuItem::Separator,
            MenuItem::NewFolder,
            MenuItem::NewFile,
            MenuItem::Separator,
            MenuItem::MoveToTrash,
            MenuItem::DeletePermanently,
            MenuItem::Separator,
            MenuItem::GetInfo,
        ]
    );
    let t = item_menu("/home/u/.local/share/Trash/files/d", true);
    assert_eq!(
        t,
        vec![
            MenuItem::Open,
            MenuItem::OpenInNewTab,
            MenuItem::OpenInTerminal,
            MenuItem::Separator,
            MenuItem::CopyPath,
            MenuItem::CopyName,
            MenuItem::Separator,
            MenuItem::DeletePermanently,
            MenuItem::Separator,
            MenuItem::GetInfo,
        ]
    );
    assert_eq!(background_menu("/home/u/.local/share/Trash/files")[0], MenuItem::EmptyTrash);
    assert_eq!(background_menu("/home/u")[0], MenuItem::NewFolder);
    assert_eq!(new_item_parent("/home/u/a.txt", false), "/home/u");
    assert_eq!(new_item_parent("/home/u/src", true), "/home/u/src");
    assert_eq!(terminal_dir("/home/u/a.txt", true), "/home/u");
    assert_eq!(terminal_dir("/home/u", false), "/home/u");
    let c = terminal_candidates(Some("st".to_string()));
    assert_eq!(c.len(), 11);
    assert_eq!(c[0], "st");
    assert_eq!(c[1], "ghostty");
    assert_eq!(c[10], "xterm");
    assert_eq!(terminal_candidates(None).len(), 10);
    assert_eq!(menu_label(MenuItem::Rename), "Rename...");
    assert_eq!(menu_label(MenuItem::ToggleHiddenFiles), "Toggle Hidden Files");
    assert_eq!(menu_label(MenuItem::Separator), "");
}

#[test]
fn deleting_a_folder_closes_its_columns() {
    let mut v = FileListView::new("/home/u".to_string(), home_listing());
    if let OpenAction::OpenColumn { after, path } = v.select_in_column(0, 0, MS) {
        v.open_column(after, path, vec![entry("/home/u/src", "main.rs", FileKind::File, 5)]);
    }
    assert_eq!(v.columns.len(), 2);
    v.delete_file_by_path(&"/home/u/src".to_string(), 0);
    v.finish_deletions(200 * MS);
    assert_eq!(v.columns.len(), 1);
    assert_eq!(names(&v, 0), vec!["a.md", "notes.txt"]);
    assert_eq!(v.columns[0].selected, Some(0));
}

#[test]
fn showing_and_hiding_hidden_files_restores_the_listing() {
    let mut v = FileListView::new("/home/u".to_string(), home_listing());
    let before = names(&v, 0);
    v.toggle_hidden(vec![home_listing()]);
    v.toggle_hidden(vec![home_listing()]);
    assert!(!v.show_hidden);
    assert_eq!(names(&v, 0), before);
}
