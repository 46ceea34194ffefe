use kaze::assets::CombinedAssets;
use kaze::file_entry::{FileEntry, FileKind, Timestamp};
use kaze::search::{
    add_local_matches, add_unseen, gather_search_paths, matches_query, output_paths, search_roots, DirItem, PanelNote, SearchModel,
    SearchPanel, WalkStep,
};
use kaze::sidebar::{drop_target, SidebarView};
use kaze::tabs::{tab_label, Tabs};

fn item(path: &str, is_dir: bool) -> DirItem {
    let name = path.rsplit('/').next().map(|s| s.to_string());
    DirItem { path: path.to_string(), name, is_dir }
}

fn built(path: &str) -> FileEntry {
    let name = path.rsplit('/').next().unwrap_or("").to_string();
    FileEntry::new(path.to_string(), name, FileKind::File, 1, None, false, Timestamp { secs: 0, nanos: 0 })
}

#[test]
fn tabs_open_close_and_select() {
    let mut t = Tabs::new(0u32);
    assert_eq!(t.tabs.len(), 1);
    assert_eq!(t.tabs[0].label, "Home");
    t.add_tab_with_path("/home/u/src", 1);
    t.add_tab_with_path("/", 2);
    assert_eq!(t.tabs[1].label, "src");
    assert_eq!(t.tabs[2].label, "Folder");
    assert_eq!(t.active, 2);
    t.select_tab(7);
    assert_eq!(t.active, 2);
    t.select_tab(1);
    assert_eq!(t.active, 1);
    t.close_tab(2);
    assert_eq!(t.tabs.len(), 2);
    assert_eq!(t.active, 1);
    t.close_tab(0);
    assert_eq!(t.tabs.len(), 1);
    assert_eq!(t.active, 0);
    assert_eq!(t.tabs[0].content, 1);
    t.close_tab(0);
    assert_eq!(t.tabs.len(), 1);
    assert_eq!(t.active_tab().unwrap().label, "src");
    assert_eq!(tab_label("/a/b/"), "b");
}

#[test]
fn sidebar_lists_the_favorites() {
    let s = SidebarView::new("/home/u", false);
    let labels: Vec<&str> = s.items.iter().map(|i| i.label.as_str()).collect();
    assert_eq!(labels, vec!["Home", "Downloads", "Documents", "Pictures", "Videos", "Projects", "Trash"]);
    assert_eq!(s.items[0].path, "/home/u");
    assert_eq!(s.items[5].path, "/home/u/Project");
    assert_eq!(s.items[6].path, "/home/u/.local/share/Trash/files");
    assert_eq!(s.items[6].icon_path, "icons/trash-2.svg");
    assert!(s.items[6].is_trash());
    assert!(!s.items[0].is_trash());
    assert_eq!(s.selected_path(), "/home/u");
    let with_projects = SidebarView::new("/home/u", true);
    assert_eq!(with_projects.items[5].path, "/home/u/Projects");
    let unset = SidebarView::new("", false);
    assert_eq!(unset.items[1].path, "Downloads");
}

#[test]
fn selecting_a_favorite_gives_its_folder() {
    let mut s = SidebarView::new("/home/u", true);
    assert_eq!(s.on_select(2), "/home/u/Documents");
    assert_eq!(s.selected, 2);
    assert_eq!(s.selected_path(), "/home/u/Documents");
}

#[test]
fn drops_land_in_the_folder() {
    assert_eq!(drop_target("/home/u/Documents", "/tmp/a.txt"), "/home/u/Documents/a.txt");
    assert_eq!(drop_target("/home/u/Documents", "/"), "/home/u/Documents/");
}

#[test]
fn search_model_walks_three_levels() {
    let model = SearchModel::new("/base").unwrap();
    model.wait_for_scan(std::time::Duration::from_millis(1));
    let mut walk = model.search("Rep", 10);
    let mut reads = Vec::new();
    let mut builds = Vec::new();
    loop {
        match walk.step() {
            WalkStep::Continue => {},
            WalkStep::Finished => break,
            WalkStep::ReadDir(p) => {
                reads.push(p.clone());
                let items = match p.as_str() {
                    "/base" => Some(vec![item("/base/report.txt", false), item("/base/a", true), item("/base/x", false)]),
                    "/base/a" => Some(vec![item("/base/a/b", true), item("/base/a/REPORTS", true)]),
                    "/base/a/b" => Some(vec![item("/base/a/b/c", true), item("/base/a/b/rep.md", false)]),
                    "/base/a/REPORTS" => None,
                    _ => Some(Vec::new()),
                };
                walk.listed(items);
            },
            WalkStep::Build(p) => {
                builds.push(p.clone());
                walk.built(Some(built(&p)));
            },
        }
    }
    assert_eq!(reads, vec!["/base", "/base/a", "/base/a/b", "/base/a/REPORTS"]);
    assert_eq!(builds, vec!["/base/report.txt", "/base/a/b/rep.md", "/base/a/REPORTS"]);
    let results = walk.into_results();
    assert_eq!(results.len(), 3);
}

#[test]
fn search_stops_at_the_limit_and_ignores_empty_queries() {
    let model = SearchModel::new("/base").unwrap();
    let mut walk = model.search("a", 1);
    let mut reads = 0;
    loop {
        match walk.step() {
            WalkStep::Continue => {},
            WalkStep::Finished => break,
            WalkStep::ReadDir(_) => {
                reads += 1;
                walk.listed(Some(vec![item("/base/a1", false), item("/base/a2", false)]));
            },
            WalkStep::Build(p) => walk.built(Some(built(&p))),
        }
    }
    assert_eq!(reads, 1);
    assert_eq!(walk.into_results().len(), 1);

    let mut empty = model.search("", 10);
    assert!(matches!(empty.step(), WalkStep::Finished));
    let mut none = model.search("a", 0);
    assert!(matches!(none.step(), WalkStep::Finished));
}

#[test]
fn wider_search_collects_distinct_matches() {
    let roots = search_roots("/cwd", "/home/u");
    assert_eq!(
        roots,
        vec!["/cwd", "/home/u/Project", "/home/u/Projects", "/home/u/Documents", "/home/u/Downloads", "/home/u"]
    );
    let mut found: Vec<String> = Vec::new();
    add_local_matches(&mut found, &vec![item("/cwd/Notes.txt", false), item("/cwd/other", false)], "notes");
    add_local_matches(&mut found, &vec![item("/cwd//Notes.txt", false), item("/home/u/notes", true)], "notes");
    assert_eq!(found, vec!["/cwd/Notes.txt", "/home/u/notes"]);
    assert!(!add_unseen(&mut found, "/home/u/notes/".to_string()));
    assert!(add_unseen(&mut found, "/srv/notes".to_string()));
    assert_eq!(found.len(), 3);
    assert_eq!(output_paths("/a/b\n/c d/e\r\n\n"), vec!["/a/b", "/c d/e", ""]);
    let listings = vec![
        vec![item("/cwd/todo.txt", false), item("/cwd/x", false)],
        vec![item("/home/u/Todo", true)],
        vec![item("/home/u/./todo.txt", false)],
    ];
    let located = vec!["/cwd/todo.txt".to_string(), "/var/todo".to_string()];
    assert_eq!(gather_search_paths(&listings, &located, "todo"), vec!["/cwd/todo.txt", "/home/u/Todo", "/home/u/./todo.txt", "/var/todo"]);
    assert!(matches_query(&Some("ÄRGER.txt".to_string()), "ärger"));
    assert!(!matches_query(&None, ""));
}

#[test]
fn the_search_panel_notes_its_state() {
    let mut p = SearchPanel::new();
    assert!(p.query_changed("abc"));
    assert!(p.searching);
    assert!(matches!(p.note("abc"), PanelNote::Searching));
    p.finished(Vec::new());
    match p.note("abc") {
        PanelNote::NoResults(t) => assert_eq!(t, "No results for \u{201c}abc\u{201d}."),
        _ => panic!("expected the empty note"),
    }
    let many: Vec<FileEntry> = (0..60).map(|i| built(&format!("/r/{}", i))).collect();
    p.finished(many);
    assert_eq!(p.shown(), 50);
    assert!(matches!(p.note("abc"), PanelNote::Quiet));
    assert!(!p.query_changed(""));
    assert!(p.results.is_empty());
    assert!(matches!(p.note(""), PanelNote::Quiet));
}

#[test]
fn assets_strip_icon_folders() {
    assert_eq!(CombinedAssets::stripped("icons/house.svg"), "house.svg");
    assert_eq!(CombinedAssets::stripped("sidebar-icons/film.svg"), "film.svg");
    assert_eq!(CombinedAssets::stripped("other/x.svg"), "other/x.svg");
    let a = CombinedAssets;
    assert!(a.embedded_keys("").is_empty());
    assert_eq!(a.embedded_keys("icons/house.svg"), vec!["house.svg", "icons/house.svg"]);
    assert_eq!(a.component_keys("sidebar-icons/x.svg"), vec!["sidebar-icons/x.svg", "x.svg"]);
    let names = vec!["house.svg".to_string(), "film.svg".to_string(), "icons/x.svg".to_string()];
    assert_eq!(a.list_embedded(&names, "icons/"), vec!["icons/house.svg", "icons/film.svg", "icons/x.svg"]);
    assert_eq!(a.list_embedded(&names, "icons/f"), vec!["icons/film.svg"]);
    assert_eq!(a.list_embedded(&names, "ho"), vec!["house.svg"]);
}

#[test]
fn a_walk_keeps_at_most_its_limit_of_matching_listed_entries() {
    let model = SearchModel::new("/base").unwrap();
    let mut walk = model.search("Note", 2);
    let mut listed: Vec<String> = Vec::new();
    loop {
        match walk.step() {
            WalkStep::Continue => {},
            WalkStep::Finished => break,
            WalkStep::ReadDir(p) => {
                let items = if p == "/base" {
                    vec![item("/base/notes.txt", false), item("/base/deep", true), item("/base/todo", false)]
                } else {
                    vec![item(&format!("{}/NOTE.md", p), false), item(&format!("{}/keynote", p), false)]
                };
                listed.extend(items.iter().map(|i| i.path.clone()));
                walk.listed(Some(items));
            },
            WalkStep::Build(p) => walk.built(Some(built(&p))),
        }
    }
    let results = walk.into_results();
    assert_eq!(results.len(), 2);
    for r in &results {
        assert!(listed.contains(&r.path));
        assert!(r.name.to_lowercase().contains("note"));
    }
    assert_eq!(results[0].path, "/base/notes.txt");
    assert_eq!(results[1].path, "/base/deep/NOTE.md");
}

fn run_walk(query: &str, limit: usize) -> Vec<String> {
    let model = SearchModel::new("/r").unwrap();
    let mut walk = model.search(query, limit);
    loop {
        match walk.step() {
            WalkStep::Continue => {},
            WalkStep::Finished => break,
            WalkStep::ReadDir(p) => {
                let items = match p.as_str() {
                    "/r" => vec![item("/r/a1", true), item("/r/a2", false)],
                    "/r/a1" => vec![item("/r/a1/a3", true), item("/r/a1/b", false)],
                    "/r/a1/a3" => vec![item("/r/a1/a3/a4", true)],
                    _ => vec![item(&format!("{}/a5", p), false)],
                };
                walk.listed(Some(items));
            },
            WalkStep::Build(p) => walk.built(Some(built(&p))),
        }
    }
    walk.into_results().into_iter().map(|e| e.path).collect()
}

#[test]
fn a_walk_short_of_its_limit_finds_what_a_larger_limit_finds() {
    let all = run_walk("a", 100);
    assert_eq!(all, vec!["/r/a1", "/r/a1/a3", "/r/a1/a3/a4", "/r/a2"]);
    assert_eq!(run_walk("a", 5), all);
    assert_eq!(run_walk("a", 2), all[..2].to_vec());
}
