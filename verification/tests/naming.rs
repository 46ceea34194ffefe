use kaze::naming::{duplicate_target, unique_child_path, unique_file_path};
use kaze::trash::{plan_trash, trash_base_dir, trash_date, trash_dir, trash_entry_name, trash_info, LocalTime};

fn taken(names: &[&str]) -> Vec<String> {
    names.iter().map(|s| s.to_string()).collect()
}

const TEST_DIR_NAMES: [&str; 3] = ["file_a.txt", "file_b.txt", "subdir"];

#[test]
fn test_unique_child_path_uses_a_numbered_suffix() {
    let tmp = "/tmp/kaze_test_new_folder";
    let mut names = taken(&TEST_DIR_NAMES);
    names.push("Untitled Folder".to_string());
    assert_eq!(unique_child_path(tmp, "Untitled Folder", &names), format!("{}/Untitled Folder 2", tmp));
}

#[test]
fn test_unique_file_path() {
    let tmp = "/tmp/kaze_test_new_file";
    let mut names = taken(&TEST_DIR_NAMES);
    names.push("Untitled.txt".to_string());
    assert_eq!(unique_file_path(tmp, "Untitled", "txt", &names), format!("{}/Untitled 2.txt", tmp));
}

#[test]
fn test_duplicate_file_and_folder() {
    let tmp = "/tmp/kaze_test_dup";
    let mut names = taken(&TEST_DIR_NAMES);
    let file_path = format!("{}/file_a.txt", tmp);
    let dup_file = duplicate_target(&file_path, false, &names);
    assert_eq!(dup_file, format!("{}/file_a copy.txt", tmp));
    names.push("file_a copy.txt".to_string());

    let dup_file_2 = duplicate_target(&file_path, false, &names);
    assert_eq!(dup_file_2, format!("{}/file_a copy 2.txt", tmp));
    names.push("file_a copy 2.txt".to_string());

    let dir_path = format!("{}/subdir", tmp);
    let dup_dir = duplicate_target(&dir_path, true, &names);
    assert_eq!(dup_dir, format!("{}/subdir copy", tmp));
}

#[test]
fn unique_names_are_free_and_first() {
    assert_eq!(unique_child_path("/p", "New", &taken(&[])), "/p/New");
    assert_eq!(unique_child_path("/p", "New", &taken(&["New", "New 2", "New 4"])), "/p/New 3");
    assert_eq!(unique_file_path("/p", "a", "md", &taken(&["a.md", "a 2.md", "a 3.md"])), "/p/a 4.md");
    assert_eq!(unique_child_path("/p/", "x", &taken(&["x"])), "/p/x 2");
}

#[test]
fn duplicates_of_dotted_and_plain_names() {
    assert_eq!(duplicate_target("/d/archive.tar.gz", false, &taken(&[])), "/d/archive.tar copy.gz");
    assert_eq!(duplicate_target("/d/README", false, &taken(&[])), "/d/README copy");
    assert_eq!(duplicate_target("/d/.bashrc", false, &taken(&[])), "/d/.bashrc copy");
    assert_eq!(duplicate_target("/d/pkg.v2", true, &taken(&["pkg.v2 copy"])), "/d/pkg.v2 copy 2");
}

#[test]
fn test_move_to_trash_basic() {
    let plan = plan_trash(
        "/tmp/kaze_trash_test_basic/test_file.txt",
        None,
        Some("/home/u".to_string()),
        &taken(&[]),
    );
    assert_eq!(plan.files_dir, "/home/u/.local/share/Trash/files");
    assert_eq!(plan.info_dir, "/home/u/.local/share/Trash/info");
    assert_eq!(plan.dest_file, "/home/u/.local/share/Trash/files/test_file.txt");
    assert_eq!(plan.info_file, "/home/u/.local/share/Trash/info/test_file.txt.trashinfo");
}

#[test]
fn test_move_to_trash_name_collision() {
    let first = plan_trash("/tmp/kaze_trash_test_collision/dup.txt", None, Some("/h".to_string()), &taken(&[]));
    assert_eq!(first.dest_file, "/h/.local/share/Trash/files/dup.txt");
    let second =
        plan_trash("/tmp/kaze_trash_test_collision/dup.txt", None, Some("/h".to_string()), &taken(&["dup.txt"]));
    assert_eq!(second.dest_file, "/h/.local/share/Trash/files/dup (1).txt");
    assert_eq!(second.info_file, "/h/.local/share/Trash/info/dup (1).txt.trashinfo");
}

#[test]
fn test_move_to_trash_directory() {
    let plan = plan_trash(
        "/tmp/kaze_trash_test_dir/my_folder",
        Some("/data".to_string()),
        Some("/h".to_string()),
        &taken(&["my_folder", "my_folder (1)"]),
    );
    assert_eq!(plan.files_dir, "/data/Trash/files");
    assert_eq!(plan.dest_file, "/data/Trash/files/my_folder (2)");
    assert_eq!(plan.info_file, "/data/Trash/info/my_folder (2).trashinfo");
}

#[test]
fn trash_names_take_the_first_free_number() {
    let names = taken(&["f.txt", "f (1).txt", "f (2).txt", "f (4).txt"]);
    assert_eq!(trash_entry_name("f.txt", "f", ".txt", &names), "f (3).txt");
    assert_eq!(trash_entry_name("g.txt", "g", ".txt", &names), "g.txt");
    assert_eq!(trash_entry_name("f.txt", "f", "", &taken(&["f.txt"])), "f (1)");
}

#[test]
fn trash_folders_follow_the_environment() {
    assert_eq!(trash_base_dir(Some("/x".to_string()), Some("/h".to_string())), Some("/x/Trash".to_string()));
    assert_eq!(trash_base_dir(None, Some("/h".to_string())), Some("/h/.local/share/Trash".to_string()));
    assert_eq!(trash_base_dir(None, None), None);
    assert_eq!(trash_dir(None, Some("/h".to_string())), Some("/h/.local/share/Trash/files".to_string()));
    assert_eq!(trash_dir(None, None), None);
    let plan = plan_trash("/a/b.txt", None, None, &taken(&[]));
    assert_eq!(plan.dest_file, ".local/share/Trash/files/b.txt");
}

#[test]
fn trash_info_records_path_and_local_time() {
    let t = LocalTime { year: 2024, month: 3, day: 7, hour: 9, minute: 5, second: 0 };
    assert_eq!(trash_date(&t), "2024-03-07T09:05:00");
    assert_eq!(
        trash_info("/home/u/a b.txt", &t),
        "[Trash Info]\nPath=/home/u/a b.txt\nDeletionDate=2024-03-07T09:05:00\n"
    );
    let early = LocalTime { year: 987, month: 12, day: 31, hour: 23, minute: 59, second: 59 };
    assert_eq!(trash_date(&early), "0987-12-31T23:59:59");
}

#[test]
fn test_move_to_trash_removes_file() {
    let home = "/home/kaze";
    let plan = plan_trash("/tmp/kaze_test_trash/file_a.txt", None, Some(home.to_string()), &taken(&[]));
    assert_eq!(plan.dest_file, format!("{}/.local/share/Trash/files/file_a.txt", home));
    assert_eq!(trash_dir(None, Some(home.to_string())), Some(format!("{}/.local/share/Trash/files", home)));
}
