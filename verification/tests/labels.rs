use kaze::file_entry::{format_date_label, format_size_label, EntryMetadata, FileEntry, FileKind, Timestamp};
use kaze::text::format_exact_bytes;

fn at(secs: i64) -> Timestamp {
    Timestamp { secs, nanos: 0 }
}

const DAY: i64 = 86_400;

#[test]
fn size_label_of_a_folder_is_dashes() {
    assert_eq!(format_size_label(123_456, true), "--");
}

#[test]
fn size_label_in_bytes_below_one_kib() {
    assert_eq!(format_size_label(0, false), "0 B");
    assert_eq!(format_size_label(1, false), "1 B");
    assert_eq!(format_size_label(1023, false), "1023 B");
}

#[test]
fn size_label_in_kib_has_no_decimals() {
    assert_eq!(format_size_label(1024, false), "1 KB");
    assert_eq!(format_size_label(10 * 1024, false), "10 KB");
    assert_eq!(format_size_label(1024 * 1024 - 1, false), "1024 KB");
}

#[test]
fn size_label_in_mib_and_gib_has_one_decimal() {
    assert_eq!(format_size_label(1024 * 1024, false), "1.0 MB");
    assert_eq!(format_size_label(3 * 1024 * 1024 / 2, false), "1.5 MB");
    assert_eq!(format_size_label(1024 * 1024 * 1024, false), "1.0 GB");
    assert_eq!(format_size_label(5 * 1024 * 1024 * 1024 / 2, false), "2.5 GB");
}

#[test]
fn size_label_matches_float_formatting() {
    let kb = 1024u64;
    let mb = kb * 1024;
    let gb = mb * 1024;
    let sizes: Vec<u64> = vec![
        1536,
        2560,
        3584,
        1025,
        2047,
        kb * 999 + 512,
        mb + mb / 20,
        mb * 3 + mb / 4,
        mb * 7 + mb * 3 / 4 + 1,
        mb * 1023 + mb / 2,
        gb * 2 + gb / 20,
        gb * 17 + gb / 3,
        u64::MAX,
        123_456_789,
        987_654_321_012,
    ];
    for size in sizes {
        let expected = if size >= gb {
            format!("{:.1} GB", size as f64 / gb as f64)
        } else if size >= mb {
            format!("{:.1} MB", size as f64 / mb as f64)
        } else if size >= kb {
            format!("{:.0} KB", size as f64 / kb as f64)
        } else {
            format!("{} B", size)
        };
        assert_eq!(format_size_label(size, false), expected, "size {}", size);
    }
}

#[test]
fn date_label_without_a_time_is_dashes() {
    assert_eq!(format_date_label(None, at(1_000_000)), "--");
}

#[test]
fn date_label_counts_whole_days() {
    let now = at(1_700_000_000);
    assert_eq!(format_date_label(Some(at(1_700_000_000 - 10)), now), "Today");
    assert_eq!(format_date_label(Some(at(1_700_000_000 - DAY)), now), "Yesterday");
    assert_eq!(format_date_label(Some(at(1_700_000_000 - 2 * DAY + 1)), now), "Yesterday");
    assert_eq!(format_date_label(Some(at(1_700_000_000 - 3 * DAY)), now), "3 days ago");
    assert_eq!(format_date_label(Some(at(1_700_000_000 - 6 * DAY)), now), "6 days ago");
    assert_eq!(format_date_label(Some(at(1_700_000_000 - 7 * DAY)), now), "1 weeks ago");
    assert_eq!(format_date_label(Some(at(1_700_000_000 - 29 * DAY)), now), "4 weeks ago");
    assert_eq!(format_date_label(Some(at(1_700_000_000 - 30 * DAY)), now), "1 months ago");
    assert_eq!(format_date_label(Some(at(1_700_000_000 - 364 * DAY)), now), "12 months ago");
    assert_eq!(format_date_label(Some(at(1_700_000_000 - 365 * DAY)), now), "1 years ago");
    assert_eq!(format_date_label(Some(at(1_700_000_000 - 800 * DAY)), now), "2 years ago");
}

#[test]
fn date_label_of_a_future_time_is_today() {
    assert_eq!(format_date_label(Some(at(2_000)), at(1_000)), "Today");
}

#[test]
fn date_label_uses_nanoseconds() {
    let modified = Timestamp { secs: 100, nanos: 500_000_000 };
    let now = Timestamp { secs: 100 + DAY, nanos: 499_999_999 };
    assert_eq!(format_date_label(Some(modified), now), "Today");
    let later = Timestamp { secs: 100 + DAY, nanos: 500_000_000 };
    assert_eq!(format_date_label(Some(modified), later), "Yesterday");
}

#[test]
fn exact_bytes_are_grouped_by_thousands() {
    assert_eq!(format_exact_bytes(0), "0");
    assert_eq!(format_exact_bytes(999), "999");
    assert_eq!(format_exact_bytes(1000), "1,000");
    assert_eq!(format_exact_bytes(1536), "1,536");
    assert_eq!(format_exact_bytes(1_234_567), "1,234,567");
    assert_eq!(format_exact_bytes(u64::MAX), "18,446,744,073,709,551,615");
}

#[test]
fn exact_bytes_without_commas_are_the_number() {
    for n in [0u64, 7, 1000, 65_536, 10_000_000, 123_456_789_012] {
        assert_eq!(format_exact_bytes(n).replace(',', ""), n.to_string());
    }
}

#[test]
fn entry_labels_and_kind() {
    let now = at(1_700_000_000);
    let file = FileEntry::new(
        "/home/u/notes.txt".to_string(),
        "notes.txt".to_string(),
        FileKind::File,
        2048,
        Some(at(1_700_000_000 - 3 * DAY)),
        false,
        now,
    );
    assert!(!file.is_dir());
    assert_eq!(file.kind_label(), "Document");
    assert_eq!(file.size_label(), "2 KB");
    assert_eq!(file.date_label(), "3 days ago");
    assert!(!file.has_children);

    let dir = FileEntry::new("/home/u/src".to_string(), "src".to_string(), FileKind::Directory, 4096, None, true, now);
    assert!(dir.is_dir());
    assert_eq!(dir.kind_label(), "Folder");
    assert_eq!(dir.size_label(), "--");
    assert_eq!(dir.date_label(), "--");
    assert!(dir.has_children);

    let link = FileEntry::new("/home/u/l".to_string(), "l".to_string(), FileKind::Symlink, 9, None, true, now);
    assert_eq!(link.kind_label(), "Alias");
    assert!(!link.has_children);
    assert_eq!(link.size_label(), "9 B");
}

#[test]
fn test_file_entry_has_children_flag() {
    let now = at(1_700_000_000);
    let meta_dir = EntryMetadata { kind: FileKind::Directory, size: 4096, modified: Some(now) };
    let meta_file = EntryMetadata { kind: FileKind::File, size: 1, modified: Some(now) };
    let subdir = FileEntry::from_path("/tmp/kaze_test_children_flag/subdir".to_string(), Some(meta_dir), true, now)
        .unwrap();
    let file = FileEntry::from_path("/tmp/kaze_test_children_flag/file_a.txt".to_string(), Some(meta_file), true, now)
        .unwrap();
    for entry in [&subdir, &file] {
        if entry.is_dir() {
            assert!(entry.has_children, "dir {} should have has_children=true", entry.name);
        } else {
            assert!(!entry.has_children, "file {} should have has_children=false", entry.name);
        }
    }
}

#[test]
fn from_path_names_the_entry_by_its_last_component() {
    let now = at(10);
    let meta = EntryMetadata { kind: FileKind::File, size: 5, modified: None };
    let e = FileEntry::from_path("/a/b/c.txt".to_string(), Some(meta), false, now).unwrap();
    assert_eq!(e.name, "c.txt");
    assert_eq!(e.path, "/a/b/c.txt");
    assert_eq!(e.size, 5);
    let root = FileEntry::from_path("/".to_string(), Some(meta), false, now).unwrap();
    assert_eq!(root.name, "");
    assert!(FileEntry::from_path("/missing".to_string(), None, false, now).is_none());
}

fn float_size_label(size: u64) -> String {
    let kb = 1024u64;
    let mb = kb * 1024;
    let gb = mb * 1024;
    if size >= gb {
        format!("{:.1} GB", size as f64 / gb as f64)
    } else if size >= mb {
        format!("{:.1} MB", size as f64 / mb as f64)
    } else if size >= kb {
        format!("{:.0} KB", size as f64 / kb as f64)
    } else {
        format!("{} B", size)
    }
}

#[test]
fn size_labels_agree_with_float_formatting_across_magnitudes() {
    let mut x: u64 = 0x2545_F491_4F6C_DD1D;
    for shift in 0..64u32 {
        for _ in 0..200 {
            x ^= x << 13;
            x ^= x >> 7;
            x ^= x << 17;
            let size = if shift == 0 { x & 0x3ff } else { x >> shift };
            assert_eq!(format_size_label(size, false), float_size_label(size), "size {}", size);
        }
    }
    for k in 10..64u32 {
        let base = 1u64 << k;
        for delta in [0u64, 1, 2, 51, 52, 53, 102, 103, 512, 1023] {
            for size in [base.wrapping_add(delta), base.wrapping_sub(delta), base / 20 * 21, base / 40 * 41] {
                assert_eq!(format_size_label(size, false), float_size_label(size), "size {}", size);
            }
        }
    }
}
