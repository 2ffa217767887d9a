use dirlist::dir_utils::{
    add_file_type_indicator, get_file_info, list_files, name_is_kept, select_listed,
};
use dirlist::entry::{EntryKind, EntryMetadata, ScannedEntry, Timestamp};
use dirlist::sorter::{arrange, compare_rows, select_order, SortKey, SortOrder, SortRow};
use dirlist::text::Rank;

fn at(secs: i64) -> Timestamp {
    Timestamp::new(secs, 0)
}

fn metadata(kind: EntryKind, mode: u32, size: u64, modified: i64) -> EntryMetadata {
    EntryMetadata { kind, mode, links: 1, uid: 0, gid: 0, size, modified: Some(at(modified)) }
}

fn file(name: &str) -> Option<ScannedEntry> {
    Some(ScannedEntry {
        name: name.to_string(),
        metadata: Some(metadata(EntryKind::RegularFile, 0o100644, 0, 1_700_000_000)),
    })
}

fn directory(name: &str) -> Option<ScannedEntry> {
    Some(ScannedEntry {
        name: name.to_string(),
        metadata: Some(metadata(EntryKind::Directory, 0o040755, 4096, 1_700_000_000)),
    })
}

fn sized(name: &str, size: u64, modified: i64) -> Option<ScannedEntry> {
    Some(ScannedEntry {
        name: name.to_string(),
        metadata: Some(metadata(EntryKind::RegularFile, 0o100644, size, modified)),
    })
}

fn now() -> Timestamp {
    at(1_800_000_000)
}

#[test]
fn test_list_files() {
    let entries = vec![
        file("file1.txt"),
        file("file2.txt"),
        file(".hidden_file"),
        directory("subdir"),
    ];

    // Test 1: show_hidden = false, classify = false
    let files = list_files(&entries, now(), false, false, false, false, false, false, false);
    let mut expected_files =
        vec!["file1.txt".to_string(), "file2.txt".to_string(), "subdir".to_string()];
    expected_files.sort();
    let mut files_sorted = files.clone();
    files_sorted.sort();
    assert_eq!(files_sorted, expected_files);

    // Test 2: show_hidden = true, classify = false
    let files = list_files(&entries, now(), true, false, false, false, false, false, false);
    let mut expected_files = vec![
        "file1.txt".to_string(),
        "file2.txt".to_string(),
        ".hidden_file".to_string(),
        "subdir".to_string(),
    ];
    expected_files.sort();
    let mut files_sorted = files.clone();
    files_sorted.sort();
    assert_eq!(files_sorted, expected_files);

    // Test 3: classify = true (should add / to directories)
    let files = list_files(&entries, now(), false, false, true, false, false, false, false);
    let mut expected_files =
        vec!["file1.txt".to_string(), "file2.txt".to_string(), "subdir/".to_string()];
    expected_files.sort();
    let mut files_sorted = files.clone();
    files_sorted.sort();
    assert_eq!(files_sorted, expected_files);
}

#[test]
fn test_file_info_permissions() {
    let entry = file("test_file.txt").expect("Unable to get directory entry");
    let file_info = get_file_info(&entry, now(), false).expect("Unable to get file info");
    assert!(file_info.permissions.starts_with('-'), "Regular file should start with '-' not '.'");
}

#[test]
fn test_sorting() {
    let entries = vec![file("c.txt"), file("a.txt"), file("b.txt")];

    // Test default alphabetical sorting
    let files = list_files(&entries, now(), false, false, false, false, false, false, false);
    assert_eq!(files, vec!["a.txt", "b.txt", "c.txt"]);

    // Test reverse sorting
    let files = list_files(&entries, now(), false, false, false, false, false, true, false);
    assert_eq!(files, vec!["c.txt", "b.txt", "a.txt"]);

    // Test unsorted (keeps the order in which the file system gave the entries)
    let files = list_files(&entries, now(), false, false, false, false, false, false, true);
    // Just ensure we get all files (order might vary)
    let mut sorted_files = files.clone();
    sorted_files.sort();
    assert_eq!(sorted_files, vec!["a.txt", "b.txt", "c.txt"]);
}

#[test]
fn unsorted_keeps_the_order_of_the_scan() {
    let entries = vec![file("c.txt"), file("a.txt"), file("b.txt")];
    let files = list_files(&entries, now(), false, false, false, true, true, true, true);
    assert_eq!(files, vec!["c.txt", "a.txt", "b.txt"]);
}

#[test]
fn hidden_entry_shows_only_with_the_flag() {
    let entries = vec![file(".foo"), file("bar")];
    let without = list_files(&entries, now(), false, false, false, false, false, false, false);
    assert_eq!(without, vec!["bar"]);
    let with = list_files(&entries, now(), true, false, false, false, false, false, false);
    assert_eq!(with, vec![".foo", "bar"]);
    assert!(!name_is_kept(".foo", false, false));
    assert!(name_is_kept(".foo", true, false));
    assert!(name_is_kept(".foo", true, true));
    assert!(name_is_kept("foo", false, true));
    assert!(name_is_kept("", false, true));
}

#[test]
fn almost_all_drops_dot_and_dot_dot() {
    let entries = vec![directory("."), directory(".."), file(".profile"), file("notes")];
    let all = list_files(&entries, now(), true, false, false, false, false, false, false);
    assert_eq!(all, vec![".", "..", ".profile", "notes"]);
    let almost = list_files(&entries, now(), true, true, false, false, false, false, false);
    assert_eq!(almost, vec![".profile", "notes"]);
    assert!(!name_is_kept(".", true, true));
    assert!(!name_is_kept("..", true, true));
    assert!(name_is_kept("...", true, true));
    assert!(name_is_kept(".a", true, true));
    assert!(name_is_kept(".", true, false));
    assert!(!name_is_kept("..", false, false));
}

#[test]
fn almost_all_without_show_hidden_still_hides() {
    let entries = vec![file(".profile"), file("notes")];
    let files = list_files(&entries, now(), false, true, false, false, false, false, false);
    assert_eq!(files, vec!["notes"]);
}

#[test]
fn classify_marks_directories_and_executables() {
    let plain = metadata(EntryKind::RegularFile, 0o100644, 1, 0);
    let script = metadata(EntryKind::RegularFile, 0o100755, 1, 0);
    let group_exec = metadata(EntryKind::RegularFile, 0o100010, 1, 0);
    let dir = metadata(EntryKind::Directory, 0o040700, 1, 0);
    let link = metadata(EntryKind::Other, 0o120777, 1, 0);
    assert_eq!(add_file_type_indicator("notes", &plain), "notes");
    assert_eq!(add_file_type_indicator("run", &script), "run*");
    assert_eq!(add_file_type_indicator("run", &group_exec), "run*");
    assert_eq!(add_file_type_indicator("src", &dir), "src/");
    assert_eq!(add_file_type_indicator("latest", &link), "latest");
    assert_eq!(add_file_type_indicator("", &dir), "/");
}

#[test]
fn classified_names_are_ordered_as_shown() {
    // '/' sorts after '-', so the indicator moves the directory behind "a-b".
    let entries = vec![directory("a"), file("a-b")];
    let plain = list_files(&entries, now(), false, false, false, false, false, false, false);
    assert_eq!(plain, vec!["a", "a-b"]);
    let classified = list_files(&entries, now(), false, false, true, false, false, false, false);
    assert_eq!(classified, vec!["a-b", "a/"]);
}

#[test]
fn time_order_is_newest_first_and_reverse_oldest_first() {
    let entries = vec![sized("old", 1, 100), sized("new", 1, 300), sized("mid", 1, 200)];
    let newest = list_files(&entries, now(), false, false, false, true, false, false, false);
    assert_eq!(newest, vec!["new", "mid", "old"]);
    let oldest = list_files(&entries, now(), false, false, false, true, false, true, false);
    assert_eq!(oldest, vec!["old", "mid", "new"]);
}

#[test]
fn time_order_goes_before_size_order() {
    let entries = vec![sized("big-old", 900, 100), sized("small-new", 1, 300)];
    let files = list_files(&entries, now(), false, false, false, true, true, false, false);
    assert_eq!(files, vec!["small-new", "big-old"]);
}

#[test]
fn size_order_is_largest_first_and_reverse_smallest_first() {
    let entries = vec![sized("small", 10, 0), sized("large", 3000, 0), sized("medium", 200, 0)];
    let largest = list_files(&entries, now(), false, false, false, false, true, false, false);
    assert_eq!(largest, vec!["large", "medium", "small"]);
    let smallest = list_files(&entries, now(), false, false, false, false, true, true, false);
    assert_eq!(smallest, vec!["small", "medium", "large"]);
}

#[test]
fn ties_keep_the_order_of_the_scan() {
    let entries =
        vec![sized("z", 5, 0), sized("y", 7, 0), sized("x", 5, 0), sized("w", 7, 0), sized("v", 5, 0)];
    let largest = list_files(&entries, now(), false, false, false, false, true, false, false);
    assert_eq!(largest, vec!["y", "w", "z", "x", "v"]);
    let smallest = list_files(&entries, now(), false, false, false, false, true, true, false);
    assert_eq!(smallest, vec!["z", "x", "v", "y", "w"]);
}

#[test]
fn nanoseconds_decide_between_times_of_one_second() {
    let early = Timestamp::new(50, 1);
    let late = Timestamp::new(50, 2);
    let mut first = metadata(EntryKind::RegularFile, 0o100644, 1, 0);
    first.modified = Some(early);
    let mut second = metadata(EntryKind::RegularFile, 0o100644, 1, 0);
    second.modified = Some(late);
    let entries = vec![
        Some(ScannedEntry { name: "early".to_string(), metadata: Some(first) }),
        Some(ScannedEntry { name: "late".to_string(), metadata: Some(second) }),
    ];
    let files = list_files(&entries, now(), false, false, false, true, false, false, false);
    assert_eq!(files, vec!["late", "early"]);
}

#[test]
fn missing_modification_time_counts_as_now() {
    let mut timeless = metadata(EntryKind::RegularFile, 0o100644, 1, 0);
    timeless.modified = None;
    let entries = vec![
        sized("past", 1, 1_700_000_000),
        Some(ScannedEntry { name: "timeless".to_string(), metadata: Some(timeless) }),
        sized("future", 1, 1_900_000_000),
    ];
    let files = list_files(&entries, now(), false, false, false, true, false, false, false);
    assert_eq!(files, vec!["future", "timeless", "past"]);
}

#[test]
fn names_are_ordered_by_their_bytes() {
    let entries = vec![file("b"), file("B"), file("a"), file("é"), file("ab"), file("")];
    let files = list_files(&entries, now(), false, false, false, false, false, false, false);
    assert_eq!(files, vec!["", "B", "a", "ab", "b", "é"]);
}

#[test]
fn unreadable_slots_and_metadata_are_skipped() {
    let entries = vec![
        file("kept"),
        None,
        Some(ScannedEntry { name: "gone".to_string(), metadata: None }),
        file("also"),
    ];
    let files = list_files(&entries, now(), false, false, false, false, false, false, false);
    assert_eq!(files, vec!["also", "kept"]);
    assert_eq!(select_listed(&entries, false, false), vec![0, 3]);
}

#[test]
fn empty_directory_gives_an_empty_listing() {
    let entries: Vec<Option<ScannedEntry>> = Vec::new();
    let files = list_files(&entries, now(), true, true, true, true, true, true, false);
    assert!(files.is_empty());
}

#[test]
fn the_flags_select_one_order_by_priority() {
    assert_eq!(select_order(false, false, false, false), SortOrder { key: SortKey::Name, reverse: false });
    assert_eq!(select_order(false, true, false, false), SortOrder { key: SortKey::Size, reverse: false });
    assert_eq!(select_order(true, true, true, false), SortOrder { key: SortKey::Time, reverse: true });
    assert_eq!(
        select_order(true, true, false, true),
        SortOrder { key: SortKey::Enumeration, reverse: false }
    );
}

fn row(name: &str, size: u64, secs: i64) -> SortRow {
    SortRow { name: name.to_string(), size, modified: at(secs) }
}

#[test]
fn rows_compare_by_the_active_key_alone() {
    let a = row("a", 10, 100);
    let b = row("b", 5, 200);
    let by_name = SortOrder { key: SortKey::Name, reverse: false };
    let by_name_reversed = SortOrder { key: SortKey::Name, reverse: true };
    let by_time = SortOrder { key: SortKey::Time, reverse: false };
    let by_size = SortOrder { key: SortKey::Size, reverse: false };
    let none = SortOrder { key: SortKey::Enumeration, reverse: true };
    assert_eq!(compare_rows(&a, &b, by_name), Rank::Before);
    assert_eq!(compare_rows(&a, &b, by_name_reversed), Rank::After);
    assert_eq!(compare_rows(&a, &b, by_time), Rank::After);
    assert_eq!(compare_rows(&a, &b, by_size), Rank::Before);
    assert_eq!(compare_rows(&a, &b, none), Rank::Tied);
    assert_eq!(compare_rows(&a, &a, by_name), Rank::Tied);
}

#[test]
fn arrange_gives_the_places_of_the_rows() {
    let rows = vec![row("d", 1, 0), row("b", 1, 0), row("c", 1, 0), row("a", 1, 0), row("b", 2, 0)];
    let by_name = SortOrder { key: SortKey::Name, reverse: false };
    assert_eq!(arrange(&rows, by_name), vec![3, 1, 4, 2, 0]);
    let reversed = SortOrder { key: SortKey::Name, reverse: true };
    assert_eq!(arrange(&rows, reversed), vec![0, 2, 1, 4, 3]);
    let none = SortOrder { key: SortKey::Enumeration, reverse: false };
    assert_eq!(arrange(&rows, none), vec![0, 1, 2, 3, 4]);
    let empty: Vec<SortRow> = Vec::new();
    assert!(arrange(&empty, by_name).is_empty());
}

#[test]
fn a_large_listing_comes_out_in_order() {
    let mut entries = Vec::new();
    let mut k: u64 = 7;
    for _ in 0..500 {
        k = (k * 131 + 17) % 1009;
        entries.push(sized(&format!("f{:04}", k), k % 13, (k % 29) as i64));
    }
    let by_name = list_files(&entries, now(), false, false, false, false, false, false, false);
    let mut expected: Vec<String> =
        entries.iter().map(|e| e.as_ref().expect("a read slot").name.clone()).collect();
    expected.sort();
    assert_eq!(by_name, expected);
    let by_size = list_files(&entries, now(), false, false, false, false, true, false, false);
    let mut with_sizes: Vec<(u64, String)> = entries
        .iter()
        .map(|e| {
            let e = e.as_ref().expect("a read slot");
            (e.metadata.as_ref().expect("metadata").size, e.name.clone())
        })
        .collect();
    with_sizes.sort_by(|a, b| b.0.cmp(&a.0));
    let expected: Vec<String> = with_sizes.into_iter().map(|p| p.1).collect();
    assert_eq!(by_size, expected);
}
