use dirlist::args::{Args, ListingMode};
use dirlist::dir_utils::{list_files_detailed_with, FileInfo};
use dirlist::entry::{EntryKind, EntryMetadata, ScannedEntry, Timestamp};
use dirlist::render::{
    directory_heading, long_text, path_banner, short_text, unreadable_report,
};
use dirlist::walker::{is_listable, list_directory, list_directory_with, list_recursive, Walker};

fn at(secs: i64) -> Timestamp {
    Timestamp::new(secs, 0)
}

fn now() -> Timestamp {
    at(1_800_000_000)
}

fn entry(name: &str, kind: EntryKind, mode: u32, size: u64) -> Option<ScannedEntry> {
    Some(ScannedEntry {
        name: name.to_string(),
        metadata: Some(EntryMetadata {
            kind,
            mode,
            links: 1,
            uid: 0,
            gid: 0,
            size,
            modified: Some(at(1_700_000_000)),
        }),
    })
}

fn nobody(_id: u32) -> Option<String> {
    None
}

fn names(list: &[&str]) -> Vec<String> {
    list.iter().map(|s| s.to_string()).collect()
}

fn record(name: &str, size: &str) -> FileInfo {
    FileInfo {
        permissions: "-rw-r--r--".to_string(),
        links: "1".to_string(),
        owner: "ada".to_string(),
        group: "staff".to_string(),
        size: size.to_string(),
        modified: "Nov 14 22:13".to_string(),
        name: name.to_string(),
        is_dir: false,
        file_size: 0,
        modified_time: at(0),
    }
}

#[test]
fn short_form_on_one_line() {
    assert_eq!(short_text(&names(&["a.txt", "b.txt", "c.txt"]), false), "a.txt  b.txt  c.txt\n");
    assert_eq!(short_text(&names(&["a", "b"]), false), "a  b\n");
    assert_eq!(short_text(&names(&["only"]), false), "only\n");
    assert_eq!(short_text(&names(&["", ""]), false), "  \n");
    assert_eq!(short_text(&names(&[]), false), "\n");
}

#[test]
fn short_form_one_per_line() {
    assert_eq!(short_text(&names(&["a.txt", "b.txt", "c.txt"]), true), "a.txt\nb.txt\nc.txt\n");
    assert_eq!(short_text(&names(&[]), true), "");
}

#[test]
fn long_form_is_a_table_without_borders() {
    let files = vec![record("a.txt", "2 KiB"), record("longer-name", "7")];
    let text = long_text(&files);
    let expected = concat_lines(&[
        " permissions   links   owner   group   size    modified       name        ",
        " -rw-r--r--    1       ada     staff   2 KiB   Nov 14 22:13   a.txt       ",
        " -rw-r--r--    1       ada     staff   7       Nov 14 22:13   longer-name ",
    ]);
    assert_eq!(text, expected);
}

fn concat_lines(lines: &[&str]) -> String {
    let mut text = String::new();
    for line in lines {
        text.push_str(line);
        text.push('\n');
    }
    text
}

#[test]
fn long_form_of_no_records_is_the_heading() {
    let text = long_text(&Vec::new());
    assert_eq!(text, " permissions   links   owner   group   size   modified   name \n");
}

#[test]
fn heading_of_a_directory() {
    assert_eq!(directory_heading("root/sub"), "\nroot/sub:\n");
    assert_eq!(directory_heading(""), "\n:\n");
}

#[test]
fn banner_between_several_paths() {
    assert_eq!(path_banner(0, 1, "."), "");
    assert_eq!(path_banner(0, 1, "src"), "");
    assert_eq!(path_banner(0, 2, "src"), "src:\n");
    assert_eq!(path_banner(1, 2, "tests"), "\ntests:\n");
    assert_eq!(path_banner(2, 3, "x"), "\nx:\n");
}

#[test]
fn recursive_page_has_heading_names_and_places_to_descend() {
    let entries = vec![
        entry("sub", EntryKind::Directory, 0o755, 4096),
        entry("a.txt", EntryKind::RegularFile, 0o644, 1),
        entry("run", EntryKind::RegularFile, 0o755, 1),
    ];
    let page = list_recursive(
        "root", &entries, now(), false, false, true, false, false, false, false, false,
    );
    assert_eq!(page.text, "\nroot:\na.txt  run*  sub/\n");
    assert_eq!(page.descend, vec!["a.txt", "run", "sub"]);
    let page = list_recursive(
        "root", &entries, now(), false, false, false, false, false, true, false, true,
    );
    assert_eq!(page.text, "\nroot:\nsub\nrun\na.txt\n");
    assert_eq!(page.descend, vec!["sub", "run", "a.txt"]);
}

#[test]
fn a_star_or_slash_of_the_name_itself_stays() {
    let entries = vec![
        entry("foo", EntryKind::Directory, 0o755, 4096),
        entry("foo*", EntryKind::RegularFile, 0o644, 1),
        entry("bar*", EntryKind::RegularFile, 0o755, 1),
    ];
    let page = list_recursive(
        "root", &entries, now(), false, false, true, false, false, false, false, true,
    );
    assert_eq!(page.text, "\nroot:\nbar**\nfoo*\nfoo/\n");
    assert_eq!(page.descend, vec!["bar*", "foo*", "foo"]);
    let page = list_recursive(
        "root", &entries, now(), false, false, false, false, false, false, false, true,
    );
    assert_eq!(page.descend, vec!["bar*", "foo", "foo*"]);
}

fn walk(root: &str, args: &Args, scan: fn(&str) -> Vec<Option<ScannedEntry>>, is_directory: fn(&str) -> bool) -> (Vec<String>, String) {
    let mut printed = String::new();
    let mut visited: Vec<String> = Vec::new();
    let mut walker = Walker::new(root);
    while let Some(path) = walker.next_directory() {
        let page = list_directory(&path, &scan(&path), now(), args);
        printed.push_str(&page.text);
        let mut below = Vec::new();
        for name in &page.descend {
            let full = format!("{path}/{name}");
            if is_directory(&full) {
                below.push(full);
            }
        }
        walker.found(below);
        visited.push(path);
    }
    (visited, printed)
}

fn scan_foo(path: &str) -> Vec<Option<ScannedEntry>> {
    match path {
        "root" => vec![
            entry("foo", EntryKind::Directory, 0o755, 4096),
            entry("foo*", EntryKind::RegularFile, 0o644, 1),
        ],
        "root/foo" => Vec::new(),
        _ => panic!("the walk left the tree: {path}"),
    }
}

fn is_directory_foo(path: &str) -> bool {
    path == "root" || path == "root/foo"
}

#[test]
fn a_directory_beside_a_file_with_a_star_is_listed_once() {
    let mut args = options();
    args.recursive = true;
    args.classify = true;
    args.one_per_line = true;
    let (visited, printed) = walk("root", &args, scan_foo, is_directory_foo);
    assert_eq!(visited, vec!["root", "root/foo"]);
    assert_eq!(printed, "\nroot:\nfoo*\nfoo/\n\nroot/foo:\n");
    assert_eq!(printed.matches("root/foo:").count(), 1);
}

fn options() -> Args {
    Args::default()
}

#[test]
fn default_options() {
    let args = Args::default();
    assert_eq!(args.paths, vec!["."]);
    assert!(!args.all && !args.almost_all && !args.long && !args.recursive);
    assert!(!args.human_readable && !args.classify && !args.one_per_line);
    assert!(!args.sort_time && !args.sort_size && !args.reverse && !args.unsorted);
    assert_eq!(args.mode(), ListingMode::Short);
    assert!(!args.show_hidden());
}

#[test]
fn long_goes_before_recursive() {
    let mut args = options();
    args.recursive = true;
    assert_eq!(args.mode(), ListingMode::Recursive);
    args.long = true;
    assert_eq!(args.mode(), ListingMode::Long);
    args.recursive = false;
    assert_eq!(args.mode(), ListingMode::Long);
}

#[test]
fn either_flag_shows_hidden_entries() {
    let mut args = options();
    args.all = true;
    assert!(args.show_hidden());
    args.all = false;
    args.almost_all = true;
    assert!(args.show_hidden());
}

#[test]
fn directory_in_short_form() {
    let entries = vec![
        entry("b", EntryKind::RegularFile, 0o644, 1),
        entry(".a", EntryKind::RegularFile, 0o644, 1),
        entry("c", EntryKind::Directory, 0o755, 1),
    ];
    let mut args = options();
    let page = list_directory("here", &entries, now(), &args);
    assert_eq!(page.text, "b  c\n");
    assert!(page.descend.is_empty());
    args.almost_all = true;
    args.classify = true;
    args.one_per_line = true;
    let page = list_directory("here", &entries, now(), &args);
    assert_eq!(page.text, ".a\nb\nc/\n");
    assert!(page.descend.is_empty());
}

#[test]
fn directory_in_recursive_form() {
    let entries = vec![
        entry("b", EntryKind::RegularFile, 0o644, 1),
        entry("c", EntryKind::Directory, 0o755, 1),
    ];
    let mut args = options();
    args.recursive = true;
    let page = list_directory("here", &entries, now(), &args);
    assert_eq!(page.text, "\nhere:\nb  c\n");
    assert_eq!(page.descend, vec!["b", "c"]);
}

#[test]
fn directory_in_long_form() {
    let entries = vec![
        entry("b", EntryKind::RegularFile, 0o644, 2048),
        entry("c", EntryKind::Directory, 0o755, 4096),
    ];
    let mut args = options();
    args.long = true;
    args.recursive = true;
    args.human_readable = true;
    let page = list_directory_with("here", &entries, now(), &args, &nobody, &nobody);
    let files = list_files_detailed_with(
        &entries, now(), false, false, true, false, false, false, false, &nobody, &nobody,
    );
    assert_eq!(page.text, long_text(&files));
    assert!(page.descend.is_empty());
    let lines: Vec<&str> = page.text.lines().collect();
    assert_eq!(lines.len(), 3);
    assert!(lines[0].contains("permissions"));
    assert!(lines[1].starts_with(" -rw-r--r--"));
    assert!(lines[1].contains(" 2 KiB "));
    assert!(lines[1].trim_end().ends_with(" b"));
    assert!(lines[2].starts_with(" drwxr-xr-x"));
    assert!(lines[2].trim_end().ends_with(" c"));
}

#[test]
fn walk_lists_what_it_found_first_found_first() {
    let mut walker = Walker::new("root");
    assert_eq!(walker.next_directory(), Some("root".to_string()));
    walker.found(names(&["root/a", "root/b"]));
    assert_eq!(walker.next_directory(), Some("root/a".to_string()));
    walker.found(names(&["root/a/x", "root/a/y"]));
    assert_eq!(walker.next_directory(), Some("root/a/x".to_string()));
    walker.found(Vec::new());
    assert_eq!(walker.next_directory(), Some("root/a/y".to_string()));
    walker.found(Vec::new());
    assert_eq!(walker.next_directory(), Some("root/b".to_string()));
    walker.found(Vec::new());
    assert_eq!(walker.next_directory(), None);
    assert_eq!(walker.next_directory(), None);
}

fn scan(path: &str) -> Vec<Option<ScannedEntry>> {
    match path {
        "root" => vec![
            entry("sub", EntryKind::Directory, 0o755, 4096),
            entry("a.txt", EntryKind::RegularFile, 0o644, 1),
        ],
        "root/sub" => vec![entry("b.txt", EntryKind::RegularFile, 0o644, 1)],
        _ => panic!("the walk left the tree: {path}"),
    }
}

fn is_directory(path: &str) -> bool {
    path == "root" || path == "root/sub"
}

#[test]
fn recursive_walk_of_a_small_tree() {
    let mut args = options();
    args.recursive = true;
    let (visited, printed) = walk("root", &args, scan, is_directory);
    assert_eq!(visited, vec!["root", "root/sub"]);
    assert_eq!(printed, "\nroot:\na.txt  sub\n\nroot/sub:\nb.txt\n");
}

#[test]
fn only_the_long_form_needs_times_within_the_calendar() {
    let mut far = entry("far", EntryKind::RegularFile, 0o644, 1);
    if let Some(found) = far.as_mut() {
        if let Some(meta) = found.metadata.as_mut() {
            meta.modified = Some(at(i64::MAX));
        }
    }
    let entries = vec![far, entry("near", EntryKind::RegularFile, 0o644, 1)];
    let mut args = options();
    assert!(is_listable(&entries, now(), &args));
    let page = list_directory("here", &entries, now(), &args);
    assert_eq!(page.text, "far  near\n");
    args.sort_time = true;
    let page = list_directory("here", &entries, now(), &args);
    assert_eq!(page.text, "far  near\n");
    args.recursive = true;
    assert!(is_listable(&entries, now(), &args));
    args.long = true;
    assert!(!is_listable(&entries, now(), &args));
    assert!(is_listable(&entries[1..].to_vec(), now(), &args));
}

#[test]
fn directory_in_long_form_from_the_account_database() {
    let mut stray = entry("b", EntryKind::RegularFile, 0o644, 2048);
    if let Some(found) = stray.as_mut() {
        if let Some(meta) = found.metadata.as_mut() {
            meta.uid = 4_123_456_789;
            meta.gid = 4_123_456_788;
        }
    }
    let mut args = options();
    args.long = true;
    let page = list_directory("here", &vec![stray], now(), &args);
    let lines: Vec<&str> = page.text.lines().collect();
    assert_eq!(lines.len(), 2);
    assert!(lines[1].starts_with(" -rw-r--r--    1       4123456789   4123456788   2048   "));
    assert!(lines[1].trim_end().ends_with(" b"));
    assert!(page.text.ends_with('\n'));
    assert!(page.descend.is_empty());
}
