//! The text of a listing: names in short form, records as a table, and the
//! headings that stand before a directory.

use crate::dir_utils::FileInfo;
use crate::host::{blank_table, blank_table_text};
use vstd::prelude::*;
use vstd::string::*;

verus! {

/// The pieces one after another, each followed by `tail`.
pub open spec fn each_followed_by(pieces: Seq<Seq<char>>, tail: Seq<char>) -> Seq<char>
    decreases pieces.len(),
{
    if pieces.len() == 0 {
        Seq::empty()
    } else {
        each_followed_by(pieces.drop_last(), tail) + pieces.last() + tail
    }
}

/// The pieces one after another with `sep` between each two of them.
pub open spec fn joined_by(pieces: Seq<Seq<char>>, sep: Seq<char>) -> Seq<char>
    decreases pieces.len(),
{
    if pieces.len() == 0 {
        Seq::empty()
    } else if pieces.len() == 1 {
        pieces[0]
    } else {
        joined_by(pieces.drop_last(), sep) + sep + pieces.last()
    }
}

/// The short form as text. With `one_per_line` every name stands on a line of
/// its own. Without it all names stand on one line with two spaces between
/// each two of them, and a line break ends the line; an empty listing is an
/// empty line.
pub open spec fn short_chars(files: Seq<Seq<char>>, one_per_line: bool) -> Seq<char> {
    if one_per_line {
        each_followed_by(files, seq!['\n'])
    } else {
        joined_by(files, seq![' ', ' ']) + seq!['\n']
    }
}

/// Renders the names on one line.
fn names_on_one_line(files: &Vec<String>) -> (text: String)
    ensures
        text@ == joined_by(files.deep_view(), seq![' ', ' ']) + seq!['\n'],
{
    proof {
        reveal_strlit("\n");
        reveal_strlit("  ");
    }
    let ghost names = files.deep_view();
    let ghost sep = seq![' ', ' '];
    let mut text: String = String::new();
    let mut i: usize = 0;
    while i < files.len()
        invariant
            i <= files.len(),
            names == files.deep_view(),
            sep == seq![' ', ' '],
            "  "@ == sep,
            text@ == joined_by(names.take(i as int), sep),
        decreases files.len() - i,
    {
        assert(names.take(i + 1).drop_last() =~= names.take(i as int));
        if i > 0 {
            text.append("  ");
        }
        text.append(files[i].as_str());
        i += 1;
    }
    assert(names.take(i as int) =~= names);
    text.append("\n");
    text
}

/// Renders every name on a line of its own.
fn names_line_by_line(files: &Vec<String>) -> (text: String)
    ensures
        text@ == each_followed_by(files.deep_view(), seq!['\n']),
{
    proof {
        reveal_strlit("\n");
    }
    let ghost names = files.deep_view();
    let mut text: String = String::new();
    let mut i: usize = 0;
    while i < files.len()
        invariant
            i <= files.len(),
            names == files.deep_view(),
            "\n"@ == seq!['\n'],
            text@ == each_followed_by(names.take(i as int), seq!['\n']),
        decreases files.len() - i,
    {
        assert(names.take(i + 1).drop_last() =~= names.take(i as int));
        text.append(files[i].as_str());
        text.append("\n");
        i += 1;
    }
    assert(names.take(i as int) =~= names);
    text
}

/// Renders the short form.
pub fn short_text(files: &Vec<String>, one_per_line: bool) -> (text: String)
    ensures
        text@ == short_chars(files.deep_view(), one_per_line),
{
    if one_per_line {
        names_line_by_line(files)
    } else {
        names_on_one_line(files)
    }
}

/// The headings of the seven columns of the long form.
pub open spec fn heading_cells() -> Seq<Seq<char>> {
    seq![
        "permissions"@,
        "links"@,
        "owner"@,
        "group"@,
        "size"@,
        "modified"@,
        "name"@,
    ]
}

/// The seven cells that the long form shows of a record.
pub open spec fn record_cells(info: FileInfo) -> Seq<Seq<char>> {
    seq![
        info.permissions@,
        info.links@,
        info.owner@,
        info.group@,
        info.size@,
        info.modified@,
        info.name@,
    ]
}

/// The cells of the long form: the headings, then one row for each record.
pub open spec fn table_cells(files: Seq<FileInfo>) -> Seq<Seq<Seq<char>>> {
    Seq::new(
        files.len() + 1,
        |i: int|
            if i == 0 {
                heading_cells()
            } else {
                record_cells(files[i - 1])
            },
    )
}

/// The long form as text: the table of the records without borders, and a
/// line break behind it.
pub open spec fn long_chars(files: Seq<FileInfo>) -> Seq<char> {
    blank_table_text(table_cells(files)) + seq!['\n']
}

/// Renders the long form.
pub fn long_text(files: &Vec<FileInfo>) -> (text: String)
    ensures
        text@ == long_chars(files@),
{
    let mut heading: Vec<String> = Vec::new();
    heading.push(String::from_str("permissions"));
    heading.push(String::from_str("links"));
    heading.push(String::from_str("owner"));
    heading.push(String::from_str("group"));
    heading.push(String::from_str("size"));
    heading.push(String::from_str("modified"));
    heading.push(String::from_str("name"));
    assert(heading.deep_view() =~= heading_cells());
    let mut rows: Vec<Vec<String>> = Vec::new();
    rows.push(heading);
    let mut i: usize = 0;
    while i < files.len()
        invariant
            i <= files.len(),
            rows.len() == i + 1,
            rows.deep_view() =~= table_cells(files@).take(i + 1),
        decreases files.len() - i,
    {
        let info: &FileInfo = &files[i];
        let mut row: Vec<String> = Vec::new();
        row.push(info.permissions.clone());
        row.push(info.links.clone());
        row.push(info.owner.clone());
        row.push(info.group.clone());
        row.push(info.size.clone());
        row.push(info.modified.clone());
        row.push(info.name.clone());
        assert(row.deep_view() =~= record_cells(files@[i as int]));
        rows.push(row);
        i += 1;
    }
    assert(table_cells(files@).take(i + 1) =~= table_cells(files@));
    let mut text: String = blank_table(rows);
    proof {
        reveal_strlit("\n");
    }
    text.append("\n");
    text
}

/// The heading that the recursive form puts before a directory: an empty
/// line, then the path and a colon.
pub open spec fn directory_heading_chars(path: Seq<char>) -> Seq<char> {
    seq!['\n'] + path + seq![':', '\n']
}

/// Renders the heading that the recursive form puts before a directory.
pub fn directory_heading(path: &str) -> (text: String)
    ensures
        text@ == directory_heading_chars(path@),
{
    proof {
        reveal_strlit("\n");
        reveal_strlit(":\n");
    }
    let mut text: String = String::from_str("\n");
    text.append(path);
    text.append(":\n");
    text
}

/// What stands before the listing of the path at place `index` out of `count`
/// paths: an empty line before every path but the first, and the path with a
/// colon where there are two paths or more.
pub open spec fn path_banner_chars(index: int, count: int, path: Seq<char>) -> Seq<char> {
    (if index > 0 {
        seq!['\n']
    } else {
        Seq::empty()
    }) + (if count > 1 {
        path + seq![':', '\n']
    } else {
        Seq::empty()
    })
}

/// Renders what stands before the listing of one of several paths.
pub fn path_banner(index: usize, count: usize, path: &str) -> (text: String)
    ensures
        text@ == path_banner_chars(index as int, count as int, path@),
{
    proof {
        reveal_strlit("\n");
        reveal_strlit(":\n");
    }
    let mut text: String = String::new();
    if index > 0 {
        text.append("\n");
    }
    if count > 1 {
        text.append(path);
        text.append(":\n");
    }
    text
}

/// The line that reports a directory that could not be read.
pub open spec fn unreadable_chars(path: Seq<char>, reason: Seq<char>) -> Seq<char> {
    "Unable to read directory "@ + path + seq![':', ' '] + reason + seq!['\n']
}

/// Renders the line that reports a directory that could not be read, with
/// the reason that the system gave.
pub fn unreadable_report(path: &str, reason: &str) -> (text: String)
    ensures
        text@ == unreadable_chars(path@, reason@),
{
    proof {
        reveal_strlit(": ");
        reveal_strlit("\n");
    }
    let mut text: String = String::from_str("Unable to read directory ");
    text.append(path);
    text.append(": ");
    text.append(reason);
    text.append("\n");
    text
}

} // verus!
