//! Listing a directory as the options ask, and walking down a tree of
//! directories: the library says what to print and which directory to read
//! next, and the caller reads it.

use crate::args::{Args, ListingMode};
use crate::dir_utils::{
    accounts_resolved_by, can_render_times, is_listed, is_long_listing,
    lemma_listing_shows_each_listed_once, list_files, list_files_detailed_with, list_shown,
    listing_sources, short_listing, times_in_calendar, FileInfo,
};
use crate::entry::{ScannedEntry, Timestamp};
use crate::host::{lookup_group_name, lookup_user_name};
use crate::render::{
    directory_heading, directory_heading_chars, long_chars, long_text, short_chars, short_text,
};
use crate::sorter::{active_order, indices_of, select_order, SortOrder};
use vstd::prelude::*;
use vstd::string::*;

verus! {

/// The names of the entries behind the rows of a listing, from the first
/// row to the last: the names under which the recursive form looks for
/// subdirectories. They are the names as the directory holds them, without
/// the indicator that the listing may show behind them.
pub open spec fn entry_names(slots: Seq<Option<ScannedEntry>>, sources: Seq<int>) -> Seq<
    Seq<char>,
> {
    Seq::new(sources.len(), |i: int| slots[sources[i]]->0.name@)
}

/// What listing one directory comes to: the text to print, and the names
/// under which the directory may hold subdirectories to list next.
#[derive(Clone, Debug)]
pub struct Page {
    /// The text to print.
    pub text: String,
    /// The names to look for below the directory, in the order of the
    /// listing; empty unless the listing is recursive.
    pub descend: Vec<String>,
}

/// Lists one directory of a recursive listing: the heading with the path, the
/// short form of the entries, and the name of every shown entry as a place
/// to descend to.
pub fn list_recursive(
    path: &str,
    entries: &Vec<Option<ScannedEntry>>,
    now: Timestamp,
    show_hidden: bool,
    almost_all: bool,
    classify: bool,
    sort_time: bool,
    sort_size: bool,
    reverse: bool,
    unsorted: bool,
    one_per_line: bool,
) -> (page: Page)
    ensures
        ({
            let order = active_order(sort_time, sort_size, reverse, unsorted);
            let names = short_listing(entries@, now, show_hidden, almost_all, classify, order);
            let sources = listing_sources(
                entries@,
                now,
                show_hidden,
                almost_all,
                classify,
                order,
            );
            &&& page.text@ == directory_heading_chars(path@) + short_chars(names, one_per_line)
            &&& page.descend.deep_view() == entry_names(entries@, sources)
        }),
{
    let order: SortOrder = select_order(sort_time, sort_size, reverse, unsorted);
    let (sources, files) = list_shown(entries, now, show_hidden, almost_all, classify, order);
    let mut text: String = directory_heading(path);
    let body: String = short_text(&files, one_per_line);
    text.append(body.as_str());
    let ghost from = indices_of(sources@);
    proof {
        lemma_listing_shows_each_listed_once(
            entries@,
            now,
            show_hidden,
            almost_all,
            classify,
            order,
        );
    }
    let mut descend: Vec<String> = Vec::new();
    let mut i: usize = 0;
    while i < sources.len()
        invariant
            i <= sources.len(),
            descend.len() == i,
            from == indices_of(sources@),
            forall|t: int|
                0 <= t < from.len() ==> 0 <= #[trigger] from[t] < entries.len() && is_listed(
                    entries@[from[t]],
                    show_hidden,
                    almost_all,
                ),
            forall|t: int|
                0 <= t < i ==> (#[trigger] descend[t])@ == entries@[from[t]]->0.name@,
        decreases sources.len() - i,
    {
        let k: usize = sources[i];
        assert(k as int == from[i as int]);
        match &entries[k] {
            Some(entry) => {
                descend.push(entry.name.clone());
            },
            None => {
                assert(false);
            },
        }
        i += 1;
    }
    Page { text, descend }
}

/// The directory can be listed under `args`: in long form the modification
/// time of every shown entry lies within the calendar; the other forms show
/// no time and list every directory.
pub open spec fn can_list(slots: Seq<Option<ScannedEntry>>, now: Timestamp, args: Args) -> bool {
    args.listing_mode() == ListingMode::Long ==> times_in_calendar(
        slots,
        now,
        args.shows_hidden(),
        args.almost_all,
    )
}

/// Tests whether the directory can be listed under `args`.
pub fn is_listable(entries: &Vec<Option<ScannedEntry>>, now: Timestamp, args: &Args) -> (r: bool)
    ensures
        r == can_list(entries@, now, *args),
{
    match args.mode() {
        ListingMode::Long => can_render_times(
            entries,
            now,
            args.show_hidden(),
            args.almost_all,
        ),
        _ => true,
    }
}

/// `page` is what listing a directory under `args` comes to, whatever the
/// names of owners and groups.
pub open spec fn is_page(
    page: Page,
    path: Seq<char>,
    slots: Seq<Option<ScannedEntry>>,
    now: Timestamp,
    args: Args,
) -> bool {
    let order = active_order(args.sort_time, args.sort_size, args.reverse, args.unsorted);
    let names = short_listing(
        slots,
        now,
        args.shows_hidden(),
        args.almost_all,
        args.classify,
        order,
    );
    match args.listing_mode() {
        ListingMode::Long => {
            &&& page.descend@.len() == 0
            &&& exists|files: Seq<FileInfo>|
                {
                    &&& #[trigger] is_long_listing(
                        files,
                        slots,
                        now,
                        args.shows_hidden(),
                        args.almost_all,
                        args.human_readable,
                        order,
                    )
                    &&& page.text@ == long_chars(files)
                }
        },
        ListingMode::Recursive => {
            &&& page.text@ == directory_heading_chars(path) + short_chars(
                names,
                args.one_per_line,
            )
            &&& page.descend.deep_view() == entry_names(
                slots,
                listing_sources(
                    slots,
                    now,
                    args.shows_hidden(),
                    args.almost_all,
                    args.classify,
                    order,
                ),
            )
        },
        ListingMode::Short => {
            &&& page.text@ == short_chars(names, args.one_per_line)
            &&& page.descend@.len() == 0
        },
    }
}

/// `page` is what listing a directory under `args` comes to, with the names
/// of owners and groups as `owner_of` and `group_of` answer.
pub open spec fn is_page_with<U, G>(
    page: Page,
    path: Seq<char>,
    slots: Seq<Option<ScannedEntry>>,
    now: Timestamp,
    args: Args,
    owner_of: &U,
    group_of: &G,
) -> bool where U: Fn(u32) -> Option<String>, G: Fn(u32) -> Option<String> {
    let order = active_order(args.sort_time, args.sort_size, args.reverse, args.unsorted);
    let names = short_listing(
        slots,
        now,
        args.shows_hidden(),
        args.almost_all,
        args.classify,
        order,
    );
    match args.listing_mode() {
        ListingMode::Long => {
            &&& page.descend@.len() == 0
            &&& exists|files: Seq<FileInfo>|
                {
                    &&& #[trigger] is_long_listing(
                        files,
                        slots,
                        now,
                        args.shows_hidden(),
                        args.almost_all,
                        args.human_readable,
                        order,
                    )
                    &&& accounts_resolved_by(
                        files,
                        slots,
                        listing_sources(
                            slots,
                            now,
                            args.shows_hidden(),
                            args.almost_all,
                            false,
                            order,
                        ),
                        owner_of,
                        group_of,
                    )
                    &&& page.text@ == long_chars(files)
                }
        },
        ListingMode::Recursive => {
            &&& page.text@ == directory_heading_chars(path) + short_chars(
                names,
                args.one_per_line,
            )
            &&& page.descend.deep_view() == entry_names(
                slots,
                listing_sources(
                    slots,
                    now,
                    args.shows_hidden(),
                    args.almost_all,
                    args.classify,
                    order,
                ),
            )
        },
        ListingMode::Short => {
            &&& page.text@ == short_chars(names, args.one_per_line)
            &&& page.descend@.len() == 0
        },
    }
}

/// Lists one directory as `args` ask, asking `owner_of` and `group_of` for
/// the names of owners and groups: as a table in long form, else with a
/// heading and places to descend to in recursive form, else as names.
pub fn list_directory_with<U, G>(
    path: &str,
    entries: &Vec<Option<ScannedEntry>>,
    now: Timestamp,
    args: &Args,
    owner_of: &U,
    group_of: &G,
) -> (page: Page) where U: Fn(u32) -> Option<String>, G: Fn(u32) -> Option<String>
    requires
        forall|id: u32| call_requires(owner_of, (id,)),
        forall|id: u32| call_requires(group_of, (id,)),
        can_list(entries@, now, *args),
    ensures
        is_page_with(page, path@, entries@, now, *args, owner_of, group_of),
{
    let show_hidden: bool = args.show_hidden();
    match args.mode() {
        ListingMode::Long => {
            let files: Vec<FileInfo> = list_files_detailed_with(
                entries,
                now,
                show_hidden,
                args.almost_all,
                args.human_readable,
                args.sort_time,
                args.sort_size,
                args.reverse,
                args.unsorted,
                owner_of,
                group_of,
            );
            Page { text: long_text(&files), descend: Vec::new() }
        },
        ListingMode::Recursive => list_recursive(
            path,
            entries,
            now,
            show_hidden,
            args.almost_all,
            args.classify,
            args.sort_time,
            args.sort_size,
            args.reverse,
            args.unsorted,
            args.one_per_line,
        ),
        ListingMode::Short => {
            let files: Vec<String> = list_files(
                entries,
                now,
                show_hidden,
                args.almost_all,
                args.classify,
                args.sort_time,
                args.sort_size,
                args.reverse,
                args.unsorted,
            );
            Page { text: short_text(&files, args.one_per_line), descend: Vec::new() }
        },
    }
}

/// Lists one directory as `args` ask, with the names of owners and groups
/// from the machine's account database.
pub fn list_directory(
    path: &str,
    entries: &Vec<Option<ScannedEntry>>,
    now: Timestamp,
    args: &Args,
) -> (page: Page)
    requires
        can_list(entries@, now, *args),
    ensures
        is_page(page, path@, entries@, now, *args),
{
    let page: Page = list_directory_with(
        path,
        entries,
        now,
        args,
        &lookup_user_name,
        &lookup_group_name,
    );
    proof {
        if args.listing_mode() == ListingMode::Long {
            let order = active_order(args.sort_time, args.sort_size, args.reverse, args.unsorted);
            let files = choose|files: Seq<FileInfo>|
                {
                    &&& #[trigger] is_long_listing(
                        files,
                        entries@,
                        now,
                        args.shows_hidden(),
                        args.almost_all,
                        args.human_readable,
                        order,
                    )
                    &&& accounts_resolved_by(
                        files,
                        entries@,
                        listing_sources(
                            entries@,
                            now,
                            args.shows_hidden(),
                            args.almost_all,
                            false,
                            order,
                        ),
                        &lookup_user_name,
                        &lookup_group_name,
                    )
                    &&& page.text@ == long_chars(files)
                };
            assert(is_long_listing(
                files,
                entries@,
                now,
                args.shows_hidden(),
                args.almost_all,
                args.human_readable,
                order,
            ) && page.text@ == long_chars(files));
        }
    }
    page
}

/// A walk down a tree of directories: the directories found and not yet
/// listed, and whether one of them could not be read.
pub struct Walker {
    stack: Vec<String>,
    failed: bool,
}

impl Walker {
    /// The paths still to list, the next one first.
    pub closed spec fn pending(&self) -> Seq<Seq<char>> {
        self.stack.deep_view().reverse()
    }

    /// Whether the walk met a directory that could not be read.
    pub closed spec fn has_failed(&self) -> bool {
        self.failed
    }

    /// A walk that starts at `root`.
    pub fn new(root: &str) -> (walker: Walker)
        ensures
            walker.pending() == seq![root@],
            !walker.has_failed(),
    {
        let mut stack: Vec<String> = Vec::new();
        stack.push(String::from_str(root));
        Walker { stack, failed: false }
    }

    /// Hands out the directory to list next, or `None` when the walk is over.
    pub fn next_directory(&mut self) -> (path: Option<String>)
        ensures
            old(self).pending().len() == 0 ==> path is None && final(self).pending() == old(
                self,
            ).pending(),
            old(self).pending().len() > 0 ==> path is Some && path->0@ == old(self).pending()[0]
                && final(self).pending() == old(self).pending().drop_first(),
            final(self).has_failed() == old(self).has_failed(),
    {
        let ghost before = self.stack.deep_view();
        let path: Option<String> = self.stack.pop();
        proof {
            if before.len() > 0 {
                assert(self.stack.deep_view() =~= before.drop_last());
            } else {
                assert(self.stack.deep_view() =~= before);
            }
        }
        path
    }

    /// Takes in the subdirectories found in the directory handed out last, in
    /// the order of its listing. They are listed next, the first of them
    /// first, before anything that was found earlier.
    pub fn found(&mut self, subdirectories: Vec<String>)
        ensures
            final(self).pending() == subdirectories.deep_view() + old(self).pending(),
            final(self).has_failed() == old(self).has_failed(),
    {
        let ghost before = self.stack.deep_view();
        let ghost all = subdirectories.deep_view();
        let mut rest: Vec<String> = subdirectories;
        while rest.len() > 0
            invariant
                all.take(rest.len() as int) == rest.deep_view(),
                rest.len() <= all.len(),
                self.stack.deep_view() == before + all.skip(rest.len() as int).reverse(),
                self.failed == old(self).failed,
            decreases rest.len(),
        {
            let ghost held = rest.deep_view();
            let ghost stacked = self.stack.deep_view();
            assert(held.last() == rest@.last()@);
            let next: Option<String> = rest.pop();
            match next {
                Some(path) => {
                    self.stack.push(path);
                    assert(self.stack.deep_view() =~= stacked.push(all[rest.len() as int]));
                    assert(all.skip(rest.len() as int).reverse() =~= all.skip(
                        rest.len() as int + 1,
                    ).reverse().push(all[rest.len() as int]));
                },
                None => {},
            }
        }
    }

    /// Takes in that the directory handed out last could not be read. That
    /// ends the walk: what was still to list is dropped, and the walk counts
    /// as failed.
    pub fn unreadable(&mut self)
        ensures
            final(self).pending() == Seq::<Seq<char>>::empty(),
            final(self).has_failed(),
    {
        self.stack = Vec::new();
        self.failed = true;
    }

    /// Whether the walk met a directory that could not be read.
    pub fn failed(&self) -> (r: bool)
        ensures
            r == self.has_failed(),
    {
        self.failed
    }
}

} // verus!
