//! The options of a listing.

use vstd::prelude::*;
use vstd::string::*;

verus! {

/// What the command line asks for.
#[derive(Clone, Debug)]
pub struct Args {
    /// The paths to list; the current directory where none is given.
    pub paths: Vec<String>,
    /// Show hidden files.
    pub all: bool,
    /// Show hidden files, but not `.` and `..`.
    pub almost_all: bool,
    /// Long listing format.
    pub long: bool,
    /// Recursive listing.
    pub recursive: bool,
    /// Human-readable sizes.
    pub human_readable: bool,
    /// Append a type indicator to names.
    pub classify: bool,
    /// List one file per line.
    pub one_per_line: bool,
    /// Sort by modification time, newest first.
    pub sort_time: bool,
    /// Sort by file size, largest first.
    pub sort_size: bool,
    /// Reverse the order while sorting.
    pub reverse: bool,
    /// Do not sort; list entries in directory order.
    pub unsorted: bool,
}

/// The form in which a directory is listed.
#[derive(Clone, Copy, Debug, PartialEq, Eq, Structural)]
pub enum ListingMode {
    /// A table of records.
    Long,
    /// Names, directory by directory down the tree.
    Recursive,
    /// Names.
    Short,
}

impl Args {
    /// Hidden entries are shown where either `all` or `almost_all` is set.
    pub open spec fn shows_hidden(self) -> bool {
        self.all || self.almost_all
    }

    /// The long form goes before the recursive form, and the short form is
    /// what is left.
    pub open spec fn listing_mode(self) -> ListingMode {
        if self.long {
            ListingMode::Long
        } else if self.recursive {
            ListingMode::Recursive
        } else {
            ListingMode::Short
        }
    }

    /// Whether hidden entries are shown.
    pub fn show_hidden(&self) -> (r: bool)
        ensures
            r == self.shows_hidden(),
    {
        self.all || self.almost_all
    }

    /// The form in which these options list a directory.
    pub fn mode(&self) -> (m: ListingMode)
        ensures
            m == self.listing_mode(),
    {
        if self.long {
            ListingMode::Long
        } else if self.recursive {
            ListingMode::Recursive
        } else {
            ListingMode::Short
        }
    }
}

impl Default for Args {
    /// The options of a plain call: the current directory, every flag off.
    fn default() -> (args: Args)
        ensures
            args.paths.deep_view() == seq!["."@],
            !args.all,
            !args.almost_all,
            !args.long,
            !args.recursive,
            !args.human_readable,
            !args.classify,
            !args.one_per_line,
            !args.sort_time,
            !args.sort_size,
            !args.reverse,
            !args.unsorted,
    {
        let mut paths: Vec<String> = Vec::new();
        paths.push(String::from_str("."));
        Args {
            paths,
            all: false,
            almost_all: false,
            long: false,
            recursive: false,
            human_readable: false,
            classify: false,
            one_per_line: false,
            sort_time: false,
            sort_size: false,
            reverse: false,
            unsorted: false,
        }
    }
}

} // verus!
