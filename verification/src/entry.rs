//! What a scan of a directory hands to the library: names and metadata as
//! plain values.

use crate::host::{
    clock_text, clock_text_at, is_clock_text, local_offset, CALENDAR_FIRST_SECOND,
    CALENDAR_LAST_SECOND,
};
use vstd::prelude::*;
use vstd::string::*;

verus! {

/// An instant, as the number of nanoseconds from the Unix epoch to it; that
/// number is its view, negative for an instant before the epoch.
#[derive(Clone, Copy, Debug)]
pub struct Timestamp {
    nanos: i128,
}

impl View for Timestamp {
    type V = int;

    closed spec fn view(&self) -> int {
        self.nanos as int
    }
}

impl Timestamp {
    /// The instant lies within the calendar, so that it has a month, a day
    /// and a time of day.
    pub open spec fn in_calendar(self) -> bool {
        CALENDAR_FIRST_SECOND <= self@ / 1_000_000_000 <= CALENDAR_LAST_SECOND
    }

    /// `text` shows the instant at some offset of less than a day from
    /// universal time: month, day of the month, hour and minute.
    pub open spec fn shown_as(self, text: Seq<char>) -> bool {
        &&& is_clock_text(text)
        &&& exists|offset: int|
            -86_400 < offset < 86_400 && text == #[trigger] clock_text(self@, offset)
    }

    /// The instant `secs` seconds and `nanos` nanoseconds after the epoch.
    pub fn new(secs: i64, nanos: u32) -> (t: Timestamp)
        ensures
            t@ == secs * 1_000_000_000 + nanos,
    {
        Timestamp { nanos: (secs as i128) * 1_000_000_000 + (nanos as i128) }
    }

    /// The instant that lies `secs` seconds and `nanos` nanoseconds from the
    /// epoch: after it where `after_epoch` is set, before it where not.
    pub fn from_unix(after_epoch: bool, secs: u64, nanos: u32) -> (t: Timestamp)
        ensures
            t@ == if after_epoch {
                secs * 1_000_000_000 + nanos
            } else {
                -(secs * 1_000_000_000 + nanos)
            },
    {
        let distance: i128 = (secs as i128) * 1_000_000_000 + (nanos as i128);
        if after_epoch {
            Timestamp { nanos: distance }
        } else {
            Timestamp { nanos: -distance }
        }
    }

    /// Whole seconds from the epoch, rounded down.
    pub fn seconds(&self) -> (s: i128)
        ensures
            s == self@ / 1_000_000_000,
    {
        if self.nanos >= 0 {
            self.nanos / 1_000_000_000
        } else {
            let back: i128 = -(self.nanos + 1);
            -(back / 1_000_000_000) - 1
        }
    }

    /// The nanoseconds past the whole second.
    pub fn subsec_nanos(&self) -> (n: u32)
        ensures
            n == self@ % 1_000_000_000,
    {
        if self.nanos >= 0 {
            (self.nanos % 1_000_000_000) as u32
        } else {
            let back: i128 = -(self.nanos + 1);
            (999_999_999 - back % 1_000_000_000) as u32
        }
    }

    /// Whether this instant lies before `other`.
    pub fn is_before(&self, other: &Timestamp) -> (r: bool)
        ensures
            r == (self@ < other@),
    {
        self.nanos < other.nanos
    }

    /// Whether the instant lies within the calendar.
    pub fn is_in_calendar(&self) -> (r: bool)
        ensures
            r == self.in_calendar(),
    {
        let secs: i128 = self.seconds();
        CALENDAR_FIRST_SECOND as i128 <= secs && secs <= CALENDAR_LAST_SECOND as i128
    }

    /// The instant in the machine's local time: month, day, hour and minute.
    pub fn local_text(&self) -> (text: String)
        requires
            self.in_calendar(),
        ensures
            self.shown_as(text@),
    {
        let secs: i64 = self.seconds() as i64;
        let nanos: u32 = self.subsec_nanos();
        match local_offset(secs, nanos) {
            Some(offset) => match clock_text_at(secs, nanos, offset) {
                Some(text) => text,
                None => vstd::pervasive::unreached(),
            },
            None => vstd::pervasive::unreached(),
        }
    }
}

/// The kind of a file system object, as far as a listing tells kinds apart.
#[derive(Clone, Copy, Debug, PartialEq, Eq, Structural)]
pub enum EntryKind {
    Directory,
    RegularFile,
    /// A symbolic link, a device, a socket and the like.
    Other,
}

/// What the file system says of one entry.
#[derive(Clone, Copy, Debug)]
pub struct EntryMetadata {
    /// What the entry itself is; a symbolic link is not followed.
    pub kind: EntryKind,
    /// The mode bits; the low nine are the permissions.
    pub mode: u32,
    /// The number of hard links.
    pub links: u64,
    /// The numeric id of the owning user.
    pub uid: u32,
    /// The numeric id of the owning group.
    pub gid: u32,
    /// The size in bytes.
    pub size: u64,
    /// When the entry was last modified, where the platform can tell.
    pub modified: Option<Timestamp>,
}

impl EntryMetadata {
    /// The modification time that a listing works with: the recorded one, or
    /// `now` where none is recorded.
    pub open spec fn modified_or(self, now: Timestamp) -> Timestamp {
        match self.modified {
            Some(t) => t,
            None => now,
        }
    }

    /// The modification time that a listing works with.
    pub fn modified_time(&self, now: Timestamp) -> (t: Timestamp)
        ensures
            t == self.modified_or(now),
    {
        match self.modified {
            Some(t) => t,
            None => now,
        }
    }

    /// Whether the entry is a directory.
    pub open spec fn is_dir(self) -> bool {
        self.kind == EntryKind::Directory
    }

    /// Whether the entry is a regular file with any of the three execute bits
    /// set.
    pub open spec fn is_executable(self) -> bool {
        self.kind == EntryKind::RegularFile && self.mode & 0o111 != 0
    }

    /// Whether the entry is a directory.
    pub fn directory(&self) -> (r: bool)
        ensures
            r == self.is_dir(),
    {
        match self.kind {
            EntryKind::Directory => true,
            _ => false,
        }
    }

    /// Whether the entry is a regular file that someone may execute.
    pub fn executable(&self) -> (r: bool)
        ensures
            r == self.is_executable(),
    {
        match self.kind {
            EntryKind::RegularFile => self.mode & 0o111 != 0,
            _ => false,
        }
    }
}

/// One entry that a scan of a directory read: its name, and its metadata where
/// that could be read.
#[derive(Clone, Debug)]
pub struct ScannedEntry {
    /// The base name of the entry.
    pub name: String,
    /// The entry's metadata, or `None` where reading it failed.
    pub metadata: Option<EntryMetadata>,
}

} // verus!
