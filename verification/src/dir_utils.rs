//! The columns of a listed entry and the listings themselves.

use crate::entry::{EntryMetadata, ScannedEntry, Timestamp};
use crate::host::{binary_size_text, human_size, lookup_group_name, lookup_user_name};
use crate::sorter::{
    active_order, arrange, arrangement, indices_of, is_arrangement, keys_of,
    lemma_arrangement_distinct, lemma_arrangement_exists, lemma_arrangement_is,
    lemma_picked_values_are_the_same, lemma_ranks_before_total_order, precedes, select_order,
    tied, RowKey, SortKey, SortOrder, SortRow,
};
use crate::text::{decimal_digits, decimal_string, text_lt};
use vstd::prelude::*;
use vstd::string::*;

verus! {

/// The three permission characters of one bit triplet: `r`, `w` and `x` where
/// the bits of weight four, two and one are set, and `-` where they are not.
pub open spec fn rwx_chars(bits: u32) -> Seq<char> {
    seq![
        if bits & 0b100 != 0 { 'r' } else { '-' },
        if bits & 0b010 != 0 { 'w' } else { '-' },
        if bits & 0b001 != 0 { 'x' } else { '-' },
    ]
}

/// The nine permission characters of a mode: the triplets of user, group and
/// others, read from the low nine bits.
pub open spec fn mode_chars(mode: u32) -> Seq<char> {
    rwx_chars((mode >> 6) & 0o7) + rwx_chars((mode >> 3) & 0o7) + rwx_chars(mode & 0o7)
}

/// The letter that stands at place `i` of a permission text when its bit is set.
pub open spec fn permission_letter(i: int) -> char {
    if i % 3 == 0 {
        'r'
    } else if i % 3 == 1 {
        'w'
    } else {
        'x'
    }
}

/// The bit of a mode that decides place `i` of its nine permission characters.
pub open spec fn permission_bit(i: int) -> u32 {
    if i == 0 {
        0o400
    } else if i == 1 {
        0o200
    } else if i == 2 {
        0o100
    } else if i == 3 {
        0o040
    } else if i == 4 {
        0o020
    } else if i == 5 {
        0o010
    } else if i == 6 {
        0o004
    } else if i == 7 {
        0o002
    } else {
        0o001
    }
}

/// Each of the nine permission characters depends on one bit of the mode
/// alone: place `i` shows its letter where that bit is set and `-` where it is
/// not, and bits above the low nine change nothing.
pub proof fn lemma_mode_chars_by_bit(mode: u32)
    ensures
        mode_chars(mode).len() == 9,
        forall|i: int|
            0 <= i < 9 ==> #[trigger] mode_chars(mode)[i] == if mode & permission_bit(i) != 0 {
                permission_letter(i)
            } else {
                '-'
            },
        mode_chars(mode) == mode_chars(mode & 0o777),
{
    let u = (mode >> 6) & 0o7;
    let g = (mode >> 3) & 0o7;
    let o = mode & 0o7;
    assert((u & 0b100 != 0) == (mode & 0o400 != 0)) by (bit_vector)
        requires
            u == (mode >> 6) & 0o7,
    ;
    assert((u & 0b010 != 0) == (mode & 0o200 != 0)) by (bit_vector)
        requires
            u == (mode >> 6) & 0o7,
    ;
    assert((u & 0b001 != 0) == (mode & 0o100 != 0)) by (bit_vector)
        requires
            u == (mode >> 6) & 0o7,
    ;
    assert((g & 0b100 != 0) == (mode & 0o040 != 0)) by (bit_vector)
        requires
            g == (mode >> 3) & 0o7,
    ;
    assert((g & 0b010 != 0) == (mode & 0o020 != 0)) by (bit_vector)
        requires
            g == (mode >> 3) & 0o7,
    ;
    assert((g & 0b001 != 0) == (mode & 0o010 != 0)) by (bit_vector)
        requires
            g == (mode >> 3) & 0o7,
    ;
    assert((o & 0b100 != 0) == (mode & 0o004 != 0)) by (bit_vector)
        requires
            o == mode & 0o7,
    ;
    assert((o & 0b010 != 0) == (mode & 0o002 != 0)) by (bit_vector)
        requires
            o == mode & 0o7,
    ;
    assert((o & 0b001 != 0) == (mode & 0o001 != 0)) by (bit_vector)
        requires
            o == mode & 0o7,
    ;
    let low = mode & 0o777;
    assert((low >> 6) & 0o7 == (mode >> 6) & 0o7 && (low >> 3) & 0o7 == (mode >> 3) & 0o7 && low
        & 0o7 == mode & 0o7) by (bit_vector)
        requires
            low == mode & 0o777,
    ;
}

/// Formats a bit triplet as its three permission characters.
pub fn format_rwx(bits: u32) -> (s: String)
    ensures
        s@ == rwx_chars(bits),
{
    proof {
        reveal_strlit("r");
        reveal_strlit("w");
        reveal_strlit("x");
        reveal_strlit("-");
    }
    let mut s: String = String::new();
    s.append(if bits & 0b100 != 0 { "r" } else { "-" });
    s.append(if bits & 0b010 != 0 { "w" } else { "-" });
    s.append(if bits & 0b001 != 0 { "x" } else { "-" });
    s
}

/// Formats the low nine bits of a mode as the permission characters of user,
/// group and others.
pub fn format_mode(mode: u32) -> (s: String)
    ensures
        s@ == mode_chars(mode),
{
    let user: u32 = (mode >> 6) & 0o7;
    let group: u32 = (mode >> 3) & 0o7;
    let other: u32 = mode & 0o7;
    let mut s: String = format_rwx(user);
    let g: String = format_rwx(group);
    s.append(g.as_str());
    let o: String = format_rwx(other);
    s.append(o.as_str());
    s
}

/// The ten characters of the permissions column: `d` for a directory and `-`
/// for anything else, then the nine permission characters of the mode.
pub open spec fn permission_chars(is_dir: bool, mode: u32) -> Seq<char> {
    seq![if is_dir { 'd' } else { '-' }] + mode_chars(mode)
}

/// Renders the permissions column.
pub fn permission_string(is_dir: bool, mode: u32) -> (s: String)
    ensures
        s@ == permission_chars(is_dir, mode),
{
    proof {
        reveal_strlit("d");
        reveal_strlit("-");
    }
    let mut s: String = String::from_str(if is_dir { "d" } else { "-" });
    let bits: String = format_mode(mode);
    s.append(bits.as_str());
    s
}

/// The name shown for a numeric id: the account name where the lookup found
/// one, the decimal numeral of the id where it found none.
pub open spec fn account_chars(id: u32, found: Option<String>) -> Seq<char> {
    match found {
        Some(name) => name@,
        None => decimal_digits(id as nat),
    }
}

/// Settles the name shown for a numeric id from what the lookup gave.
pub fn account_name(id: u32, found: Option<String>) -> (name: String)
    ensures
        name@ == account_chars(id, found),
{
    match found {
        Some(name) => name,
        None => decimal_string(id as u64),
    }
}

/// The size column when the human-readable text, where one is wanted, is
/// `human`: `-` for a directory, else that text, else the decimal byte count.
pub open spec fn size_chars_with(is_dir: bool, size: u64, human: Option<String>) -> Seq<char> {
    if is_dir {
        seq!['-']
    } else {
        match human {
            Some(text) => text@,
            None => decimal_digits(size as nat),
        }
    }
}

/// The size column: `-` for a directory; for anything else the size in binary
/// units where `human_readable` is set, and the decimal byte count where not.
pub open spec fn size_chars(is_dir: bool, size: u64, human_readable: bool) -> Seq<char> {
    if is_dir {
        seq!['-']
    } else if human_readable {
        binary_size_text(size)
    } else {
        decimal_digits(size as nat)
    }
}

/// Settles the size column from the human-readable text, where one was made.
pub fn size_text(is_dir: bool, size: u64, human: Option<String>) -> (s: String)
    ensures
        s@ == size_chars_with(is_dir, size, human),
{
    if is_dir {
        proof {
            reveal_strlit("-");
        }
        let s: String = String::from_str("-");
        s
    } else {
        match human {
            Some(text) => text,
            None => decimal_string(size),
        }
    }
}

/// Renders the size column.
pub fn size_column(is_dir: bool, size: u64, human_readable: bool) -> (s: String)
    ensures
        s@ == size_chars(is_dir, size, human_readable),
{
    let human: Option<String> = if !is_dir && human_readable {
        Some(human_size(size))
    } else {
        None
    };
    size_text(is_dir, size, human)
}

/// One listed entry as the long form shows it, with the raw values that the
/// listing is ordered by.
#[derive(Clone, Debug)]
pub struct FileInfo {
    pub permissions: String,
    pub links: String,
    pub owner: String,
    pub group: String,
    pub size: String,
    pub modified: String,
    pub name: String,
    pub is_dir: bool,
    pub file_size: u64,
    pub modified_time: Timestamp,
}

impl FileInfo {
    /// The record holds what the long form shows of an entry named `name`
    /// with metadata `meta`, but for the owner and the group, which come from
    /// the account database. The modified column shows the modification time
    /// of the entry, for which `now` stands in where none is recorded, at
    /// the offset of the machine's time zone.
    pub open spec fn describes(
        self,
        name: Seq<char>,
        meta: EntryMetadata,
        now: Timestamp,
        human_readable: bool,
    ) -> bool {
        &&& self.permissions@ == permission_chars(meta.is_dir(), meta.mode)
        &&& self.links@ == decimal_digits(meta.links as nat)
        &&& self.size@ == size_chars(meta.is_dir(), meta.size, human_readable)
        &&& meta.modified_or(now).shown_as(self.modified@)
        &&& self.name@ == name
        &&& self.is_dir == meta.is_dir()
        &&& self.file_size == meta.size
        &&& self.modified_time == meta.modified_or(now)
    }

    /// The owner and group columns hold what `owner_of` and `group_of`
    /// answered for the ids in `meta`, or the decimal ids where they answered
    /// `None`.
    pub open spec fn resolved_by<U, G>(self, meta: EntryMetadata, owner_of: &U, group_of: &G)
        -> bool where U: Fn(u32) -> Option<String>, G: Fn(u32) -> Option<String> {
        &&& exists|found: Option<String>|
            call_ensures(owner_of, (meta.uid,), found) && self.owner@ == account_chars(
                meta.uid,
                found,
            )
        &&& exists|found: Option<String>|
            call_ensures(group_of, (meta.gid,), found) && self.group@ == account_chars(
                meta.gid,
                found,
            )
    }
}

/// Builds the record of one entry, asking `owner_of` and `group_of` for the
/// names of its owner and group. An entry without metadata gives `None`.
pub fn get_file_info_with<U, G>(
    entry: &ScannedEntry,
    now: Timestamp,
    human_readable: bool,
    owner_of: &U,
    group_of: &G,
) -> (info: Option<FileInfo>) where U: Fn(u32) -> Option<String>, G: Fn(u32) -> Option<String>
    requires
        forall|id: u32| call_requires(owner_of, (id,)),
        forall|id: u32| call_requires(group_of, (id,)),
        entry.metadata matches Some(meta) ==> meta.modified_or(now).in_calendar(),
    ensures
        info is Some <==> entry.metadata is Some,
        info matches Some(fi) ==> {
            &&& fi.describes(entry.name@, entry.metadata->0, now, human_readable)
            &&& fi.resolved_by(entry.metadata->0, owner_of, group_of)
        },
{
    match &entry.metadata {
        None => None,
        Some(meta) => {
            let is_dir: bool = meta.directory();
            let modified_time: Timestamp = meta.modified_time(now);
            let owner_found: Option<String> = owner_of(meta.uid);
            let group_found: Option<String> = group_of(meta.gid);
            let ghost owner_seen = owner_found;
            let ghost group_seen = group_found;
            let fi = FileInfo {
                permissions: permission_string(is_dir, meta.mode),
                links: decimal_string(meta.links),
                owner: account_name(meta.uid, owner_found),
                group: account_name(meta.gid, group_found),
                size: size_column(is_dir, meta.size, human_readable),
                modified: modified_time.local_text(),
                name: entry.name.clone(),
                is_dir,
                file_size: meta.size,
                modified_time,
            };
            assert(call_ensures(owner_of, (meta.uid,), owner_seen) && fi.owner@ == account_chars(
                meta.uid,
                owner_seen,
            ));
            assert(call_ensures(group_of, (meta.gid,), group_seen) && fi.group@ == account_chars(
                meta.gid,
                group_seen,
            ));
            Some(fi)
        },
    }
}

/// Builds the record of one entry, with the names of owner and group from the
/// machine's account database. An entry without metadata gives `None`.
pub fn get_file_info(entry: &ScannedEntry, now: Timestamp, human_readable: bool) -> (info: Option<
    FileInfo,
>)
    requires
        entry.metadata matches Some(meta) ==> meta.modified_or(now).in_calendar(),
    ensures
        info is Some <==> entry.metadata is Some,
        info matches Some(fi) ==> fi.describes(
            entry.name@,
            entry.metadata->0,
            now,
            human_readable,
        ),
{
    get_file_info_with(entry, now, human_readable, &lookup_user_name, &lookup_group_name)
}

/// A name is hidden when it starts with a dot.
pub open spec fn is_hidden_name(name: Seq<char>) -> bool {
    name.len() > 0 && name[0] == '.'
}

/// The names `.` and `..`, which stand for a directory itself and its parent.
pub open spec fn is_dot_entry(name: Seq<char>) -> bool {
    name =~= seq!['.'] || name =~= seq!['.', '.']
}

/// Whether a listing keeps an entry of this name: a hidden name only where
/// `show_hidden` is set, and `.` and `..` never where `almost_all` is set.
pub open spec fn keeps_name(name: Seq<char>, show_hidden: bool, almost_all: bool) -> bool {
    &&& show_hidden || !is_hidden_name(name)
    &&& !(almost_all && is_dot_entry(name))
}

/// Decides whether a listing keeps an entry of this name.
pub fn name_is_kept(name: &str, show_hidden: bool, almost_all: bool) -> (kept: bool)
    ensures
        kept == keeps_name(name@, show_hidden, almost_all),
{
    let hidden: bool = !name.is_empty() && name.get_char(0) == '.';
    if hidden && !show_hidden {
        return false;
    }
    if hidden && almost_all {
        let len: usize = name.unicode_len();
        if len == 1 {
            return false;
        }
        if len == 2 && name.get_char(1) == '.' {
            return false;
        }
    }
    true
}

/// Whether a listing shows what the scan found in one slot of the directory:
/// the slot was read, its name is kept, and its metadata could be read.
pub open spec fn is_listed(slot: Option<ScannedEntry>, show_hidden: bool, almost_all: bool)
    -> bool {
    match slot {
        Some(entry) => keeps_name(entry.name@, show_hidden, almost_all) && entry.metadata is Some,
        None => false,
    }
}

/// The indices below `n` of the slots that a listing shows, ascending.
pub open spec fn listed_below(
    slots: Seq<Option<ScannedEntry>>,
    show_hidden: bool,
    almost_all: bool,
    n: int,
) -> Seq<int>
    decreases n,
{
    if n <= 0 {
        Seq::empty()
    } else if is_listed(slots[n - 1], show_hidden, almost_all) {
        listed_below(slots, show_hidden, almost_all, n - 1).push(n - 1)
    } else {
        listed_below(slots, show_hidden, almost_all, n - 1)
    }
}

/// The indices of the slots that a listing shows, in the order of the scan.
pub open spec fn listed(slots: Seq<Option<ScannedEntry>>, show_hidden: bool, almost_all: bool)
    -> Seq<int> {
    listed_below(slots, show_hidden, almost_all, slots.len() as int)
}

/// `listed_below` holds exactly the indices below `n` of the slots that pass
/// the filter, each once and in ascending order.
pub proof fn lemma_listed_below(
    slots: Seq<Option<ScannedEntry>>,
    show_hidden: bool,
    almost_all: bool,
    n: int,
)
    requires
        0 <= n <= slots.len(),
    ensures
        listed_below(slots, show_hidden, almost_all, n).len() <= n,
        forall|i: int|
            0 <= i < listed_below(slots, show_hidden, almost_all, n).len() ==> {
                let k = #[trigger] listed_below(slots, show_hidden, almost_all, n)[i];
                0 <= k < n && is_listed(slots[k], show_hidden, almost_all)
            },
        forall|i: int, j: int|
            0 <= i < j < listed_below(slots, show_hidden, almost_all, n).len()
                ==> listed_below(slots, show_hidden, almost_all, n)[i] < listed_below(
                slots,
                show_hidden,
                almost_all,
                n,
            )[j],
        forall|k: int|
            0 <= k < n && is_listed(#[trigger] slots[k], show_hidden, almost_all) ==> listed_below(
                slots,
                show_hidden,
                almost_all,
                n,
            ).contains(k),
    decreases n,
{
    if n > 0 {
        lemma_listed_below(slots, show_hidden, almost_all, n - 1);
        let before = listed_below(slots, show_hidden, almost_all, n - 1);
        let now = listed_below(slots, show_hidden, almost_all, n);
        assert forall|k: int|
            0 <= k < n && is_listed(#[trigger] slots[k], show_hidden, almost_all) implies now.contains(
            k,
        ) by {
            if k < n - 1 {
                let w = choose|w: int| 0 <= w < before.len() && before[w] == k;
                assert(now[w] == k);
            } else {
                assert(now[now.len() - 1] == k);
            }
        }
    }
}

/// Picks the slots that a listing shows.
pub fn select_listed(entries: &Vec<Option<ScannedEntry>>, show_hidden: bool, almost_all: bool)
    -> (picked: Vec<usize>)
    ensures
        indices_of(picked@) == listed(entries@, show_hidden, almost_all),
{
    let mut picked: Vec<usize> = Vec::new();
    let mut i: usize = 0;
    while i < entries.len()
        invariant
            i <= entries.len(),
            indices_of(picked@) == listed_below(entries@, show_hidden, almost_all, i as int),
        decreases entries.len() - i,
    {
        let keep: bool = match &entries[i] {
            Some(entry) => entry.metadata.is_some() && name_is_kept(
                entry.name.as_str(),
                show_hidden,
                almost_all,
            ),
            None => false,
        };
        if keep {
            picked.push(i);
        }
        i += 1;
    }
    picked
}

/// The type indicator of an entry: `/` for a directory, `*` for a regular
/// file that someone may execute, nothing for anything else.
pub open spec fn indicator(meta: EntryMetadata) -> Seq<char> {
    if meta.is_dir() {
        seq!['/']
    } else if meta.is_executable() {
        seq!['*']
    } else {
        Seq::empty()
    }
}

/// Appends the type indicator of an entry to its name.
pub fn add_file_type_indicator(name: &str, metadata: &EntryMetadata) -> (shown: String)
    ensures
        shown@ == name@ + indicator(*metadata),
{
    proof {
        reveal_strlit("/");
        reveal_strlit("*");
        reveal_strlit("");
    }
    let mark: &str = if metadata.directory() {
        "/"
    } else if metadata.executable() {
        "*"
    } else {
        ""
    };
    let mut shown: String = String::from_str(name);
    shown.append(mark);
    shown
}

/// The name that the short form shows for an entry: the name itself, with the
/// type indicator behind it where `classify` is set.
pub open spec fn display_name(entry: ScannedEntry, classify: bool) -> Seq<char> {
    if classify {
        entry.name@ + indicator(entry.metadata->0)
    } else {
        entry.name@
    }
}

/// What an entry is ordered by: the name as the listing shows it, the size,
/// and the modification time, for which `now` stands in where none is
/// recorded.
pub open spec fn sort_key(entry: ScannedEntry, now: Timestamp, classify: bool) -> RowKey {
    RowKey {
        name: display_name(entry, classify),
        size: entry.metadata->0.size as int,
        instant: entry.metadata->0.modified_or(now)@,
    }
}

/// The keys of the listed entries, in the order of the scan.
pub open spec fn listed_keys(
    slots: Seq<Option<ScannedEntry>>,
    now: Timestamp,
    show_hidden: bool,
    almost_all: bool,
    classify: bool,
) -> Seq<RowKey> {
    let picked = listed(slots, show_hidden, almost_all);
    Seq::new(picked.len(), |i: int| sort_key(slots[picked[i]]->0, now, classify))
}

/// For each row of a listing, from the first to the last, the index of the
/// slot that it shows: the listed slots, arranged under `order`.
pub open spec fn listing_sources(
    slots: Seq<Option<ScannedEntry>>,
    now: Timestamp,
    show_hidden: bool,
    almost_all: bool,
    classify: bool,
    order: SortOrder,
) -> Seq<int> {
    let picked = listed(slots, show_hidden, almost_all);
    let perm = arrangement(listed_keys(slots, now, show_hidden, almost_all, classify), order);
    Seq::new(picked.len(), |i: int| picked[perm[i]])
}

/// The short form of a listing: the display names of the listed entries,
/// arranged under `order`.
pub open spec fn short_listing(
    slots: Seq<Option<ScannedEntry>>,
    now: Timestamp,
    show_hidden: bool,
    almost_all: bool,
    classify: bool,
    order: SortOrder,
) -> Seq<Seq<char>> {
    let sources = listing_sources(slots, now, show_hidden, almost_all, classify, order);
    Seq::new(sources.len(), |i: int| display_name(slots[sources[i]]->0, classify))
}

/// Collects the listed entries and, for each, the row that it is ordered by.
fn listed_rows(
    entries: &Vec<Option<ScannedEntry>>,
    now: Timestamp,
    show_hidden: bool,
    almost_all: bool,
    classify: bool,
) -> (out: (Vec<usize>, Vec<SortRow>))
    ensures
        indices_of(out.0@) == listed(entries@, show_hidden, almost_all),
        keys_of(out.1@) == listed_keys(entries@, now, show_hidden, almost_all, classify),
{
    let picked: Vec<usize> = select_listed(entries, show_hidden, almost_all);
    let ghost idx = listed(entries@, show_hidden, almost_all);
    let ghost keys = listed_keys(entries@, now, show_hidden, almost_all, classify);
    proof {
        lemma_listed_below(entries@, show_hidden, almost_all, entries.len() as int);
    }
    let mut rows: Vec<SortRow> = Vec::new();
    let mut i: usize = 0;
    while i < picked.len()
        invariant
            i <= picked.len(),
            rows.len() == i,
            idx == listed(entries@, show_hidden, almost_all),
            indices_of(picked@) == idx,
            keys == listed_keys(entries@, now, show_hidden, almost_all, classify),
            forall|t: int|
                0 <= t < idx.len() ==> 0 <= #[trigger] idx[t] < entries.len() && is_listed(
                    entries@[idx[t]],
                    show_hidden,
                    almost_all,
                ),
            forall|t: int| 0 <= t < i ==> (#[trigger] rows[t])@ == keys[t],
        decreases picked.len() - i,
    {
        let k: usize = picked[i];
        assert(k as int == idx[i as int]);
        match &entries[k] {
            Some(entry) => {
                match &entry.metadata {
                    Some(meta) => {
                        let name: String = if classify {
                            add_file_type_indicator(entry.name.as_str(), meta)
                        } else {
                            entry.name.clone()
                        };
                        let row = SortRow { name, size: meta.size, modified: meta.modified_time(now) };
                        rows.push(row);
                    },
                    None => {
                        assert(false);
                    },
                }
            },
            None => {
                assert(false);
            },
        }
        i += 1;
    }
    (picked, rows)
}

/// Lists the entries of a directory in short form and says, for each name,
/// which slot of the scan it shows.
pub fn list_shown(
    entries: &Vec<Option<ScannedEntry>>,
    now: Timestamp,
    show_hidden: bool,
    almost_all: bool,
    classify: bool,
    order: SortOrder,
) -> (out: (Vec<usize>, Vec<String>))
    ensures
        indices_of(out.0@) == listing_sources(
            entries@,
            now,
            show_hidden,
            almost_all,
            classify,
            order,
        ),
        out.1.deep_view() == short_listing(
            entries@,
            now,
            show_hidden,
            almost_all,
            classify,
            order,
        ),
{
    let (picked, rows) = listed_rows(entries, now, show_hidden, almost_all, classify);
    let perm: Vec<usize> = arrange(&rows, order);
    let ghost idx = listed(entries@, show_hidden, almost_all);
    let ghost keys = listed_keys(entries@, now, show_hidden, almost_all, classify);
    let ghost from = listing_sources(entries@, now, show_hidden, almost_all, classify, order);
    let ghost goal = short_listing(entries@, now, show_hidden, almost_all, classify, order);
    let mut sources: Vec<usize> = Vec::new();
    let mut files: Vec<String> = Vec::new();
    let mut i: usize = 0;
    while i < perm.len()
        invariant
            i <= perm.len(),
            files.len() == i,
            sources.len() == i,
            perm.len() == rows.len(),
            rows.len() == idx.len(),
            picked.len() == idx.len(),
            idx == listed(entries@, show_hidden, almost_all),
            indices_of(picked@) == idx,
            keys == listed_keys(entries@, now, show_hidden, almost_all, classify),
            keys_of(rows@) == keys,
            indices_of(perm@) == arrangement(keys, order),
            is_arrangement(indices_of(perm@), keys, order),
            from == listing_sources(entries@, now, show_hidden, almost_all, classify, order),
            goal == short_listing(entries@, now, show_hidden, almost_all, classify, order),
            forall|t: int| 0 <= t < i ==> (#[trigger] files[t])@ == goal[t],
            forall|t: int| 0 <= t < i ==> #[trigger] sources[t] as int == from[t],
        decreases perm.len() - i,
    {
        let p: usize = perm[i];
        assert(p as int == indices_of(perm@)[i as int]);
        assert(rows[p as int]@ == keys_of(rows@)[p as int]);
        sources.push(picked[p]);
        files.push(rows[p].name.clone());
        i += 1;
    }
    (sources, files)
}

/// Lists the entries of a directory in short form: the display names of the
/// entries that pass the filter, arranged under the order that the four
/// sorting flags select.
pub fn list_files(
    entries: &Vec<Option<ScannedEntry>>,
    now: Timestamp,
    show_hidden: bool,
    almost_all: bool,
    classify: bool,
    sort_time: bool,
    sort_size: bool,
    reverse: bool,
    unsorted: bool,
) -> (files: Vec<String>)
    ensures
        files.deep_view() == short_listing(
            entries@,
            now,
            show_hidden,
            almost_all,
            classify,
            active_order(sort_time, sort_size, reverse, unsorted),
        ),
{
    let order: SortOrder = select_order(sort_time, sort_size, reverse, unsorted);
    let (_sources, files) = list_shown(entries, now, show_hidden, almost_all, classify, order);
    files
}

/// Every entry that the listing shows has a modification time within the
/// calendar, `now` standing in where none is recorded, so that the long form
/// can render it.
pub open spec fn times_in_calendar(
    slots: Seq<Option<ScannedEntry>>,
    now: Timestamp,
    show_hidden: bool,
    almost_all: bool,
) -> bool {
    forall|k: int|
        0 <= k < slots.len() && is_listed(#[trigger] slots[k], show_hidden, almost_all)
            ==> slots[k]->0.metadata->0.modified_or(now).in_calendar()
}

/// Tests whether the long form can render the modification time of every
/// entry that the listing shows.
pub fn can_render_times(
    entries: &Vec<Option<ScannedEntry>>,
    now: Timestamp,
    show_hidden: bool,
    almost_all: bool,
) -> (r: bool)
    ensures
        r == times_in_calendar(entries@, now, show_hidden, almost_all),
{
    let mut i: usize = 0;
    while i < entries.len()
        invariant
            i <= entries.len(),
            forall|k: int|
                0 <= k < i && is_listed(#[trigger] entries@[k], show_hidden, almost_all)
                    ==> entries@[k]->0.metadata->0.modified_or(now).in_calendar(),
        decreases entries.len() - i,
    {
        match &entries[i] {
            Some(entry) => {
                match &entry.metadata {
                    Some(meta) => {
                        if name_is_kept(entry.name.as_str(), show_hidden, almost_all)
                            && !meta.modified_time(now).is_in_calendar() {
                            return false;
                        }
                    },
                    None => {},
                }
            },
            None => {},
        }
        i += 1;
    }
    true
}

/// `files` is the long form of a listing, but for what `describes` leaves
/// open: one record for each listed entry, arranged under `order`, the name
/// ordered as it stands in the directory.
pub open spec fn is_long_listing(
    files: Seq<FileInfo>,
    slots: Seq<Option<ScannedEntry>>,
    now: Timestamp,
    show_hidden: bool,
    almost_all: bool,
    human_readable: bool,
    order: SortOrder,
) -> bool {
    let sources = listing_sources(slots, now, show_hidden, almost_all, false, order);
    &&& files.len() == sources.len()
    &&& forall|i: int|
        0 <= i < files.len() ==> {
            let entry = slots[sources[i]]->0;
            (#[trigger] files[i]).describes(entry.name@, entry.metadata->0, now, human_readable)
        }
}

/// The owner and group columns of `files` hold what `owner_of` and `group_of`
/// answered for the ids of the entries behind them, or the decimal ids where
/// they answered `None`.
pub open spec fn accounts_resolved_by<U, G>(
    files: Seq<FileInfo>,
    slots: Seq<Option<ScannedEntry>>,
    sources: Seq<int>,
    owner_of: &U,
    group_of: &G,
) -> bool where U: Fn(u32) -> Option<String>, G: Fn(u32) -> Option<String> {
    forall|i: int|
        0 <= i < files.len() ==> (#[trigger] files[i]).resolved_by(
            slots[sources[i]]->0.metadata->0,
            owner_of,
            group_of,
        )
}

/// Lists the entries of a directory in long form, asking `owner_of` and
/// `group_of` for the names of owners and groups.
pub fn list_files_detailed_with<U, G>(
    entries: &Vec<Option<ScannedEntry>>,
    now: Timestamp,
    show_hidden: bool,
    almost_all: bool,
    human_readable: bool,
    sort_time: bool,
    sort_size: bool,
    reverse: bool,
    unsorted: bool,
    owner_of: &U,
    group_of: &G,
) -> (files: Vec<FileInfo>) where U: Fn(u32) -> Option<String>, G: Fn(u32) -> Option<String>
    requires
        forall|id: u32| call_requires(owner_of, (id,)),
        forall|id: u32| call_requires(group_of, (id,)),
        times_in_calendar(entries@, now, show_hidden, almost_all),
    ensures
        is_long_listing(
            files@,
            entries@,
            now,
            show_hidden,
            almost_all,
            human_readable,
            active_order(sort_time, sort_size, reverse, unsorted),
        ),
        accounts_resolved_by(
            files@,
            entries@,
            listing_sources(
                entries@,
                now,
                show_hidden,
                almost_all,
                false,
                active_order(sort_time, sort_size, reverse, unsorted),
            ),
            owner_of,
            group_of,
        ),
{
    let order: SortOrder = select_order(sort_time, sort_size, reverse, unsorted);
    let (picked, rows) = listed_rows(entries, now, show_hidden, almost_all, false);
    let perm: Vec<usize> = arrange(&rows, order);
    let ghost idx = listed(entries@, show_hidden, almost_all);
    let ghost keys = listed_keys(entries@, now, show_hidden, almost_all, false);
    let ghost sources = listing_sources(entries@, now, show_hidden, almost_all, false, order);
    proof {
        lemma_listed_below(entries@, show_hidden, almost_all, entries.len() as int);
    }
    let mut files: Vec<FileInfo> = Vec::new();
    let mut i: usize = 0;
    while i < perm.len()
        invariant
            i <= perm.len(),
            files.len() == i,
            perm.len() == picked.len(),
            picked.len() == idx.len(),
            idx == listed(entries@, show_hidden, almost_all),
            indices_of(picked@) == idx,
            keys == listed_keys(entries@, now, show_hidden, almost_all, false),
            indices_of(perm@) == arrangement(keys, order),
            is_arrangement(indices_of(perm@), keys, order),
            sources == listing_sources(entries@, now, show_hidden, almost_all, false, order),
            forall|t: int|
                0 <= t < idx.len() ==> 0 <= #[trigger] idx[t] < entries.len() && is_listed(
                    entries@[idx[t]],
                    show_hidden,
                    almost_all,
                ),
            forall|id: u32| call_requires(owner_of, (id,)),
            forall|id: u32| call_requires(group_of, (id,)),
            times_in_calendar(entries@, now, show_hidden, almost_all),
            forall|t: int|
                0 <= t < i ==> {
                    let entry = entries@[sources[t]]->0;
                    let meta = entry.metadata->0;
                    &&& (#[trigger] files[t]).describes(entry.name@, meta, now, human_readable)
                    &&& files[t].resolved_by(meta, owner_of, group_of)
                },
        decreases perm.len() - i,
    {
        let p: usize = perm[i];
        assert(p as int == indices_of(perm@)[i as int]);
        let k: usize = picked[p];
        assert(k as int == idx[p as int]);
        match &entries[k] {
            Some(entry) => {
                match get_file_info_with(entry, now, human_readable, owner_of, group_of) {
                    Some(info) => {
                        files.push(info);
                    },
                    None => {
                        assert(false);
                    },
                }
            },
            None => {
                assert(false);
            },
        }
        i += 1;
    }
    files
}

/// Lists the entries of a directory in long form: one record for each entry
/// that passes the filter, arranged under the order that the four sorting
/// flags select, with the names of owners and groups from the machine's
/// account database.
pub fn list_files_detailed(
    entries: &Vec<Option<ScannedEntry>>,
    now: Timestamp,
    show_hidden: bool,
    almost_all: bool,
    human_readable: bool,
    sort_time: bool,
    sort_size: bool,
    reverse: bool,
    unsorted: bool,
) -> (files: Vec<FileInfo>)
    requires
        times_in_calendar(entries@, now, show_hidden, almost_all),
    ensures
        is_long_listing(
            files@,
            entries@,
            now,
            show_hidden,
            almost_all,
            human_readable,
            active_order(sort_time, sort_size, reverse, unsorted),
        ),
{
    list_files_detailed_with(
        entries,
        now,
        show_hidden,
        almost_all,
        human_readable,
        sort_time,
        sort_size,
        reverse,
        unsorted,
        &lookup_user_name,
        &lookup_group_name,
    )
}

/// A hidden name other than `.` and `..` is kept exactly where hidden entries
/// are shown.
pub proof fn lemma_hidden_kept_iff_shown(name: Seq<char>, show_hidden: bool, almost_all: bool)
    requires
        is_hidden_name(name),
        !is_dot_entry(name),
    ensures
        keeps_name(name, show_hidden, almost_all) <==> show_hidden,
{
}

/// A name that is not hidden is always kept.
pub proof fn lemma_plain_name_kept(name: Seq<char>, show_hidden: bool, almost_all: bool)
    requires
        !is_hidden_name(name),
    ensures
        keeps_name(name, show_hidden, almost_all),
{
}

/// With `almost_all` set the names `.` and `..` are never kept, whether or
/// not hidden entries are shown.
pub proof fn lemma_almost_all_drops_dot_entries(name: Seq<char>, show_hidden: bool)
    requires
        is_dot_entry(name),
    ensures
        !keeps_name(name, show_hidden, true),
{
}

/// With the indicator on, the displayed name of a directory ends with `/`,
/// that of a regular file that someone may execute ends with `*`, and that of
/// anything else is the name itself. The name without the last character is
/// in the first two cases the name of the entry.
pub proof fn lemma_display_name_classified(entry: ScannedEntry)
    requires
        entry.metadata is Some,
    ensures
        entry.metadata->0.is_dir() ==> display_name(entry, true).last() == '/' && display_name(
            entry,
            true,
        ).drop_last() == entry.name@,
        entry.metadata->0.is_executable() ==> display_name(entry, true).last() == '*'
            && display_name(entry, true).drop_last() == entry.name@,
        !entry.metadata->0.is_dir() && !entry.metadata->0.is_executable() ==> display_name(
            entry,
            true,
        ) == entry.name@,
        display_name(entry, false) == entry.name@,
{
    let meta = entry.metadata->0;
    if meta.is_dir() || meta.is_executable() {
        assert(display_name(entry, true).drop_last() =~= entry.name@);
    } else {
        assert(display_name(entry, true) =~= entry.name@);
    }
}

/// A listing shows exactly the entries that pass the filter, each of them
/// once: every row stands for a listed slot, no two rows stand for the same
/// slot, and every listed slot has its row. This holds under every order.
pub proof fn lemma_listing_shows_each_listed_once(
    slots: Seq<Option<ScannedEntry>>,
    now: Timestamp,
    show_hidden: bool,
    almost_all: bool,
    classify: bool,
    order: SortOrder,
)
    ensures
        ({
            let sources = listing_sources(slots, now, show_hidden, almost_all, classify, order);
            &&& sources.len() == listed(slots, show_hidden, almost_all).len()
            &&& sources.len() <= slots.len()
            &&& forall|i: int|
                0 <= i < sources.len() ==> 0 <= #[trigger] sources[i] < slots.len() && is_listed(
                    slots[sources[i]],
                    show_hidden,
                    almost_all,
                )
            &&& forall|i: int, j: int|
                0 <= i < j < sources.len() ==> #[trigger] sources[i] != #[trigger] sources[j]
            &&& forall|k: int|
                0 <= k < slots.len() && is_listed(#[trigger] slots[k], show_hidden, almost_all)
                    ==> sources.contains(k)
        }),
{
    let picked = listed(slots, show_hidden, almost_all);
    let keys = listed_keys(slots, now, show_hidden, almost_all, classify);
    let perm = arrangement(keys, order);
    let sources = listing_sources(slots, now, show_hidden, almost_all, classify, order);
    lemma_listed_below(slots, show_hidden, almost_all, slots.len() as int);
    lemma_arrangement_exists(keys, order);
    assert forall|i: int, j: int| 0 <= i < j < sources.len() implies #[trigger] sources[i]
        != #[trigger] sources[j] by {
        lemma_ranks_before_total_order(keys, order, perm[i], perm[j], perm[i]);
        if perm[i] < perm[j] {
            assert(picked[perm[i]] < picked[perm[j]]);
        } else {
            assert(picked[perm[j]] < picked[perm[i]]);
        }
    }
    assert forall|k: int|
        0 <= k < slots.len() && is_listed(
            #[trigger] slots[k],
            show_hidden,
            almost_all,
        ) implies sources.contains(k) by {
        let w = choose|w: int| 0 <= w < picked.len() && picked[w] == k;
        assert(perm.contains(w));
        let i = choose|i: int| 0 <= i < perm.len() && perm[i] == w;
        assert(sources[i] == k);
    }
    assert forall|i: int| 0 <= i < sources.len() implies 0 <= #[trigger] sources[i] < slots.len()
        && is_listed(slots[sources[i]], show_hidden, almost_all) by {
        assert(0 <= perm[i] < keys.len());
    }
}

/// An entry with a hidden name other than `.` and `..`, whose metadata could
/// be read, has a row in the listing exactly where hidden entries are shown.
pub proof fn lemma_hidden_entry_listed_iff_shown(
    slots: Seq<Option<ScannedEntry>>,
    now: Timestamp,
    show_hidden: bool,
    almost_all: bool,
    classify: bool,
    order: SortOrder,
    k: int,
)
    requires
        0 <= k < slots.len(),
        slots[k] is Some,
        slots[k]->0.metadata is Some,
        is_hidden_name(slots[k]->0.name@),
        !is_dot_entry(slots[k]->0.name@),
    ensures
        listing_sources(slots, now, show_hidden, almost_all, classify, order).contains(k)
            <==> show_hidden,
{
    let sources = listing_sources(slots, now, show_hidden, almost_all, classify, order);
    lemma_listing_shows_each_listed_once(slots, now, show_hidden, almost_all, classify, order);
    if sources.contains(k) {
        let i = choose|i: int| 0 <= i < sources.len() && sources[i] == k;
        assert(is_listed(slots[sources[i]], show_hidden, almost_all));
    }
}

/// With `almost_all` set no row of a listing stands for `.` or `..`, whether
/// or not hidden entries are shown.
pub proof fn lemma_almost_all_lists_no_dot_entry(
    slots: Seq<Option<ScannedEntry>>,
    now: Timestamp,
    show_hidden: bool,
    classify: bool,
    order: SortOrder,
    i: int,
)
    requires
        0 <= i < listing_sources(slots, now, show_hidden, true, classify, order).len(),
    ensures
        !is_dot_entry(
            slots[listing_sources(slots, now, show_hidden, true, classify, order)[i]]->0.name@,
        ),
{
    lemma_listing_shows_each_listed_once(slots, now, show_hidden, true, classify, order);
}

/// The rows of a listing stand in the order that `order` asks for: of two
/// rows, the later one never has to stand before the earlier one, and where
/// the key does not tell the two apart, the entry that the scan met first
/// stands first.
pub proof fn lemma_listing_in_order(
    slots: Seq<Option<ScannedEntry>>,
    now: Timestamp,
    show_hidden: bool,
    almost_all: bool,
    classify: bool,
    order: SortOrder,
    i: int,
    j: int,
)
    requires
        0 <= i < j < listing_sources(slots, now, show_hidden, almost_all, classify, order).len(),
    ensures
        ({
            let sources = listing_sources(slots, now, show_hidden, almost_all, classify, order);
            let first = sort_key(slots[sources[i]]->0, now, classify);
            let second = sort_key(slots[sources[j]]->0, now, classify);
            &&& !precedes(second, first, order)
            &&& tied(first, second, order) ==> sources[i] < sources[j]
        }),
{
    let keys = listed_keys(slots, now, show_hidden, almost_all, classify);
    let perm = arrangement(keys, order);
    lemma_listed_below(slots, show_hidden, almost_all, slots.len() as int);
    lemma_arrangement_exists(keys, order);
    lemma_ranks_before_total_order(keys, order, perm[i], perm[j], perm[i]);
    if tied(keys[perm[i]], keys[perm[j]], order) {
        assert(perm[i] < perm[j]);
    }
}

/// Without a key the listing keeps the order of the scan.
pub proof fn lemma_unsorted_keeps_scan_order(
    slots: Seq<Option<ScannedEntry>>,
    now: Timestamp,
    show_hidden: bool,
    almost_all: bool,
    classify: bool,
    reverse: bool,
)
    ensures
        listing_sources(
            slots,
            now,
            show_hidden,
            almost_all,
            classify,
            SortOrder { key: SortKey::Enumeration, reverse },
        ) == listed(slots, show_hidden, almost_all),
{
    let order = SortOrder { key: SortKey::Enumeration, reverse };
    let keys = listed_keys(slots, now, show_hidden, almost_all, classify);
    let same = Seq::new(keys.len(), |i: int| i);
    assert forall|k: int| 0 <= k < keys.len() implies #[trigger] same.contains(k) by {
        assert(same[k] == k);
    }
    lemma_arrangement_is(same, keys, order);
}

/// The order of a listing decides where an entry stands, never whether it is
/// shown: under any two orders the same slots have a row.
pub proof fn lemma_order_keeps_the_entries(
    slots: Seq<Option<ScannedEntry>>,
    now: Timestamp,
    show_hidden: bool,
    almost_all: bool,
    classify: bool,
    one: SortOrder,
    other: SortOrder,
)
    ensures
        listing_sources(slots, now, show_hidden, almost_all, classify, one).len()
            == listing_sources(slots, now, show_hidden, almost_all, classify, other).len(),
        listing_sources(slots, now, show_hidden, almost_all, classify, one).to_set()
            == listing_sources(slots, now, show_hidden, almost_all, classify, other).to_set(),
{
    let a = listing_sources(slots, now, show_hidden, almost_all, classify, one);
    let b = listing_sources(slots, now, show_hidden, almost_all, classify, other);
    lemma_listing_shows_each_listed_once(slots, now, show_hidden, almost_all, classify, one);
    lemma_listing_shows_each_listed_once(slots, now, show_hidden, almost_all, classify, other);
    assert forall|k: int| a.to_set().contains(k) <==> b.to_set().contains(k) by {
        if a.contains(k) {
            let i = choose|i: int| 0 <= i < a.len() && a[i] == k;
            assert(is_listed(slots[a[i]], show_hidden, almost_all));
        }
        if b.contains(k) {
            let i = choose|i: int| 0 <= i < b.len() && b[i] == k;
            assert(is_listed(slots[b[i]], show_hidden, almost_all));
        }
    }
}

/// The display names of the listed entries, in the order of the scan.
pub open spec fn listed_names(
    slots: Seq<Option<ScannedEntry>>,
    show_hidden: bool,
    almost_all: bool,
    classify: bool,
) -> Seq<Seq<char>> {
    let picked = listed(slots, show_hidden, almost_all);
    Seq::new(picked.len(), |i: int| display_name(slots[picked[i]]->0, classify))
}

/// The short form holds the display names of the entries that pass the
/// filter, each as often as the scan met it: no name is made up, none is
/// lost, none is doubled.
pub proof fn lemma_short_listing_rearranges_listed_names(
    slots: Seq<Option<ScannedEntry>>,
    now: Timestamp,
    show_hidden: bool,
    almost_all: bool,
    classify: bool,
    order: SortOrder,
)
    ensures
        short_listing(slots, now, show_hidden, almost_all, classify, order).to_multiset()
            == listed_names(slots, show_hidden, almost_all, classify).to_multiset(),
        short_listing(slots, now, show_hidden, almost_all, classify, order).len() == listed(
            slots,
            show_hidden,
            almost_all,
        ).len(),
{
    let keys = listed_keys(slots, now, show_hidden, almost_all, classify);
    let perm = arrangement(keys, order);
    let scanned = listed_names(slots, show_hidden, almost_all, classify);
    lemma_arrangement_exists(keys, order);
    lemma_arrangement_distinct(perm, keys, order);
    lemma_picked_values_are_the_same(scanned, perm);
    assert(short_listing(slots, now, show_hidden, almost_all, classify, order) =~= Seq::new(
        scanned.len(),
        |i: int| scanned[perm[i]],
    ));
}

/// The order of a listing changes where a name stands and nothing else: the
/// short forms under any two orders hold the same names, each as often. So
/// does the unsorted form and any sorted one.
pub proof fn lemma_order_keeps_the_names(
    slots: Seq<Option<ScannedEntry>>,
    now: Timestamp,
    show_hidden: bool,
    almost_all: bool,
    classify: bool,
    one: SortOrder,
    other: SortOrder,
)
    ensures
        short_listing(slots, now, show_hidden, almost_all, classify, one).to_multiset()
            == short_listing(slots, now, show_hidden, almost_all, classify, other).to_multiset(),
{
    lemma_short_listing_rearranges_listed_names(
        slots,
        now,
        show_hidden,
        almost_all,
        classify,
        one,
    );
    lemma_short_listing_rearranges_listed_names(
        slots,
        now,
        show_hidden,
        almost_all,
        classify,
        other,
    );
}

/// How the rows of a listing follow one another under each key. By name the
/// names ascend, and descend where the order is reversed. By time the newest
/// entry stands first, and the oldest where the order is reversed. By size
/// the largest entry stands first, and the smallest where the order is
/// reversed.
pub proof fn lemma_listing_follows_the_key(
    slots: Seq<Option<ScannedEntry>>,
    now: Timestamp,
    show_hidden: bool,
    almost_all: bool,
    classify: bool,
    order: SortOrder,
    i: int,
    j: int,
)
    requires
        0 <= i < j < listing_sources(slots, now, show_hidden, almost_all, classify, order).len(),
    ensures
        ({
            let sources = listing_sources(slots, now, show_hidden, almost_all, classify, order);
            let names = short_listing(slots, now, show_hidden, almost_all, classify, order);
            let first = slots[sources[i]]->0.metadata->0;
            let second = slots[sources[j]]->0.metadata->0;
            match order.key {
                SortKey::Enumeration => sources[i] < sources[j],
                SortKey::Name => if order.reverse {
                    !text_lt(names[i], names[j])
                } else {
                    !text_lt(names[j], names[i])
                },
                SortKey::Time => if order.reverse {
                    first.modified_or(now)@ <= second.modified_or(now)@
                } else {
                    first.modified_or(now)@ >= second.modified_or(now)@
                },
                SortKey::Size => if order.reverse {
                    first.size <= second.size
                } else {
                    first.size >= second.size
                },
            }
        }),
{
    lemma_listing_in_order(slots, now, show_hidden, almost_all, classify, order, i, j);
}

/// What a record of the long form is ordered by.
pub open spec fn record_key(info: FileInfo) -> RowKey {
    RowKey { name: info.name@, size: info.file_size as int, instant: info.modified_time@ }
}

/// The records of a long listing stand in the order that `order` asks for,
/// as their own fields show: of two records the later one never has to stand
/// before the earlier one.
pub proof fn lemma_long_listing_in_order(
    files: Seq<FileInfo>,
    slots: Seq<Option<ScannedEntry>>,
    now: Timestamp,
    show_hidden: bool,
    almost_all: bool,
    human_readable: bool,
    order: SortOrder,
    i: int,
    j: int,
)
    requires
        is_long_listing(files, slots, now, show_hidden, almost_all, human_readable, order),
        0 <= i < j < files.len(),
    ensures
        !precedes(record_key(files[j]), record_key(files[i]), order),
{
    lemma_listing_in_order(slots, now, show_hidden, almost_all, false, order, i, j);
}

} // verus!
