//! The calls that leave this crate: the clock's calendar, the account
//! database, size formatting and table layout. Each function here states a
//! contract that the verifier takes on trust; nothing below is proved.

use vstd::prelude::*;

verus! {

/// The first second that chrono's calendar holds, counted from the Unix
/// epoch: the start of the year -262143.
pub const CALENDAR_FIRST_SECOND: i64 = -8_334_601_228_800;

/// The last second that chrono's calendar holds, counted from the Unix epoch:
/// the end of the year 262142.
pub const CALENDAR_LAST_SECOND: i64 = 8_210_266_876_799;

/// Nanoseconds in one second.
pub const NANOS_PER_SECOND: u32 = 1_000_000_000;

/// A letter from `a` to `z` or from `A` to `Z`.
pub open spec fn is_ascii_letter(c: char) -> bool {
    ('a' <= c && c <= 'z') || ('A' <= c && c <= 'Z')
}

/// A digit from `0` to `9`.
pub open spec fn is_ascii_digit(c: char) -> bool {
    '0' <= c && c <= '9'
}

/// The shape of a rendered modification time: a month of three letters, the
/// day of the month padded with a space to two places, and hour and minute of
/// two digits each, as in `Mar  7 09:05`.
pub open spec fn is_clock_text(s: Seq<char>) -> bool {
    &&& s.len() == 12
    &&& is_ascii_letter(s[0])
    &&& is_ascii_letter(s[1])
    &&& is_ascii_letter(s[2])
    &&& s[3] == ' '
    &&& (s[4] == ' ' || is_ascii_digit(s[4]))
    &&& is_ascii_digit(s[5])
    &&& s[6] == ' '
    &&& is_ascii_digit(s[7])
    &&& is_ascii_digit(s[8])
    &&& s[9] == ':'
    &&& is_ascii_digit(s[10])
    &&& is_ascii_digit(s[11])
}

/// Calls `chrono::DateTime::from_timestamp`, moves the instant into the
/// machine's time zone with `with_timezone(&chrono::Local)` and reads the
/// offset of local time from universal time there, in seconds.
///
/// Assumed: chrono holds every instant from the first to the last second of
/// its calendar with less than a second of nanoseconds, and an offset is
/// always less than a day. Which offset comes back depends on the machine's
/// time zone, so nothing more is said of it. The call returns as long as the
/// time zone data of the machine puts local time less than a day from
/// universal time, as the data of every zone in use does.
#[verifier::external_body]
pub(crate) fn local_offset(secs: i64, nanos: u32) -> (offset: Option<i32>)
    ensures
        CALENDAR_FIRST_SECOND <= secs <= CALENDAR_LAST_SECOND && nanos < NANOS_PER_SECOND
            ==> offset is Some,
        offset matches Some(o) ==> -86_400 < o < 86_400,
{
    match chrono::DateTime::from_timestamp(secs, nanos) {
        Some(utc) => Some(utc.with_timezone(&chrono::Local).offset().local_minus_utc()),
        None => None,
    }
}

/// What chrono renders with the pattern `%b %e %H:%M` for the instant that
/// lies `instant` nanoseconds after the Unix epoch, at `offset` seconds east
/// of universal time.
pub uninterp spec fn clock_text(instant: int, offset: int) -> Seq<char>;

/// Calls `chrono::DateTime::from_timestamp` and `chrono::FixedOffset::east_opt`,
/// moves the instant to that offset with `with_timezone` and renders it with
/// `format("%b %e %H:%M")`.
///
/// Assumed: chrono holds every instant of its calendar with less than a second
/// of nanoseconds and every offset of less than a day; for such nanoseconds
/// the text depends on the instant and the offset alone; and the pattern
/// always renders in the shape of `is_clock_text`.
#[verifier::external_body]
pub(crate) fn clock_text_at(secs: i64, nanos: u32, offset: i32) -> (text: Option<String>)
    ensures
        CALENDAR_FIRST_SECOND <= secs <= CALENDAR_LAST_SECOND && nanos < NANOS_PER_SECOND
            && -86_400 < offset < 86_400 ==> text is Some,
        text matches Some(t) ==> nanos < NANOS_PER_SECOND ==> t@ == clock_text(
            secs * 1_000_000_000 + nanos,
            offset as int,
        ),
        text matches Some(t) ==> is_clock_text(t@),
{
    match (chrono::DateTime::from_timestamp(secs, nanos), chrono::FixedOffset::east_opt(offset)) {
        (Some(utc), Some(zone)) => {
            Some(utc.with_timezone(&zone).format("%b %e %H:%M").to_string())
        },
        _ => None,
    }
}

/// Calls `users::get_user_by_uid` and hands back the name of the user found.
///
/// What comes back depends on the machine's account database, so nothing is
/// assumed of it.
#[verifier::external_body]
pub(crate) fn lookup_user_name(uid: u32) -> (name: Option<String>) {
    match users::get_user_by_uid(uid) {
        Some(user) => Some(user.name().to_string_lossy().into_owned()),
        None => None,
    }
}

/// Calls `users::get_group_by_gid` and hands back the name of the group found.
///
/// What comes back depends on the machine's account database, so nothing is
/// assumed of it.
#[verifier::external_body]
pub(crate) fn lookup_group_name(gid: u32) -> (name: Option<String>) {
    match users::get_group_by_gid(gid) {
        Some(group) => Some(group.name().to_string_lossy().into_owned()),
        None => None,
    }
}

/// What `humansize::format_size` renders for a number of bytes with the
/// options `humansize::BINARY`: the amount in the largest binary unit that
/// leaves it at one or more, and that unit.
pub uninterp spec fn binary_size_text(bytes: u64) -> Seq<char>;

/// Calls `humansize::format_size` with the options `humansize::BINARY`.
///
/// Assumed: the text depends on the number of bytes alone.
#[verifier::external_body]
pub(crate) fn human_size(bytes: u64) -> (text: String)
    ensures
        text@ == binary_size_text(bytes),
{
    humansize::format_size(bytes, humansize::BINARY)
}

/// What tabled lays out for rows of cells under `Style::blank()`: one line for
/// each row, the columns padded to a common width and parted by spaces, no
/// border drawn.
pub uninterp spec fn blank_table_text(rows: Seq<Seq<Seq<char>>>) -> Seq<char>;

/// Builds a `tabled::Table` from the rows with `tabled::builder::Builder`,
/// applies `tabled::settings::Style::blank()` and renders it.
///
/// Assumed: the text depends on the cells alone.
#[verifier::external_body]
pub(crate) fn blank_table(rows: Vec<Vec<String>>) -> (text: String)
    ensures
        text@ == blank_table_text(rows.deep_view()),
{
    tabled::builder::Builder::from(rows).build().with(tabled::settings::Style::blank()).to_string()
}

} // verus!
