//! Times and identifiers.

use vstd::prelude::*;

verus! {

/// A point in time: seconds since the Unix epoch and the nanoseconds within
/// the second.
#[derive(PartialEq, Eq, Structural, Clone, Copy, Debug)]
pub struct Timestamp {
    pub secs: i64,
    pub nanos: u32,
}

/// Whether `a` lies before `b`.
pub open spec fn earlier(a: Timestamp, b: Timestamp) -> bool {
    a.secs < b.secs || (a.secs == b.secs && a.nanos < b.nanos)
}

pub fn is_earlier(a: Timestamp, b: Timestamp) -> (r: bool)
    ensures
        r == earlier(a, b),
{
    a.secs < b.secs || (a.secs == b.secs && a.nanos < b.nanos)
}

/// The times that a calendar date can be given for: the years from -262143 to
/// 262142, and a leap second only at the end of a minute.
pub open spec fn valid_time(t: Timestamp) -> bool {
    &&& -8_334_601_228_800 <= t.secs <= 8_210_266_876_799
    &&& t.nanos < 2_000_000_000
    &&& t.nanos >= 1_000_000_000 ==> (t.secs as int) % 60 == 59
}

pub fn is_valid_time(t: Timestamp) -> (r: bool)
    ensures
        r == valid_time(t),
{
    -8_334_601_228_800 <= t.secs && t.secs <= 8_210_266_876_799 && t.nanos < 2_000_000_000 && (
    t.nanos < 1_000_000_000 || ends_a_minute(t.secs))
}

fn ends_a_minute(secs: i64) -> (r: bool)
    requires
        -8_334_601_228_800 <= secs <= 8_210_266_876_799,
    ensures
        r == ((secs as int) % 60 == 59),
{
    // Shifted by whole minutes, so that the remainder is that of a positive number.
    let shifted: i64 = secs + 8_334_601_228_800;
    shifted % 60 == 59
}

/// What `chrono` writes for a time in a format.
pub uninterp spec fn time_text(t: Timestamp, format: Seq<char>) -> Seq<char>;

/// `DateTime::from_timestamp` in UTC and `format` in one of the two formats
/// that are used: the text is named [`time_text`].
#[verifier::external_body]
pub(crate) fn format_time(t: Timestamp, format: &str) -> (r: String)
    requires
        valid_time(t),
        format@ == "%m-%d %H:%M"@ || format@ == "%Y-%m-%d %H:%M"@,
    ensures
        r@ == time_text(t, format@),
{
    chrono::DateTime::from_timestamp(t.secs, t.nanos).unwrap().format(format).to_string()
}

/// What `chrono` counts as the whole minutes from one time to another.
pub uninterp spec fn elapsed_minutes(since: Timestamp, until: Timestamp) -> int;

/// The nanoseconds from one time to another, leap seconds aside.
pub open spec fn nanos_between(since: Timestamp, until: Timestamp) -> int {
    (until.secs - since.secs) * 1_000_000_000 + (until.nanos - since.nanos)
}

/// The difference of two `DateTime`s in UTC and `num_minutes` of it: the number
/// is named [`elapsed_minutes`]. Without leap seconds it is the time between,
/// cut to whole minutes.
#[verifier::external_body]
pub(crate) fn minutes_between(since: Timestamp, until: Timestamp) -> (r: i64)
    requires
        valid_time(since),
        valid_time(until),
    ensures
        r == elapsed_minutes(since, until),
        since.nanos < 1_000_000_000 && until.nanos < 1_000_000_000 ==> r == if nanos_between(
            since,
            until,
        ) >= 0 {
            nanos_between(since, until) / 60_000_000_000
        } else {
            -((-nanos_between(since, until)) / 60_000_000_000)
        },
{
    let a = chrono::DateTime::from_timestamp(since.secs, since.nanos).unwrap();
    let b = chrono::DateTime::from_timestamp(until.secs, until.nanos).unwrap();
    (b - a).num_minutes()
}

/// `chrono::Utc::now`: the current time, which is not before the epoch.
#[verifier::external_body]
pub(crate) fn now() -> (r: Timestamp)
    ensures
        0 <= r.secs <= 8_210_266_876_799,
        r.nanos < 1_000_000_000,
{
    let now = chrono::Utc::now();
    Timestamp { secs: now.timestamp(), nanos: now.timestamp_subsec_nanos() }
}

/// A lowercase hexadecimal digit.
pub open spec fn hex_digit(c: char) -> bool {
    '0' <= c <= '9' || 'a' <= c <= 'f'
}

/// The text form of a UUID: 36 characters, hexadecimal digits but for the four
/// hyphens.
pub open spec fn uuid_shaped(s: Seq<char>) -> bool {
    &&& s.len() == 36
    &&& forall|i: int|
        0 <= i < 36 ==> (if i == 8 || i == 13 || i == 18 || i == 23 {
            #[trigger] s[i] == '-'
        } else {
            hex_digit(s[i])
        })
}

/// `uuid::Uuid::new_v4` in its text form: a random id in the hyphenated
/// lowercase form. That two ids differ is not claimed.
#[verifier::external_body]
pub(crate) fn new_id() -> (r: String)
    ensures
        uuid_shaped(r@),
{
    uuid::Uuid::new_v4().to_string()
}

// ---------------------------------------------------------------------------
// Laws
// ---------------------------------------------------------------------------

/// Times are ordered: none lies before itself, of two that differ one lies
/// before the other, and what lies before an earlier time lies before a later
/// one. A second more or a nanosecond more is later.
pub proof fn law_times_are_ordered(a: Timestamp, b: Timestamp, c: Timestamp)
    ensures
        !earlier(a, a),
        !(earlier(a, b) && earlier(b, a)),
        a.secs != b.secs || a.nanos != b.nanos ==> earlier(a, b) || earlier(b, a),
        earlier(a, b) && earlier(b, c) ==> earlier(a, c),
        a.nanos < 1_000_000_000 && b.nanos < 1_000_000_000 ==> (earlier(a, b) <==> nanos_between(
            a,
            b,
        ) > 0),
{
}

} // verus!
