//! Points in time as the ledger records them: UTC seconds and nanoseconds,
//! with `chrono` doing the calendar work.

use chrono::{DateTime, Duration, Timelike, Utc};
use vstd::prelude::*;

verus! {

/// The first second of the calendar: January 1 of year -262143.
pub const MIN_SECS: i64 = -8_334_601_228_800;

/// The last second of the calendar: December 31 of year 262142.
pub const MAX_SECS: i64 = 8_210_266_876_799;

/// The first second of year 0.
pub const YEAR_0_SECS: i64 = -62_167_219_200;

/// The last second of year 9999.
pub const YEAR_9999_SECS: i64 = 253_402_300_799;

/// Nanoseconds in one second.
pub const NANOS_PER_SEC: u32 = 1_000_000_000;

/// Seconds in one day.
pub const SECS_PER_DAY: i64 = 86_400;

/// What a timestamp stands for: the whole seconds since the start of 1970, leap
/// seconds not counted, and the nanoseconds into that second. In a leap second
/// the nanoseconds go on from one billion.
pub struct Moment {
    pub secs: int,
    pub nanos: int,
}

impl Moment {
    /// Whether the calendar has such a moment.
    pub open spec fn representable(self) -> bool {
        &&& MIN_SECS <= self.secs <= MAX_SECS
        &&& 0 <= self.nanos < 2 * NANOS_PER_SEC
    }

    /// Whether the year is written with four digits.
    pub open spec fn four_digit_year(self) -> bool {
        YEAR_0_SECS <= self.secs <= YEAR_9999_SECS
    }

    /// The moment as it is written down: a leap second that does not end a
    /// minute is written as the second after it.
    pub open spec fn written(self) -> Moment {
        if self.is_leap() && self.secs % 60 != 59 {
            Moment { secs: self.secs + 1, nanos: self.nanos - NANOS_PER_SEC }
        } else {
            self
        }
    }

    /// Whether the moment is at or after another.
    pub open spec fn not_before(self, other: Moment) -> bool {
        self.secs > other.secs || (self.secs == other.secs && self.nanos >= other.nanos)
    }

    /// The moment a positive number of seconds later. From within a leap
    /// second it falls into an ordinary second.
    pub open spec fn after_secs(self, secs: int) -> Moment {
        Moment { secs: self.secs + secs, nanos: self.nanos % (NANOS_PER_SEC as int) }
    }

    /// Whether the moment lies in a leap second.
    pub open spec fn is_leap(self) -> bool {
        self.nanos >= NANOS_PER_SEC
    }

    /// The nanoseconds from an earlier moment to this one, negative when this
    /// one is the earlier. A leap second counts as a second of its own for the
    /// moment inside it, as far as the other moment has a later time of day.
    pub open spec fn nanos_since(self, earlier: Moment) -> int {
        let day = SECS_PER_DAY as int;
        let second = NANOS_PER_SEC as int;
        let leap = if self.secs % day > earlier.secs % day && earlier.is_leap() {
            second
        } else if self.secs % day < earlier.secs % day && self.is_leap() {
            -second
        } else {
            0
        };
        (self.secs - earlier.secs) * second + self.nanos - earlier.nanos + leap
    }
}

/// A point in time, in UTC.
#[derive(Debug, Clone, Copy, PartialEq, Eq)]
pub struct Timestamp {
    secs: i64,
    nanos: u32,
}

impl View for Timestamp {
    type V = Moment;

    closed spec fn view(&self) -> Moment {
        Moment { secs: self.secs as int, nanos: self.nanos as int }
    }
}

/// The moment of an optional timestamp.
pub open spec fn moment(t: Option<Timestamp>) -> Option<Moment> {
    match t {
        Some(t) => Some(t@),
        None => None,
    }
}

/// The text that `chrono` writes for a moment in RFC 3339 form.
pub uninterp spec fn rfc3339_text(moment: Moment) -> Seq<char>;

/// The moment that `chrono` reads from an RFC 3339 text, if it is one.
pub uninterp spec fn rfc3339_moment(text: Seq<char>) -> Option<Moment>;

impl Timestamp {
    #[verifier::type_invariant]
    closed spec fn in_calendar(self) -> bool {
        Moment { secs: self.secs as int, nanos: self.nanos as int }.representable()
    }

    /// The timestamp of a number of seconds since the start of 1970 and the
    /// nanoseconds into that second, if the calendar has it.
    pub fn new(secs: i64, nanos: u32) -> (t: Option<Timestamp>)
        ensures
            t is Some <==> (Moment { secs: secs as int, nanos: nanos as int }).representable(),
            t matches Some(t) ==> t@ == (Moment { secs: secs as int, nanos: nanos as int }),
    {
        if MIN_SECS <= secs && secs <= MAX_SECS && nanos < 2 * NANOS_PER_SEC {
            Some(Timestamp { secs, nanos })
        } else {
            None
        }
    }

    /// The whole seconds since the start of 1970.
    pub fn timestamp(&self) -> (secs: i64)
        ensures
            secs == self@.secs,
    {
        self.secs
    }

    /// The nanoseconds into the second; one billion or more in a leap second.
    pub fn timestamp_subsec_nanos(&self) -> (nanos: u32)
        ensures
            nanos == self@.nanos,
    {
        self.nanos
    }

    /// Whether this point in time is at or after another.
    pub(crate) fn not_before(&self, other: &Timestamp) -> (r: bool)
        ensures
            r == self@.not_before(other@),
    {
        self.secs > other.secs || (self.secs == other.secs && self.nanos >= other.nanos)
    }

    /// Whether at least a number of whole seconds has passed since an earlier
    /// point in time.
    pub(crate) fn elapsed_at_least(&self, earlier: &Timestamp, secs: i64) -> (r: bool)
        requires
            secs > 0,
        ensures
            r == (self@.nanos_since(earlier@) >= secs * NANOS_PER_SEC),
    {
        let (whole, _rest) = signed_duration_since(self, earlier);
        whole >= secs
    }
}

/// Calls `DateTime::signed_duration_since`: the time from `earlier` to `later`
/// as the whole seconds and the nanoseconds left over, both of the sign of the
/// difference.
#[verifier::external_body]
fn signed_duration_since(later: &Timestamp, earlier: &Timestamp) -> (parts: (i64, i32))
    ensures
        parts.0 * NANOS_PER_SEC + parts.1 == later@.nanos_since(earlier@),
        -NANOS_PER_SEC < parts.1 < NANOS_PER_SEC,
        parts.0 > 0 ==> parts.1 >= 0,
        parts.0 < 0 ==> parts.1 <= 0,
{
    let end = DateTime::<Utc>::from_timestamp(later.secs, 0).unwrap().naive_utc();
    let end = end.with_nanosecond(later.nanos).unwrap().and_utc();
    let start = DateTime::<Utc>::from_timestamp(earlier.secs, 0).unwrap().naive_utc();
    let start = start.with_nanosecond(earlier.nanos).unwrap().and_utc();
    let elapsed = end.signed_duration_since(start);
    (elapsed.num_seconds(), elapsed.subsec_nanos())
}

/// Calls `+` of a `DateTime` and a `TimeDelta` of whole seconds: the point in
/// time that many seconds later. It panics past the end of the calendar, which
/// the precondition leaves out.
#[verifier::external_body]
pub(crate) fn plus_seconds(t: &Timestamp, secs: i64) -> (r: Timestamp)
    requires
        0 < secs,
        t@.secs + secs <= MAX_SECS,
    ensures
        r@ == t@.after_secs(secs as int),
{
    let start = DateTime::<Utc>::from_timestamp(t.secs, 0).unwrap().naive_utc();
    let start = start.with_nanosecond(t.nanos).unwrap().and_utc();
    let sum = start + Duration::seconds(secs);
    Timestamp { secs: sum.timestamp(), nanos: sum.timestamp_subsec_nanos() }
}

/// Calls `DateTime::parse_from_rfc3339` and takes the result to UTC. What it
/// reads from a text is named, not described.
#[verifier::external_body]
pub(crate) fn parse_from_rfc3339(text: &str) -> (t: Option<Timestamp>)
    ensures
        moment(t) == rfc3339_moment(text@),
{
    match DateTime::parse_from_rfc3339(text) {
        Ok(parsed) => {
            let utc = parsed.with_timezone(&Utc);
            Some(Timestamp { secs: utc.timestamp(), nanos: utc.timestamp_subsec_nanos() })
        },
        Err(_) => None,
    }
}

/// Calls `DateTime::to_rfc3339`. The text is named, not described; reading it
/// back gives the moment as it is written when its year has four digits, and
/// nothing when the year carries a sign.
#[verifier::external_body]
pub(crate) fn to_rfc3339(t: &Timestamp) -> (text: String)
    ensures
        text@ == rfc3339_text(t@),
        rfc3339_moment(text@) == (if t@.four_digit_year() {
            Some(t@.written())
        } else {
            None
        }),
{
    let utc = DateTime::<Utc>::from_timestamp(t.secs, 0).unwrap().naive_utc();
    utc.with_nanosecond(t.nanos).unwrap().and_utc().to_rfc3339()
}

/// The calendar has every second from its first to its last, each with its
/// nanoseconds and those of a leap second after it.
pub proof fn calendar_has_no_gaps(at: Moment)
    ensures
        at.representable() <==> MIN_SECS <= at.secs <= MAX_SECS && 0 <= at.nanos < 2_000_000_000,
{
}

/// Between ordinary moments, the time from one to the other is the difference of
/// their seconds and nanoseconds, and a moment is at or after another exactly if
/// no negative time has passed since.
pub proof fn ordinary_time_is_a_difference(a: Moment, b: Moment)
    requires
        0 <= a.nanos < 1_000_000_000,
        0 <= b.nanos < 1_000_000_000,
    ensures
        a.nanos_since(b) == (a.secs - b.secs) * 1_000_000_000 + (a.nanos - b.nanos),
        a.not_before(b) <==> a.nanos_since(b) >= 0,
        a.written() == a,
{
}

/// The time from one moment to another is the time back with the other sign.
pub proof fn time_back_has_the_other_sign(a: Moment, b: Moment)
    requires
        0 <= a.nanos < 2_000_000_000,
        0 <= b.nanos < 2_000_000_000,
    ensures
        a.nanos_since(b) == -b.nanos_since(a),
{
}

/// Of two moments the first is at or after the second exactly if it has more
/// seconds, or as many and at least as many nanoseconds.
pub proof fn moments_are_ordered_by_seconds_and_nanoseconds(a: Moment, b: Moment)
    ensures
        a.not_before(b) <==> !(a.secs < b.secs || (a.secs == b.secs && a.nanos < b.nanos)),
{
}

/// Within a leap second of a day, the time to a later time of day counts the
/// leap second, and the nanoseconds in it go on from one billion.
pub proof fn leap_second_counts_towards_later_times_of_day(a: Moment, b: Moment)
    requires
        1_000_000_000 <= b.nanos < 2_000_000_000,
        0 <= a.nanos < 1_000_000_000,
    ensures
        a.nanos_since(b) == (a.secs - b.secs) * 1_000_000_000 + (a.nanos - b.nanos) + (if a.secs
            % 86_400 > b.secs % 86_400 {
            1_000_000_000int
        } else {
            0int
        }),
{
}

/// Some seconds after a moment the clock shows that many seconds more; in an
/// ordinary second the nanoseconds stay, and exactly that time has passed.
pub proof fn seconds_after_an_ordinary_moment(a: Moment, secs: int)
    requires
        0 <= a.nanos < 1_000_000_000,
    ensures
        a.after_secs(secs).secs == a.secs + secs,
        a.after_secs(secs).nanos == a.nanos,
        a.after_secs(secs).nanos_since(a) == secs * 1_000_000_000,
{
}

} // verus!
