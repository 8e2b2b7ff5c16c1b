//! Wall-clock times: when a frame was seen, and how such times are shown and
//! compared.

use chrono::{DateTime, FixedOffset, TimeZone};
use vstd::prelude::*;

use crate::text;

verus! {

/// The first second, relative to the Unix epoch, that a [`Timestamp`] can hold:
/// the start of the year -262143.
pub const FIRST_SECOND: i64 = -8_334_601_228_800;

/// The last second, relative to the Unix epoch, that a [`Timestamp`] can hold:
/// the end of the year 262142.
pub const LAST_SECOND: i64 = 8_210_266_876_799;

/// Pattern of the time of day on a header line: hours, minutes, seconds and
/// milliseconds.
pub const CLOCK_PATTERN: &'static str = "%H:%M:%S%.3f";

/// Pattern of the date and time in the name of an exported file.
pub const FILE_PATTERN: &'static str = "%Y%m%d_%H%M%S";

/// A point in time together with the local offset from UTC it is shown in.
#[derive(Debug, Clone, Copy, PartialEq, Eq, Structural)]
pub struct Timestamp {
    secs: i64,
    nanos: u32,
    offset: i32,
}

/// Whether the three numbers make a [`Timestamp`]. A leap second has no second
/// of its own: it goes on counting the nanoseconds of the last second of a
/// minute.
pub open spec fn valid_timestamp(secs: i64, nanos: u32, offset: i32) -> bool {
    &&& FIRST_SECOND <= secs <= LAST_SECOND
    &&& nanos < 1_000_000_000 || nanos < 2_000_000_000 && secs as int % 60 == 59
    &&& -86_400 < offset < 86_400
}

/// Nanoseconds since the Unix epoch.
pub open spec fn unix_nanos(secs: i64, nanos: u32) -> int {
    secs * 1_000_000_000 + nanos
}

/// Seconds since local midnight.
pub open spec fn second_of_day(secs: i64, offset: i32) -> int {
    (secs + offset) % 86_400
}

/// The second of the minute that a clock shows; one more in a leap second.
pub open spec fn shown_second(secs: i64, nanos: u32, offset: i32) -> int {
    second_of_day(secs, offset) % 60 + nanos as int / 1_000_000_000
}

/// The local time of day as `HH:MM:SS.mmm`; parts of a millisecond are cut off.
pub open spec fn clock_text(secs: i64, nanos: u32, offset: i32) -> Seq<char> {
    let s = second_of_day(secs, offset);
    text::dec_fixed((s / 3600) as nat, 2) + ":"@ + text::dec_fixed((s / 60 % 60) as nat, 2) + ":"@
        + text::dec_fixed(shown_second(secs, nanos, offset) as nat, 2) + "."@ + text::dec_fixed(
        (nanos as int / 1_000_000 % 1000) as nat,
        3,
    )
}

/// How a file name ends in the local time of day: `_HHMMSS`.
pub open spec fn stamp_end(secs: i64, nanos: u32, offset: i32) -> Seq<char> {
    let s = second_of_day(secs, offset);
    "_"@ + text::dec_fixed((s / 3600) as nat, 2) + text::dec_fixed((s / 60 % 60) as nat, 2)
        + text::dec_fixed(shown_second(secs, nanos, offset) as nat, 2)
}

/// The leap second that lies between two times and that their seconds do not
/// count: one where the time with the earlier second of the day stands in a
/// leap second.
pub open spec fn uncounted_leap(later_secs: i64, later_nanos: u32, secs: i64, nanos: u32) -> int {
    let later_second = second_of_day(later_secs, 0);
    let second = second_of_day(secs, 0);
    if later_second > second && nanos >= 1_000_000_000 {
        1
    } else if later_second < second && later_nanos >= 1_000_000_000 {
        -1
    } else {
        0
    }
}

/// Nanoseconds from one time to another.
pub open spec fn nanos_between(later_secs: i64, later_nanos: u32, secs: i64, nanos: u32) -> int {
    unix_nanos(later_secs, later_nanos) - unix_nanos(secs, nanos) + 1_000_000_000 * uncounted_leap(
        later_secs,
        later_nanos,
        secs,
        nanos,
    )
}

/// `a` divided by `b`, rounded towards zero.
pub open spec fn div_towards_zero(a: int, b: int) -> int {
    if a >= 0 {
        a / b
    } else {
        -((-a) / b)
    }
}

/// What chrono's `DateTime::format` makes of a time in a fixed offset from UTC
/// under a pattern.
pub uninterp spec fn strftime_text(
    secs: i64,
    nanos: u32,
    offset: i32,
    pattern: Seq<char>,
) -> Seq<char>;

/// Calls chrono's `DateTime::format` on the time `secs` and `nanos` after the
/// Unix epoch, seen `offset` seconds east of UTC, and turns the result into
/// text. The contract names the text, and states it in full for the clock
/// pattern: two digits each for hours, minutes and seconds of the local day
/// (with the second 60 in a leap second), and the milliseconds, cut off, as
/// three digits behind a point. Under the file pattern it states the end of the
/// text, the time of day behind the underscore.
#[verifier::external_body]
fn format_local(secs: i64, nanos: u32, offset: i32, pattern: &str) -> (r: String)
    requires
        valid_timestamp(secs, nanos, offset),
        pattern@ == CLOCK_PATTERN@ || pattern@ == FILE_PATTERN@,
    ensures
        r@ == strftime_text(secs, nanos, offset, pattern@),
        pattern@ == CLOCK_PATTERN@ ==> r@ == clock_text(secs, nanos, offset),
        pattern@ == FILE_PATTERN@ ==> stamp_end(secs, nanos, offset).is_suffix_of(r@),
{
    let zone = FixedOffset::east_opt(offset).unwrap();
    zone.timestamp_opt(secs, nanos).unwrap().format(pattern).to_string()
}

/// Calls chrono's `DateTime::signed_duration_since` on two times after the
/// Unix epoch and `TimeDelta::num_milliseconds` on the result. The contract
/// claims the difference in whole milliseconds, rounded towards zero, with a
/// leap second counted that one of the times stands in.
#[verifier::external_body]
fn millis_between(later_secs: i64, later_nanos: u32, secs: i64, nanos: u32) -> (r: i64)
    requires
        valid_timestamp(later_secs, later_nanos, 0),
        valid_timestamp(secs, nanos, 0),
    ensures
        r == div_towards_zero(
            nanos_between(later_secs, later_nanos, secs, nanos),
            1_000_000,
        ),
{
    let later = DateTime::from_timestamp(later_secs, later_nanos).unwrap();
    let earlier = DateTime::from_timestamp(secs, nanos).unwrap();
    later.signed_duration_since(earlier).num_milliseconds()
}

impl Timestamp {
    /// Seconds since the Unix epoch.
    pub closed spec fn secs(self) -> i64 {
        self.secs
    }

    /// Nanoseconds within the second.
    pub closed spec fn nanos(self) -> u32 {
        self.nanos
    }

    /// Seconds that local time is ahead of UTC.
    pub closed spec fn offset(self) -> i32 {
        self.offset
    }

    #[verifier::type_invariant]
    spec fn wf(self) -> bool {
        valid_timestamp(self.secs, self.nanos, self.offset)
    }

    /// Whole milliseconds from `earlier` to `self`, rounded towards zero.
    pub open spec fn millis_after(self, earlier: Timestamp) -> int {
        div_towards_zero(
            nanos_between(self.secs(), self.nanos(), earlier.secs(), earlier.nanos()),
            1_000_000,
        )
    }

    /// The local time of day as `HH:MM:SS.mmm`.
    pub open spec fn clock(self) -> Seq<char> {
        clock_text(self.secs(), self.nanos(), self.offset())
    }

    /// The time `secs` and `nanos` after the Unix epoch, shown `offset` seconds
    /// ahead of UTC. `None` if one of the numbers is out of range.
    pub fn new(secs: i64, nanos: u32, offset: i32) -> (r: Option<Timestamp>)
        ensures
            r is Some <==> valid_timestamp(secs, nanos, offset),
            r matches Some(t) ==> t.secs() == secs && t.nanos() == nanos && t.offset() == offset,
    {
        if secs < FIRST_SECOND || secs > LAST_SECOND || offset <= -86_400 || offset >= 86_400 {
            return None;
        }
        // Counted from the first second, which starts a minute.
        let second: i64 = (secs - FIRST_SECOND) % 60;
        if nanos < 1_000_000_000 || (nanos < 2_000_000_000 && second == 59) {
            Some(Timestamp { secs, nanos, offset })
        } else {
            None
        }
    }

    /// Whole milliseconds from `earlier` to `self`, negative if `earlier` is
    /// the later one.
    pub fn millis_since(&self, earlier: &Timestamp) -> (r: i64)
        ensures
            r == self.millis_after(*earlier),
    {
        proof {
            use_type_invariant(self);
            use_type_invariant(earlier);
        }
        millis_between(self.secs, self.nanos, earlier.secs, earlier.nanos)
    }

    /// The local time of day, to the millisecond.
    pub fn clock_time(&self) -> (r: String)
        ensures
            r@ == self.clock(),
    {
        proof {
            use_type_invariant(self);
        }
        format_local(self.secs, self.nanos, self.offset, CLOCK_PATTERN)
    }

    /// The local date and time, for use in a file name.
    pub fn file_stamp(&self) -> (r: String)
        ensures
            r@ == strftime_text(self.secs(), self.nanos(), self.offset(), FILE_PATTERN@),
            stamp_end(self.secs(), self.nanos(), self.offset()).is_suffix_of(r@),
    {
        proof {
            use_type_invariant(self);
        }
        format_local(self.secs, self.nanos, self.offset, FILE_PATTERN)
    }
}

/// The clock shows the local time of day: hours, minutes, seconds and milliseconds,
/// in this order, two digits each and three for the last. Together they are the
/// seconds since local midnight, and a leap second shows one second more.
pub proof fn clock_shows_the_time_of_day(secs: i64, nanos: u32, offset: i32)
    requires
        valid_timestamp(secs, nanos, offset),
    ensures
        ({
            let t = clock_text(secs, nanos, offset);
            let hours = text::digits_value(t.subrange(0, 2)) as int;
            let minutes = text::digits_value(t.subrange(3, 5)) as int;
            let seconds = text::digits_value(t.subrange(6, 8)) as int;
            let millis = text::digits_value(t.subrange(9, 12)) as int;
            let leap: int = if nanos >= 1_000_000_000 {
                1
            } else {
                0
            };
            &&& t.len() == 12
            &&& t[2] == ':' && t[5] == ':' && t[8] == '.'
            &&& hours < 24 && minutes < 60 && seconds <= 60
            &&& (3600 * hours + 60 * minutes + seconds - leap - secs - offset) % 86_400 == 0
            &&& millis < 1000
            &&& millis * 1_000_000 <= nanos - 1_000_000_000 * leap < (millis + 1) * 1_000_000
        }),
{
    let s = second_of_day(secs, offset);
    let h = text::dec_fixed((s / 3600) as nat, 2);
    let m = text::dec_fixed((s / 60 % 60) as nat, 2);
    let c = text::dec_fixed(shown_second(secs, nanos, offset) as nat, 2);
    let f = text::dec_fixed((nanos as int / 1_000_000 % 1000) as nat, 3);
    let t = clock_text(secs, nanos, offset);
    reveal_strlit(":");
    reveal_strlit(".");
    text::fixed_digits_denote_their_number((s / 3600) as nat);
    text::fixed_digits_denote_their_number((s / 60 % 60) as nat);
    text::fixed_digits_denote_their_number(shown_second(secs, nanos, offset) as nat);
    text::fixed_digits_denote_their_number((nanos as int / 1_000_000 % 1000) as nat);
    assert(t.subrange(0, 2) =~= h);
    assert(t.subrange(3, 5) =~= m);
    assert(t.subrange(6, 8) =~= c);
    assert(t.subrange(9, 12) =~= f);
}

/// The time between two moments is the difference of their times on the clock of
/// the world, in whole milliseconds, rounded towards zero, where neither stands in a
/// leap second.
pub proof fn waiting_is_measured_in_milliseconds(later: Timestamp, earlier: Timestamp)
    requires
        later.nanos() < 1_000_000_000,
        earlier.nanos() < 1_000_000_000,
    ensures
        ({
            let nanos = (later.secs() - earlier.secs()) * 1_000_000_000 + later.nanos()
                - earlier.nanos();
            let millis = later.millis_after(earlier);
            &&& nanos >= 0 ==> millis * 1_000_000 <= nanos < (millis + 1) * 1_000_000
            &&& nanos <= 0 ==> (millis - 1) * 1_000_000 < nanos <= millis * 1_000_000
        }),
{
}

/// The name of a file ends in the time of day that the clock shows, without the
/// milliseconds: hours, minutes and seconds, two digits each, behind an underscore.
pub proof fn stamp_ends_in_the_time_of_day(secs: i64, nanos: u32, offset: i32)
    requires
        valid_timestamp(secs, nanos, offset),
    ensures
        ({
            let t = stamp_end(secs, nanos, offset);
            let clock = clock_text(secs, nanos, offset);
            &&& t.len() == 7
            &&& t[0] == '_'
            &&& t.subrange(1, 3) == clock.subrange(0, 2)
            &&& t.subrange(3, 5) == clock.subrange(3, 5)
            &&& t.subrange(5, 7) == clock.subrange(6, 8)
        }),
{
    let s = second_of_day(secs, offset);
    let t = stamp_end(secs, nanos, offset);
    let clock = clock_text(secs, nanos, offset);
    reveal_strlit("_");
    reveal_strlit(":");
    reveal_strlit(".");
    text::fixed_digits_denote_their_number((s / 3600) as nat);
    text::fixed_digits_denote_their_number((s / 60 % 60) as nat);
    text::fixed_digits_denote_their_number(shown_second(secs, nanos, offset) as nat);
    text::fixed_digits_denote_their_number((nanos as int / 1_000_000 % 1000) as nat);
    assert(t.subrange(1, 3) =~= clock.subrange(0, 2));
    assert(t.subrange(3, 5) =~= clock.subrange(3, 5));
    assert(t.subrange(5, 7) =~= clock.subrange(6, 8));
}

} // verus!
