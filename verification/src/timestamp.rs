//! Points in time with the UTC offset in which they were recorded.
use time::format_description::well_known::Rfc3339;
use time::{OffsetDateTime, UtcOffset};
use vstd::prelude::*;
use vstd::std_specs::cmp::PartialEqSpecImpl;

verus! {

/// Nanoseconds in a second.
pub const SECOND: i128 = 1_000_000_000;

/// Nanoseconds in an hour.
pub const HOUR: i128 = 3_600_000_000_000;

/// Nanoseconds in a day.
pub const DAY: i128 = 86_400_000_000_000;

/// The first clock reading of the year -9999, in nanoseconds since 1970.
pub const MIN_CLOCK: i128 = -377_705_116_800_000_000_000;

/// The last clock reading of the year 9999.
pub const MAX_CLOCK: i128 = 253_402_300_799_999_999_999;

/// The largest distance of a UTC offset from zero, in seconds.
pub const MAX_OFFSET: i32 = 93_599;

/// A local clock reading together with the offset of that clock from UTC.
///
/// The reading counts nanoseconds from midnight of 1970-01-01 on the local
/// clock. It lies within the years -9999 to 9999.
#[derive(Clone, Copy, Debug)]
pub struct Timestamp {
    clock_nanos: i128,
    offset_secs: i32,
}

impl PartialEq for Timestamp {
    /// Two timestamps are equal when they are the same instant, at whatever
    /// offsets.
    fn eq(&self, other: &Timestamp) -> (res: bool) {
        self.instant_nanos() == other.instant_nanos()
    }
}

impl PartialEqSpecImpl for Timestamp {
    open spec fn obeys_eq_spec() -> bool {
        true
    }

    open spec fn eq_spec(&self, other: &Timestamp) -> bool {
        self.instant() == other.instant()
    }
}

impl Eq for Timestamp {

}

/// Whether a clock reading and an offset make a timestamp.
pub open spec fn clock_in_range(clock: int, offset: int) -> bool {
    MIN_CLOCK <= clock <= MAX_CLOCK && -MAX_OFFSET <= offset <= MAX_OFFSET
}

/// What parsing a text as an RFC 3339 date and time gives: the clock reading
/// in nanoseconds and the offset in seconds.
pub uninterp spec fn rfc3339(text: Seq<char>) -> Option<(int, int)>;

/// The first clock reading of the year zero.
pub const YEAR_ZERO: i128 = -62_167_219_200_000_000_000;

/// Whether RFC 3339 has a form for a clock reading at an offset: a year of four
/// digits, and an offset of less than a day in whole minutes.
pub open spec fn has_rfc3339(clock: int, offset: int) -> bool {
    YEAR_ZERO <= clock && -86_400 < offset < 86_400 && offset % 60 == 0
}

/// The RFC 3339 form of a clock reading at an offset.
pub uninterp spec fn rfc3339_form(clock: int, offset: int) -> Seq<char>;

/// How a clock reading at an offset is displayed.
pub uninterp spec fn timestamp_display(clock: int, offset: int) -> Seq<char>;

/// How the date of a clock reading is displayed.
pub uninterp spec fn date_display(clock: int) -> Seq<char>;

impl Timestamp {
    #[verifier::type_invariant]
    spec fn in_range(self) -> bool {
        clock_in_range(self.clock_nanos as int, self.offset_secs as int)
    }

    /// The local clock reading in nanoseconds.
    pub closed spec fn clock(self) -> int {
        self.clock_nanos as int
    }

    /// The offset of the local clock from UTC in seconds.
    pub closed spec fn offset(self) -> int {
        self.offset_secs as int
    }

    /// The instant, in nanoseconds since 1970-01-01 00:00 UTC.
    pub open spec fn instant(self) -> int {
        self.clock() - self.offset() * SECOND
    }

    /// Whether the parts of the timestamp are in range.
    pub open spec fn valid(self) -> bool {
        clock_in_range(self.clock(), self.offset())
    }

    /// A timestamp from its parts, when they are in range.
    pub fn new(clock_nanos: i128, offset_secs: i32) -> (res: Option<Timestamp>)
        ensures
            res is Some == clock_in_range(clock_nanos as int, offset_secs as int),
            res matches Some(t) ==> t.clock() == clock_nanos && t.offset() == offset_secs
                && t.valid(),
    {
        if MIN_CLOCK <= clock_nanos && clock_nanos <= MAX_CLOCK && -MAX_OFFSET <= offset_secs
            && offset_secs <= MAX_OFFSET {
            Some(Timestamp { clock_nanos, offset_secs })
        } else {
            None
        }
    }

    /// Midnight of 1970-01-01 UTC, as a mathematical value.
    pub closed spec fn at_epoch() -> Timestamp {
        Timestamp { clock_nanos: 0, offset_secs: 0 }
    }

    /// Midnight of 1970-01-01 UTC.
    pub fn epoch() -> (res: Timestamp)
        ensures
            res == Timestamp::at_epoch(),
            res.clock() == 0,
            res.offset() == 0,
    {
        Timestamp { clock_nanos: 0, offset_secs: 0 }
    }

    /// The local clock reading in nanoseconds.
    pub fn clock_nanos(&self) -> (res: i128)
        ensures
            res == self.clock(),
            self.valid(),
    {
        proof {
            use_type_invariant(&*self);
        }
        self.clock_nanos
    }

    /// The offset from UTC in seconds.
    pub fn offset_secs(&self) -> (res: i32)
        ensures
            res == self.offset(),
            self.valid(),
    {
        proof {
            use_type_invariant(&*self);
        }
        self.offset_secs
    }

    /// The instant in nanoseconds since 1970-01-01 00:00 UTC.
    pub fn instant_nanos(&self) -> (res: i128)
        ensures
            res == self.instant(),
            self.valid(),
    {
        proof {
            use_type_invariant(&*self);
        }
        self.clock_nanos - self.offset_secs as i128 * SECOND
    }

    /// The whole seconds from 1970-01-01 00:00 UTC to this instant, rounded
    /// down.
    pub fn unix_seconds(&self) -> (res: i64)
        ensures
            res == self.instant() / SECOND as int,
            self.valid(),
    {
        let nanos = self.instant_nanos();
        let lift: i128 = 400_000_000_000;
        let shifted: u128 = (nanos + lift * SECOND) as u128;
        let secs: u128 = shifted / 1_000_000_000;
        (secs as i128 - lift) as i64
    }
}

/// Calls `OffsetDateTime::parse` with the well-known RFC 3339 format and takes
/// the clock reading and the offset of the result. The contract names what the
/// text parses to, and says that nothing outside the range of the year 9999
/// comes out.
#[verifier::external_body]
pub(crate) fn parse_rfc3339(text: &str) -> (res: Option<Timestamp>)
    ensures
        res is Some == rfc3339(text@) is Some,
        res matches Some(t) ==> rfc3339(text@) == Some((t.clock(), t.offset())) && t.valid(),
{
    OffsetDateTime::parse(text, &Rfc3339).ok().map(
        |t|
            Timestamp {
                clock_nanos: t.replace_offset(UtcOffset::UTC).unix_timestamp_nanos(),
                offset_secs: t.offset().whole_seconds(),
            },
    )
}

/// Calls `OffsetDateTime::format` with the well-known RFC 3339 format. The
/// contract says when there is such a form, names its text, and says that the
/// text parses to the same clock reading and offset.
#[verifier::external_body]
pub(crate) fn rfc3339_text(t: &Timestamp) -> (res: Option<String>)
    ensures
        res is Some == has_rfc3339(t.clock(), t.offset()),
        res matches Some(s) ==> s@ == rfc3339_form(t.clock(), t.offset()) && rfc3339(s@) == Some(
            (t.clock(), t.offset()),
        ),
{
    OffsetDateTime::from_unix_timestamp_nanos(t.clock_nanos).unwrap().replace_offset(
        UtcOffset::from_whole_seconds(t.offset_secs).unwrap(),
    ).format(&Rfc3339).ok()
}

/// Calls the `Display` form of `OffsetDateTime`. The contract names the text.
#[verifier::external_body]
pub(crate) fn timestamp_text(t: &Timestamp) -> (res: String)
    ensures
        res@ == timestamp_display(t.clock(), t.offset()),
{
    OffsetDateTime::from_unix_timestamp_nanos(t.clock_nanos).unwrap().replace_offset(
        UtcOffset::from_whole_seconds(t.offset_secs).unwrap(),
    ).to_string()
}

/// Calls the `Display` form of the `Date` of an `OffsetDateTime`. The contract
/// names the text.
#[verifier::external_body]
pub(crate) fn date_text(t: &Timestamp) -> (res: String)
    ensures
        res@ == date_display(t.clock()),
{
    OffsetDateTime::from_unix_timestamp_nanos(t.clock_nanos).unwrap().date().to_string()
}

/// The instant of a clock reading is the reading less the offset of the clock, so a
/// clock that is an hour ahead reads an hour more at the same instant.
pub proof fn law_instant(t: Timestamp, u: Timestamp)
    ensures
        t.offset() == 0 ==> t.instant() == t.clock(),
        t.offset() == u.offset() ==> t.instant() - u.instant() == t.clock() - u.clock(),
        t.clock() == u.clock() ==> t.instant() - u.instant() == (u.offset() - t.offset())
            * 1_000_000_000,
        t.instant() == u.instant() && t.offset() == u.offset() + 3600 ==> t.clock() == u.clock()
            + 3_600_000_000_000,
{
}

/// Two timestamps are equal exactly when they are one instant, at whatever offsets.
pub proof fn law_equal_instants(t: Timestamp, u: Timestamp)
    ensures
        vstd::std_specs::cmp::PartialEqSpec::eq_spec(&t, &u) <==> t.clock() - t.offset() * 1_000_000_000 == u.clock() - u.offset()
            * 1_000_000_000,
{
}

/// Timestamps reach from the first day of the year -9999 to the last of the year
/// 9999. The years from zero on are twenty-five times four hundred years, and one
/// more leap year would complete the years before zero.
pub proof fn law_years()
    ensures
        MAX_CLOCK + 1 - YEAR_ZERO == 25 * 146_097 * DAY,
        YEAR_ZERO - MIN_CLOCK + 366 * DAY == 25 * 146_097 * DAY,
        YEAR_ZERO == -719_528 * DAY,
        DAY == 24 * HOUR,
        HOUR == 3600 * SECOND,
        SECOND == 1_000_000_000,
{
}

/// A clock reading and an offset make a timestamp when the reading lies in those
/// years and the offset is less than twenty-six hours.
pub proof fn law_range(clock: int, offset: int)
    ensures
        clock_in_range(clock, offset) <==> MIN_CLOCK <= clock <= MAX_CLOCK && -26 * 3600 < offset
            < 26 * 3600,
{
}

} // verus!
