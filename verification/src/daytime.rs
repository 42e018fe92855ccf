//! How much of a span of time falls into certain hours of the day.
use crate::timestamp::{DAY, HOUR};
use vstd::prelude::*;

verus! {

/// Clock readings up to this distance from 1970 are handled.
pub const MAX_READING: i128 = 864_000_000_000_000_000_000;

/// The hour of the day of a clock reading in nanoseconds.
pub open spec fn hour_of(clock: int) -> int {
    clock % (DAY as int) / (HOUR as int)
}

/// Limits `x` to the range from zero to `top`.
pub open spec fn clamp(x: int, top: int) -> int {
    if x < 0 {
        0
    } else if x > top {
        top
    } else {
        x
    }
}

/// The part of all time from 1970 to a clock reading that falls between the
/// hours `lo` and `hi` of a day: the whole window for every day before, and
/// what has passed of the window on the day itself. It is negative before 1970.
pub open spec fn hours_before(clock: int, lo: int, hi: int) -> int {
    let window = (hi - lo) * HOUR;
    (clock / (DAY as int)) * window + clamp(clock % (DAY as int) - lo * HOUR, window)
}

/// The part of the span between two clock readings that falls between the
/// hours `lo` and `hi` of a day. It is empty when `hi` does not come after `lo`.
pub open spec fn time_in_hours(from: int, to: int, lo: int, hi: int) -> int {
    if from < to && lo < hi {
        hours_before(to, lo, hi) - hours_before(from, lo, hi)
    } else {
        0
    }
}

/// The end of the hour in which a clock reading lies, or `to` when that comes
/// first.
pub open spec fn slice_end(clock: int, to: int) -> int {
    let next = (clock / (HOUR as int) + 1) * HOUR;
    if next < to {
        next
    } else {
        to
    }
}

/// The nanoseconds since midnight.
fn nanos_of_day(clock: i128) -> (res: i128)
    requires
        -MAX_READING <= clock <= MAX_READING,
    ensures
        res == clock as int % (DAY as int),
{
    let shifted: u128 = (clock + MAX_READING) as u128;
    let res: u128 = shifted % 86_400_000_000_000;
    assert(MAX_READING == 10_000_000 * DAY);
    res as i128
}

/// The hour of the day of a clock reading.
pub fn hour(clock: i128) -> (res: u8)
    requires
        -MAX_READING <= clock <= MAX_READING,
    ensures
        res == hour_of(clock as int),
        res < 24,
{
    let within: u128 = nanos_of_day(clock) as u128;
    (within / 3_600_000_000_000) as u8
}

/// The end of the hour in which a clock reading lies, or `to` when that comes
/// first.
pub fn next_slice(clock: i128, to: i128) -> (res: i128)
    requires
        -MAX_READING <= clock < to <= MAX_READING,
    ensures
        res == slice_end(clock as int, to as int),
        clock < res <= to,
{
    let shifted: u128 = (clock + MAX_READING) as u128;
    let hours: u128 = shifted / 3_600_000_000_000;
    let next: i128 = (hours as i128 + 1) * HOUR - MAX_READING;
    assert(MAX_READING == 240_000_000 * HOUR);
    if next < to {
        next
    } else {
        to
    }
}

fn hours_before_nanos(clock: i128, lo: u8, hi: u8) -> (res: i128)
    requires
        -MAX_READING <= clock <= MAX_READING,
        lo <= hi <= 24,
    ensures
        res == hours_before(clock as int, lo as int, hi as int),
        -MAX_READING - DAY <= res <= MAX_READING + DAY,
{
    let within = nanos_of_day(clock);
    let days: i128 = (clock - within) / DAY;
    let window: i128 = (hi - lo) as i128 * HOUR;
    let passed: i128 = within - lo as i128 * HOUR;
    let part: i128 = if passed < 0 {
        0
    } else if passed > window {
        window
    } else {
        passed
    };
    proof {
        assert(days == clock as int / (DAY as int)) by {
            lemma_exact_days(clock as int);
        }
        assert(-10_000_000 <= days <= 10_000_000);
        assert(-MAX_READING <= days * window <= MAX_READING) by (nonlinear_arith)
            requires
                -10_000_000 <= days <= 10_000_000,
                0 <= window <= 24 * HOUR,
                24 * HOUR * 10_000_000 == MAX_READING,
        ;
    }
    days * window + part
}

proof fn lemma_exact_days(clock: int)
    ensures
        clock - clock % (DAY as int) == DAY * (clock / (DAY as int)),
        clock - clock % (DAY as int) >= 0 ==> (clock - clock % (DAY as int)) / (DAY as int) == clock
            / (DAY as int),
{
}

/// The part of the span between two clock readings that falls between the
/// hours `lo` and `hi` of a day.
pub fn nanos_in_hours(from: i128, to: i128, lo: u8, hi: u8) -> (res: u128)
    requires
        -MAX_READING <= from <= MAX_READING,
        -MAX_READING <= to <= MAX_READING,
        hi <= 24,
    ensures
        res == time_in_hours(from as int, to as int, lo as int, hi as int),
{
    if from < to && lo < hi {
        proof {
            law_part_of_span(from as int, to as int, lo as int, hi as int);
        }
        (hours_before_nanos(to, lo, hi) - hours_before_nanos(from, lo, hi)) as u128
    } else {
        0
    }
}

// ---------------------------------------------------------------------------
// Laws
// ---------------------------------------------------------------------------

/// Within one hour, a span counts in full or not at all, by the hour in which it
/// lies.
pub proof fn law_slice(from: int, to: int, lo: int, hi: int)
    requires
        from < to,
        0 <= lo < hi <= 24,
    ensures
        from < slice_end(from, to) <= to,
        time_in_hours(from, slice_end(from, to), lo, hi) == if lo <= hour_of(from) < hi {
            slice_end(from, to) - from
        } else {
            0
        },
{
    let n = slice_end(from, to);
    let q = from / (DAY as int);
    let r = from % (DAY as int);
    let h = r / (HOUR as int);
    let m = n - q * DAY;
    assert(from / (HOUR as int) == 24 * q + h);
    assert(h * HOUR <= r < m <= (h + 1) * HOUR);
    lemma_reading(q, r, lo, hi);
    if m < DAY {
        lemma_reading(q, m, lo, hi);
    } else {
        lemma_midnight(q, lo, hi);
    }
    lemma_within_hour(r, m, h, lo, hi);
}

proof fn lemma_reading(day: int, r: int, lo: int, hi: int)
    requires
        0 <= r < DAY,
    ensures
        hours_before(day * DAY + r, lo, hi) == day * ((hi - lo) * HOUR) + clamp(
            r - lo * HOUR,
            (hi - lo) * HOUR,
        ),
{
    assert((day * DAY + r) / (DAY as int) == day);
    assert((day * DAY + r) % (DAY as int) == r);
}

proof fn lemma_midnight(day: int, lo: int, hi: int)
    requires
        0 <= lo < hi <= 24,
    ensures
        hours_before(day * DAY + DAY, lo, hi) == day * ((hi - lo) * HOUR) + clamp(
            DAY - lo * HOUR,
            (hi - lo) * HOUR,
        ),
{
    let window = (hi - lo) * HOUR;
    lemma_reading(day + 1, 0, lo, hi);
    assert((day + 1) * DAY + 0 == day * DAY + DAY);
    assert((day + 1) * window == day * window + window) by (nonlinear_arith);
}

proof fn lemma_within_hour(r: int, m: int, h: int, lo: int, hi: int)
    requires
        h * HOUR <= r < m <= (h + 1) * HOUR,
        0 <= lo < hi <= 24,
    ensures
        clamp(m - lo * HOUR, (hi - lo) * HOUR) - clamp(r - lo * HOUR, (hi - lo) * HOUR) == if lo
            <= h < hi {
            m - r
        } else {
            0
        },
{
}

/// A span that is cut in two counts as much as its parts.
pub proof fn law_cut(from: int, mid: int, to: int, lo: int, hi: int)
    requires
        from <= mid <= to,
    ensures
        time_in_hours(from, to, lo, hi) == time_in_hours(from, mid, lo, hi) + time_in_hours(
            mid,
            to,
            lo,
            hi,
        ),
{
}

/// What falls into certain hours is a part of the span, and never negative.
pub proof fn law_part_of_span(from: int, to: int, lo: int, hi: int)
    requires
        from <= to,
        0 <= lo,
        hi <= 24,
    ensures
        0 <= time_in_hours(from, to, lo, hi) <= to - from,
    decreases to - from,
{
    if from < to && lo < hi {
        let n = slice_end(from, to);
        law_slice(from, to, lo, hi);
        law_cut(from, n, to, lo, hi);
        law_part_of_span(n, to, lo, hi);
    }
}

/// The four quarters of the day make up the whole span.
pub proof fn law_quarters(from: int, to: int)
    requires
        from <= to,
    ensures
        time_in_hours(from, to, 0, 6) + time_in_hours(from, to, 6, 12) + time_in_hours(
            from,
            to,
            12,
            18,
        ) + time_in_hours(from, to, 18, 24) == to - from,
{
    lemma_quarters_before(from);
    lemma_quarters_before(to);
}

proof fn lemma_quarters_before(clock: int)
    ensures
        hours_before(clock, 0, 6) + hours_before(clock, 6, 12) + hours_before(clock, 12, 18)
            + hours_before(clock, 18, 24) == clock,
{
    let q = clock / (DAY as int);
    let r = clock % (DAY as int);
    assert(q * DAY + r == clock);
    let w = 6 * HOUR;
    assert(w == (6 - 0) * HOUR && w == (12 - 6) * HOUR && w == (18 - 12) * HOUR && w == (24 - 18)
        * HOUR);
    assert(4 * (q * w) == q * DAY) by (nonlinear_arith)
        requires
            4 * w == DAY,
    ;
    lemma_reading(q, r, 0, 6);
    lemma_reading(q, r, 6, 12);
    lemma_reading(q, r, 12, 18);
    lemma_reading(q, r, 18, 24);
    assert(clamp(r - 0 * HOUR, w) + clamp(r - 6 * HOUR, w) + clamp(r - 12 * HOUR, w) + clamp(
        r - 18 * HOUR,
        w,
    ) == r);
}

/// The hours of the day are counted from midnight, sixty minutes each.
pub proof fn law_hour_of_day(clock: int)
    ensures
        hour_of(clock) == (clock / 3_600_000_000_000) % 24,
        0 <= hour_of(clock) < 24,
{
    let q = clock / (DAY as int);
    let r = clock % (DAY as int);
    assert(clock == q * DAY + r);
    assert(clock / (HOUR as int) == 24 * q + r / (HOUR as int));
}

/// A span within one hour counts in full when its hour lies in the window, and
/// not at all otherwise.
pub proof fn law_span_within_hour(from: int, to: int, lo: int, hi: int)
    requires
        from < to,
        from / 3_600_000_000_000 == (to - 1) / 3_600_000_000_000,
        0 <= lo,
        hi <= 24,
    ensures
        time_in_hours(from, to, lo, hi) == if lo <= (from / 3_600_000_000_000) % 24 < hi {
            to - from
        } else {
            0
        },
{
    law_hour_of_day(from);
    if lo < hi {
        law_slice(from, to, lo, hi);
        assert(slice_end(from, to) == to);
    }
}

/// A whole day holds as many hours of a window as the window is long, wherever
/// the day starts.
pub proof fn law_whole_day(from: int, lo: int, hi: int)
    requires
        0 <= lo <= hi <= 24,
    ensures
        time_in_hours(from, from + 86_400_000_000_000, lo, hi) == (hi - lo) * 3_600_000_000_000,
{
    if lo < hi {
        let q = from / (DAY as int);
        let r = from % (DAY as int);
        assert(from == q * DAY + r);
        assert(from + DAY == (q + 1) * DAY + r);
        lemma_reading(q, r, lo, hi);
        lemma_reading(q + 1, r, lo, hi);
        let window = (hi - lo) * HOUR;
        assert((q + 1) * window == q * window + window) by (nonlinear_arith);
    }
}

} // verus!
