//! The wall clock: the current local time and its rendering for the `date`
//! header, both computed by the `time` crate.

use vstd::prelude::*;

verus! {

/// A broken-down local time, field for field as the `time` crate reports
/// it.
#[derive(Clone, Copy, Debug, PartialEq, Eq)]
pub struct Moment {
    /// Seconds after the minute.
    pub sec: i32,
    /// Minutes after the hour.
    pub min: i32,
    /// Hours after midnight.
    pub hour: i32,
    /// Day of the month.
    pub mday: i32,
    /// Months since January.
    pub mon: i32,
    /// Years since 1900.
    pub year: i32,
    /// Days since Sunday.
    pub wday: i32,
    /// Days since January 1.
    pub yday: i32,
    /// Daylight saving time flag.
    pub isdst: i32,
    /// Seconds east of UTC.
    pub utcoff: i32,
    /// Nanoseconds after the second.
    pub nsec: i32,
}

/// The pattern of the `date` header: weekday, day, month, two-digit year,
/// time of day and zone.
pub open spec fn date_pattern() -> Seq<char> {
    "%a, %d %b %y %T %Z"@
}

/// The `date` header text that `time::strftime` renders from `m` with the
/// `date` pattern; it depends on the fields of `m` alone.
pub uninterp spec fn date_text(m: Moment) -> Seq<char>;

/// A `date` header value that the clock can give: the rendering of some
/// time whose month and weekday are in range, or empty where its year is
/// too large to render.
pub open spec fn clock_date(d: Seq<char>) -> bool {
    exists|m: Moment|
        #![trigger date_text(m)]
        0 <= m.mon <= 11 && 0 <= m.wday <= 6 && (m.year <= i32::MAX - 1900 ==> d == date_text(m))
            && (m.year > i32::MAX - 1900 ==> d.len() == 0)
}

/// Relies on `time::now`: the current local time, broken down by the C
/// library's `localtime_r`; the documented field ranges give a month in
/// `0..=11` and a weekday in `0..=6`. It panics only where the current time
/// cannot be broken down, which a clock inside the `i32` year range does
/// not cause.
#[verifier::external_body]
fn local_now() -> (r: Moment)
    ensures
        0 <= r.mon <= 11,
        0 <= r.wday <= 6,
{
    let t = time::now();
    Moment {
        sec: t.tm_sec,
        min: t.tm_min,
        hour: t.tm_hour,
        mday: t.tm_mday,
        mon: t.tm_mon,
        year: t.tm_year,
        wday: t.tm_wday,
        yday: t.tm_yday,
        isdst: t.tm_isdst,
        utcoff: t.tm_utcoff,
        nsec: t.tm_nsec,
    }
}

/// Relies on `time::strftime`: with the `date` pattern, whose specifiers are
/// all valid, it fails only on a weekday or month out of range; the two-digit
/// year adds 1900 to `year`, which the bound keeps from overflowing. What it
/// renders depends on the fields of `m` alone (`%Z` reads only `utcoff`).
#[verifier::external_body]
fn format_moment(pattern: &str, m: &Moment) -> (r: Option<String>)
    requires
        pattern@ == date_pattern(),
        m.year <= i32::MAX - 1900,
    ensures
        0 <= m.mon <= 11 && 0 <= m.wday <= 6 ==> r is Some,
        r is Some ==> r->Some_0@ == date_text(*m),
{
    let tm = time::Tm {
        tm_sec: m.sec,
        tm_min: m.min,
        tm_hour: m.hour,
        tm_mday: m.mday,
        tm_mon: m.mon,
        tm_year: m.year,
        tm_wday: m.wday,
        tm_yday: m.yday,
        tm_isdst: m.isdst,
        tm_utcoff: m.utcoff,
        tm_nsec: m.nsec,
    };
    time::strftime(pattern, &tm).ok()
}

/// The `date` header text of `m`; empty where its year is too large to
/// render.
pub fn date_of(m: &Moment) -> (r: String)
    requires
        0 <= m.mon <= 11,
        0 <= m.wday <= 6,
    ensures
        m.year <= i32::MAX - 1900 ==> r@ == date_text(*m),
        m.year > i32::MAX - 1900 ==> r@.len() == 0,
{
    if m.year <= i32::MAX - 1900 {
        match format_moment("%a, %d %b %y %T %Z", m) {
            Some(s) => s,
            None => String::new(),
        }
    } else {
        String::new()
    }
}

/// The current local time in the form of the `date` header; empty where the
/// clock reports a year too large to render.
pub fn current_date() -> (r: String)
    ensures
        clock_date(r@),
{
    let m = local_now();
    let r = date_of(&m);
    proof {
        let t = date_text(m);
        if m.year > i32::MAX - 1900 {
            assert(r@.len() == 0 && t == date_text(m));
        }
        assert(clock_date(r@));
    }
    r
}

} // verus!
