//! Calendar arithmetic of the data services: the days a time range spans,
//! the boundary between published history and live data, and which days lie
//! before it.

use vstd::prelude::*;

use crate::realtime_data_service::TimeRange;

verus! {

/// `days_from_ce` of 1970-01-01.
pub const EPOCH_DAYS_FROM_CE: i32 = 719163;

/// `days_from_ce` of the last date chrono represents (262142-12-31).
pub const MAX_DAYS_FROM_CE: i32 = 95745399;

/// Last whole second, counted from the Unix epoch, that chrono represents.
pub const MAX_UTC_SECS: u64 = 8210266876799;

/// Microseconds in a day.
pub const DAY_US: u64 = 86_400_000_000;

/// The "%Y-%m-%d" text chrono formats for the date with this day number
/// (days from the common era, 0001-01-01 being day 1).
pub uninterp spec fn spec_format_ymd(days_from_ce: i32) -> Seq<char>;

/// The day number of the date chrono parses from `s` with "%Y-%m-%d", if it
/// parses.
pub uninterp spec fn spec_parse_ymd(s: Seq<char>) -> Option<i32>;

/// Formats a date given by its day number as "%Y-%m-%d".
///
/// Trusted: calls `chrono::NaiveDate::from_num_days_from_ce_opt` (which
/// yields a date for every day number up to 262142-12-31) and formats it
/// with `format("%Y-%m-%d")`. The contract names the text.
#[verifier::external_body]
fn format_ymd(days_from_ce: i32) -> (r: String)
    requires
        1 <= days_from_ce <= MAX_DAYS_FROM_CE,
    ensures
        r@ == spec_format_ymd(days_from_ce),
{
    chrono::NaiveDate::from_num_days_from_ce_opt(days_from_ce).unwrap().format("%Y-%m-%d").to_string()
}

/// Parses a "%Y-%m-%d" date into its day number.
///
/// Trusted: calls `chrono::NaiveDate::parse_from_str(s, "%Y-%m-%d")` and takes
/// `num_days_from_ce` of the date. The contract names the result.
#[verifier::external_body]
fn parse_ymd(s: &str) -> (r: Option<i32>)
    ensures
        r == spec_parse_ymd(s@),
{
    match chrono::NaiveDate::parse_from_str(s, "%Y-%m-%d") {
        Ok(d) => Some(chrono::Datelike::num_days_from_ce(&d)),
        Err(_) => None,
    }
}

/// Nanoseconds from the Unix epoch to now on the system clock.
///
/// Trusted: reads `std::time::SystemTime::now()` and takes
/// `duration_since(std::time::UNIX_EPOCH)`; on `Err` (a clock set before the
/// epoch) it gives 0, else `Duration::as_nanos`. Nothing is claimed of the
/// value: it depends on the clock.
#[verifier::external_body]
pub(crate) fn clock_nanos() -> u128 {
    match std::time::SystemTime::now().duration_since(std::time::UNIX_EPOCH) {
        Ok(d) => d.as_nanos(),
        Err(_) => 0,
    }
}

/// The current time in microseconds since the Unix epoch, at most
/// `u64::MAX`.
pub(crate) fn utc_now_micros() -> u64 {
    let us = clock_nanos() / 1000;
    if us > 0xffff_ffff_ffff_ffffu128 {
        0xffff_ffff_ffff_ffffu64
    } else {
        us as u64
    }
}

/// Latest microsecond inside chrono's date range.
pub const MAX_UTC_US: u64 = 8_210_266_876_799_999_999;

/// Day number of the UTC date holding second `secs` after the epoch.
pub open spec fn day_of_secs(secs: u64) -> int {
    EPOCH_DAYS_FROM_CE + secs / 86400
}

/// The "%Y-%m-%d" texts of days `d..=last`, in order.
pub open spec fn day_texts(d: int, last: int) -> Seq<Seq<char>>
    decreases last - d + 1,
{
    if d > last {
        Seq::empty()
    } else {
        seq![spec_format_ymd(d as i32)] + day_texts(d + 1, last)
    }
}

/// The views of a sequence of strings.
pub open spec fn texts_of(v: Seq<String>) -> Seq<Seq<char>> {
    v.map_values(|s: String| s@)
}

/// The UTC days a time range touches, from the day of its start to the day
/// of its end (both included), as "%Y-%m-%d" texts.
pub fn calculate_date_range(range: TimeRange) -> (r: Vec<String>)
    requires
        range.start_us / 1_000_000 <= MAX_UTC_SECS,
        range.end_us / 1_000_000 <= MAX_UTC_SECS,
    ensures
        texts_of(r@) == day_texts(
            day_of_secs((range.start_us / 1_000_000) as u64),
            day_of_secs((range.end_us / 1_000_000) as u64),
        ),
{
    let start_secs = range.start_us / 1_000_000;
    let end_secs = range.end_us / 1_000_000;
    let first: i32 = EPOCH_DAYS_FROM_CE + (start_secs / 86400) as i32;
    let last: i32 = EPOCH_DAYS_FROM_CE + (end_secs / 86400) as i32;
    let mut dates: Vec<String> = Vec::new();
    let mut d = first;
    let mut done = false;
    proof {
        assert(first as int == day_of_secs(start_secs));
        assert(last as int == day_of_secs(end_secs));
        assert(texts_of(dates@) =~= Seq::<Seq<char>>::empty());
        assert(texts_of(dates@) + day_texts(d as int, last as int) =~= day_texts(first as int, last as int));
    }
    while d <= last && !done
        invariant
            first <= d,
            first >= EPOCH_DAYS_FROM_CE,
            last <= MAX_DAYS_FROM_CE,
            first <= last ==> d <= last + 1,
            !done ==> texts_of(dates@) + day_texts(d as int, last as int) == day_texts(first as int, last as int),
            done ==> texts_of(dates@) == day_texts(first as int, last as int),
        decreases last - d + 1, if done { 0int } else { 1int },
    {
        let s = format_ymd(d);
        proof {
            assert(texts_of(dates@.push(s)) =~= texts_of(dates@).push(s@));
            assert(texts_of(dates@).push(s@) + day_texts(d + 1, last as int) =~= texts_of(dates@) + day_texts(d as int, last as int));
        }
        dates.push(s);
        if d == MAX_DAYS_FROM_CE {
            proof {
                assert(day_texts(d + 1, last as int) =~= Seq::<Seq<char>>::empty());
                assert(texts_of(dates@) + Seq::<Seq<char>>::empty() =~= texts_of(dates@));
            }
            done = true;
        } else {
            d = d + 1;
        }
    }
    proof {
        if !done {
            assert(texts_of(dates@) + day_texts(d as int, last as int) =~= texts_of(dates@));
        }
    }
    dates
}

/// The boundary between published history and live data for the time
/// `now_us`: today's UTC midnight, or yesterday's during the first six hours
/// of the day (today's data may not be published yet). Before the epoch's
/// first full day the previous midnight wraps as an unsigned value does.
pub open spec fn spec_safe_cutoff(now_us: u64) -> u64 {
    let midnight = (now_us / DAY_US) * DAY_US;
    let hours = (now_us - midnight) / 3_600_000_000;
    if hours < 6 {
        if midnight >= DAY_US {
            (midnight - DAY_US) as u64
        } else {
            (midnight - DAY_US + 0x1_0000_0000_0000_0000) as u64
        }
    } else {
        midnight as u64
    }
}

/// The history boundary for the time `now_us`.
pub fn safe_historical_cutoff_at(now_us: u64) -> (r: u64)
    ensures
        r == spec_safe_cutoff(now_us),
{
    let midnight = (now_us / DAY_US) * DAY_US;
    proof {
        vstd::arithmetic::div_mod::lemma_fundamental_div_mod(now_us as int, DAY_US as int);
        assert((now_us / DAY_US) * DAY_US <= now_us) by (nonlinear_arith)
            requires
                now_us == DAY_US * (now_us / DAY_US) + now_us % DAY_US,
                now_us % DAY_US >= 0,
        ;
    }
    let hours = (now_us - midnight) / 3_600_000_000;
    if hours < 6 {
        midnight.wrapping_sub(DAY_US)
    } else {
        midnight
    }
}

/// The boundary between published history and live data now: the boundary
/// for some time, the one the clock reads.
pub fn calculate_safe_historical_cutoff() -> (r: u64)
    ensures
        exists|now_us: u64| #[trigger] spec_safe_cutoff(now_us) == r,
{
    safe_historical_cutoff_at(utc_now_micros())
}

/// Whether a text names a UTC day before the day of `cutoff_day`.
pub open spec fn before_cutoff(s: Seq<char>, cutoff_day: int) -> bool {
    match spec_parse_ymd(s) {
        Some(d) => d < cutoff_day,
        None => false,
    }
}

/// Keeps the days (as "%Y-%m-%d" texts) before the UTC day of `safe_cutoff`
/// (microseconds), in order; texts that do not parse are dropped.
pub fn filter_historical_dates(dates: &mut Vec<String>, safe_cutoff: u64)
    requires
        safe_cutoff / 1_000_000 <= MAX_UTC_SECS,
    ensures
        texts_of(final(dates)@) == texts_of(old(dates)@).filter(
            |s: Seq<char>| before_cutoff(s, day_of_secs((safe_cutoff / 1_000_000) as u64)),
        ),
{
    let cutoff_day: i32 = EPOCH_DAYS_FROM_CE + (safe_cutoff / 1_000_000 / 86400) as i32;
    let ghost src = texts_of(dates@);
    let ghost keep = |s: Seq<char>| before_cutoff(s, day_of_secs((safe_cutoff / 1_000_000) as u64));
    let mut kept: Vec<String> = Vec::new();
    let mut i: usize = 0;
    while i < dates.len()
        invariant
            i <= dates@.len(),
            src == texts_of(dates@),
            cutoff_day == day_of_secs((safe_cutoff / 1_000_000) as u64),
            keep == (|s: Seq<char>| before_cutoff(s, day_of_secs((safe_cutoff / 1_000_000) as u64))),
            texts_of(kept@) == src.take(i as int).filter(keep),
        decreases dates.len() - i,
    {
        proof {
            reveal(Seq::filter);
            assert(src.take(i as int + 1).drop_last() =~= src.take(i as int));
            assert(src.take(i as int + 1).last() == dates@[i as int]@);
        }
        let ok = match parse_ymd(dates[i].as_str()) {
            Some(d) => d < cutoff_day,
            None => false,
        };
        if ok {
            kept.push(dates[i].clone());
            proof {
                assert(texts_of(kept@) =~= texts_of(kept@.drop_last()).push(dates@[i as int]@));
            }
        }
        i = i + 1;
    }
    proof {
        assert(src.take(src.len() as int) =~= src);
    }
    *dates = kept;
}

/// Whether `timestamp_us` falls on the UTC day of `now_us`.
pub open spec fn spec_is_today(timestamp_us: u64, now_us: u64) -> bool {
    let today = (now_us / DAY_US) * DAY_US;
    let tomorrow = if now_us / DAY_US + EPOCH_DAYS_FROM_CE < MAX_DAYS_FROM_CE {
        today + DAY_US
    } else {
        today
    };
    today <= timestamp_us && timestamp_us < tomorrow
}

/// Whether `timestamp_us` falls on the UTC day of `now_us`.
pub fn is_today_at(timestamp_us: u64, now_us: u64) -> (b: bool)
    requires
        now_us / 1_000_000 <= MAX_UTC_SECS,
    ensures
        b == spec_is_today(timestamp_us, now_us),
{
    let day = now_us / DAY_US;
    let today = day * DAY_US;
    let tomorrow = if day + (EPOCH_DAYS_FROM_CE as u64) < (MAX_DAYS_FROM_CE as u64) {
        today + DAY_US
    } else {
        today
    };
    timestamp_us >= today && timestamp_us < tomorrow
}

/// Whether `timestamp_us` falls on today's UTC date: the answer for some
/// time, the one the clock reads.
pub fn is_today(timestamp_us: u64) -> (b: bool)
    ensures
        exists|now_us: u64| now_us / 1_000_000 <= MAX_UTC_SECS && #[trigger] spec_is_today(timestamp_us, now_us) == b,
{
    let now = utc_now_micros();
    let now_us: u64 = if now > MAX_UTC_US {
        MAX_UTC_US
    } else {
        now
    };
    is_today_at(timestamp_us, now_us)
}

} // verus!
