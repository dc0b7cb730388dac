//! Trading sessions of the A-share market, and the plan of each polling round.
//!
//! Continuous trading runs Monday to Friday, 09:30–11:30 and 13:00–15:00 local time, both
//! ends included. During a session quotes are fetched every 3 seconds; outside of one nothing
//! is fetched, and the poller only wakes every 60 seconds to notice the opening.

use chrono::Datelike;
use vstd::prelude::*;

verus! {

#[derive(Clone, Copy, Debug, PartialEq, Eq, Structural)]
pub enum Weekday {
    Mon,
    Tue,
    Wed,
    Thu,
    Fri,
    Sat,
    Sun,
}

pub open spec fn is_leap_year(y: int) -> bool {
    y % 4 == 0 && (y % 100 != 0 || y % 400 == 0)
}

pub open spec fn days_in_month(y: int, m: int) -> int {
    if m == 2 {
        if is_leap_year(y) {
            29
        } else {
            28
        }
    } else if m == 4 || m == 6 || m == 9 || m == 11 {
        30
    } else {
        31
    }
}

/// A day of the proleptic Gregorian calendar within the years that `chrono::NaiveDate`
/// represents.
pub open spec fn is_calendar_date(y: int, m: int, d: int) -> bool {
    &&& -262143 <= y <= 262142
    &&& 1 <= m <= 12
    &&& 1 <= d <= days_in_month(y, m)
}

/// The day of the week of a date of the proleptic Gregorian calendar, counted from Monday as
/// 0 (Sakamoto's method; `/` and `%` round down, so it holds for years before 1 too).
pub open spec fn weekday_index(y: int, m: int, d: int) -> int {
    let t = seq![0int, 3, 2, 5, 0, 3, 5, 1, 4, 6, 2, 4];
    let yy = if m < 3 {
        y - 1
    } else {
        y
    };
    let from_sunday = (yy + yy / 4 - yy / 100 + yy / 400 + t[m - 1] + d) % 7;
    (from_sunday + 6) % 7
}

pub open spec fn weekday_from_index(i: int) -> Weekday {
    if i == 0 {
        Weekday::Mon
    } else if i == 1 {
        Weekday::Tue
    } else if i == 2 {
        Weekday::Wed
    } else if i == 3 {
        Weekday::Thu
    } else if i == 4 {
        Weekday::Fri
    } else if i == 5 {
        Weekday::Sat
    } else {
        Weekday::Sun
    }
}

pub open spec fn calendar_weekday(y: int, m: int, d: int) -> Weekday {
    weekday_from_index(weekday_index(y, m, d))
}

/// A time of day as `chrono::NaiveTime::from_hms_nano_opt` accepts it: the nanoseconds may
/// reach into a second second only in the last second of a minute (a leap second).
pub open spec fn is_clock_time(h: int, mi: int, s: int, n: int) -> bool {
    &&& 0 <= h < 24
    &&& 0 <= mi < 60
    &&& 0 <= s < 60
    &&& 0 <= n < 2_000_000_000
    &&& (n < 1_000_000_000 || s == 59)
}

/// Calls `chrono::NaiveDate::from_ymd_opt` and, on a date, `chrono::Datelike::weekday`. The
/// contract claims what chrono documents: a date exists exactly for a valid month and day of a
/// year within its range, and its weekday is that of the proleptic Gregorian calendar.
#[verifier::external_body]
fn chrono_weekday(year: i32, month: u32, day: u32) -> (r: Option<Weekday>)
    ensures
        r is Some <==> is_calendar_date(year as int, month as int, day as int),
        r matches Some(w) ==> w == calendar_weekday(year as int, month as int, day as int),
{
    match chrono::NaiveDate::from_ymd_opt(year, month, day) {
        Some(date) => Some(
            match date.weekday() {
                chrono::Weekday::Mon => Weekday::Mon,
                chrono::Weekday::Tue => Weekday::Tue,
                chrono::Weekday::Wed => Weekday::Wed,
                chrono::Weekday::Thu => Weekday::Thu,
                chrono::Weekday::Fri => Weekday::Fri,
                chrono::Weekday::Sat => Weekday::Sat,
                chrono::Weekday::Sun => Weekday::Sun,
            },
        ),
        None => None,
    }
}

pub struct DateTimeView {
    pub year: int,
    pub month: int,
    pub day: int,
    pub weekday: Weekday,
    pub hour: int,
    pub minute: int,
    pub second: int,
    pub nano: int,
}

/// A local date and time, with the day of the week of its date.
pub struct LocalDateTime {
    year: i32,
    month: u32,
    day: u32,
    weekday: Weekday,
    hour: u32,
    minute: u32,
    second: u32,
    nano: u32,
}

impl View for LocalDateTime {
    type V = DateTimeView;

    closed spec fn view(&self) -> DateTimeView {
        DateTimeView {
            year: self.year as int,
            month: self.month as int,
            day: self.day as int,
            weekday: self.weekday,
            hour: self.hour as int,
            minute: self.minute as int,
            second: self.second as int,
            nano: self.nano as int,
        }
    }
}

/// A date and time that exists, with the weekday of its date.
pub open spec fn is_valid_date_time(v: DateTimeView) -> bool {
    &&& is_calendar_date(v.year, v.month, v.day)
    &&& v.weekday == calendar_weekday(v.year, v.month, v.day)
    &&& is_clock_time(v.hour, v.minute, v.second, v.nano)
}

impl LocalDateTime {
    #[verifier::type_invariant]
    closed spec fn wf(self) -> bool {
        is_valid_date_time(self@)
    }

    /// The date and time of the given fields, where they name one that exists.
    pub fn new(year: i32, month: u32, day: u32, hour: u32, minute: u32, second: u32, nano: u32) -> (r:
        Option<LocalDateTime>)
        ensures
            r is Some <==> is_calendar_date(year as int, month as int, day as int)
                && is_clock_time(hour as int, minute as int, second as int, nano as int),
            r matches Some(dt) ==> dt@ == (DateTimeView {
                year: year as int,
                month: month as int,
                day: day as int,
                weekday: calendar_weekday(year as int, month as int, day as int),
                hour: hour as int,
                minute: minute as int,
                second: second as int,
                nano: nano as int,
            }),
    {
        let weekday = match chrono_weekday(year, month, day) {
            Some(w) => w,
            None => {
                return None;
            },
        };
        if hour >= 24 || minute >= 60 || second >= 60 || nano >= 2_000_000_000 || (nano
            >= 1_000_000_000 && second != 59) {
            return None;
        }
        Some(LocalDateTime { year, month, day, weekday, hour, minute, second, nano })
    }

    pub fn weekday(&self) -> (w: Weekday)
        ensures
            w == self@.weekday,
    {
        self.weekday
    }
}

/// Seconds since midnight.
pub open spec fn second_of_day(v: DateTimeView) -> int {
    v.hour * 3600 + v.minute * 60 + v.second
}

/// The time of `v` lies between `open` and `close` (seconds since midnight), both included,
/// with times ordered as `chrono::NaiveTime` orders them (by second, then by nanosecond).
pub open spec fn within(v: DateTimeView, open: int, close: int) -> bool {
    &&& open <= second_of_day(v)
    &&& second_of_day(v) < close || (second_of_day(v) == close && v.nano == 0)
}

pub open spec fn is_weekend(w: Weekday) -> bool {
    w == Weekday::Sat || w == Weekday::Sun
}

/// Monday to Friday, 09:30–11:30 or 13:00–15:00.
pub open spec fn is_trading_time(v: DateTimeView) -> bool {
    &&& !is_weekend(v.weekday)
    &&& within(v, 9int * 3600 + 30 * 60, 11int * 3600 + 30 * 60) || within(v, 13int * 3600, 15int * 3600)
}

/// Whether the market is in continuous trading at local time `dt`.
pub fn is_trading(dt: LocalDateTime) -> (b: bool)
    ensures
        b == is_trading_time(dt@),
{
    match dt.weekday {
        Weekday::Sat | Weekday::Sun => {
            return false;
        },
        _ => {},
    }
    let t: u64 = (dt.hour as u64) * 3600 + (dt.minute as u64) * 60 + (dt.second as u64);
    let morning = 9 * 3600 + 30 * 60 <= t && (t < 11 * 3600 + 30 * 60 || (t == 11 * 3600 + 30
        * 60 && dt.nano == 0));
    let afternoon = 13 * 3600 <= t && (t < 15 * 3600 || (t == 15 * 3600 && dt.nano == 0));
    morning || afternoon
}

/// Seconds to sleep before the next round: 3 during a session, 60 outside of one.
pub fn interval_secs(trading: bool) -> (secs: u64)
    ensures
        secs == (if trading {
            3u64
        } else {
            60u64
        }),
{
    if trading {
        3
    } else {
        60
    }
}

/// What one round of the poller does.
pub struct PollPlan {
    /// Whether to fetch the watchlist's quotes now.
    pub fetch: bool,
    /// How long to sleep after the round.
    pub sleep_secs: u64,
}

/// The plan of a polling round at local time `now` for the watchlist `codes`: fetch only in a
/// session and only for a non-empty watchlist; sleep 3 seconds in a session, else 60.
pub fn plan_round(now: LocalDateTime, codes: &[String]) -> (p: PollPlan)
    ensures
        p.fetch == (is_trading_time(now@) && codes@.len() > 0),
        p.sleep_secs == (if is_trading_time(now@) {
            3u64
        } else {
            60u64
        }),
{
    let trading = is_trading(now);
    PollPlan { fetch: trading && codes.len() > 0, sleep_secs: interval_secs(trading) }
}

/// What a round that fetched tells the front end: the new quotes, or the error of a fetch that
/// failed, which marks the shown quotes as stale.
pub enum RoundEvent<T, E> {
    QuotesUpdated(T),
    QuotesStale(E),
}

impl<T, E> RoundEvent<T, E> {
    /// The name under which the event is emitted.
    pub fn name(&self) -> (n: &'static str)
        ensures
            self is QuotesUpdated ==> n@ == "quotes-updated"@,
            self is QuotesStale ==> n@ == "quotes-stale"@,
    {
        match self {
            RoundEvent::QuotesUpdated(_) => "quotes-updated",
            RoundEvent::QuotesStale(_) => "quotes-stale",
        }
    }
}

/// The event of a round on the result of its fetch: `quotes-updated` with the quotes on
/// success, `quotes-stale` with the error on failure.
pub fn round_event<T, E>(fetched: Result<T, E>) -> (ev: RoundEvent<T, E>)
    ensures
        match fetched {
            Ok(q) => ev == RoundEvent::<T, E>::QuotesUpdated(q),
            Err(e) => ev == RoundEvent::<T, E>::QuotesStale(e),
        },
{
    match fetched {
        Ok(q) => RoundEvent::QuotesUpdated(q),
        Err(e) => RoundEvent::QuotesStale(e),
    }
}

/// Saturday and Sunday have no session, whatever the time.
pub proof fn law_weekend_closed(v: DateTimeView)
    requires
        v.weekday == Weekday::Sat || v.weekday == Weekday::Sun,
    ensures
        !is_trading_time(v),
{
}

/// Before 09:30, in the lunch break after 11:30 and before 13:00, and after 15:00, there is no
/// session.
pub proof fn law_closed_between_sessions(v: DateTimeView)
    requires
        ({
            let t = v.hour * 3600 + v.minute * 60 + v.second;
            ||| t < 34200
            ||| (41400 < t || (t == 41400 && v.nano > 0)) && t < 46800
            ||| 54000 < t
            ||| t == 54000 && v.nano > 0
        }),
    ensures
        !is_trading_time(v),
{
}

/// Monday to Friday, from 09:30 to 11:30 and from 13:00 to 15:00, both ends included, the
/// market is trading: the converse of the closed-time laws.
pub proof fn law_open_in_sessions(v: DateTimeView)
    requires
        v.weekday == Weekday::Mon || v.weekday == Weekday::Tue || v.weekday == Weekday::Wed
            || v.weekday == Weekday::Thu || v.weekday == Weekday::Fri,
        ({
            let t = v.hour * 3600 + v.minute * 60 + v.second;
            ||| 34200 <= t < 41400
            ||| t == 41400 && v.nano == 0
            ||| 46800 <= t < 54000
            ||| t == 54000 && v.nano == 0
        }),
    ensures
        is_trading_time(v),
{
}

/// The day after a date: the next day of the month, else the first of the next month, else
/// the first of January of the next year.
pub open spec fn next_day(y: int, m: int, d: int) -> (int, int, int) {
    if d < days_in_month(y, m) {
        (y, m, d + 1)
    } else if m < 12 {
        (y, m + 1, 1)
    } else {
        (y + 1, 1, 1)
    }
}

/// Each day's weekday follows the previous day's, across months and years alike.
pub proof fn law_weekday_advances(y: int, m: int, d: int)
    requires
        1 <= m <= 12,
        1 <= d <= days_in_month(y, m),
    ensures
        ({
            let (y2, m2, d2) = next_day(y, m, d);
            weekday_index(y2, m2, d2) == (weekday_index(y, m, d) + 1) % 7
        }),
{
    let yy = if m < 3 {
        y - 1
    } else {
        y
    };
    let base = yy + yy / 4 - yy / 100 + yy / 400;
    if m == 2 && d == days_in_month(y, m) {
        // the leap rule in terms of y - 1 for January and February
        assert(is_leap_year(y) <==> (y % 4 == 0 && (y % 100 != 0 || y % 400 == 0)));
        assert((y - 1) / 4 + 1 == y / 4 <==> y % 4 == 0);
        assert((y - 1) / 100 + 1 == y / 100 <==> y % 100 == 0);
        assert((y - 1) / 400 + 1 == y / 400 <==> y % 400 == 0);
        assert(y / 4 - (y - 1) / 4 <= 1);
        assert(y / 100 - (y - 1) / 100 <= 1);
        assert(y / 400 - (y - 1) / 400 <= 1);
        assert(y / 4 - (y - 1) / 4 >= 0);
        assert(y / 100 - (y - 1) / 100 >= 0);
        assert(y / 400 - (y - 1) / 400 >= 0);
    }
}

/// 29 June 2026 is a Monday; with the law above this fixes every weekday.
pub proof fn law_weekday_anchor()
    ensures
        calendar_weekday(2026, 6, 29) == Weekday::Mon,
{
}

} // verus!
