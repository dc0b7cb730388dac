use chrono::Datelike;
use stock_ticker::poll::{
    interval_secs, is_trading, plan_round, round_event, LocalDateTime, RoundEvent, Weekday,
};

fn dt(y: i32, m: u32, d: u32, h: u32, min: u32) -> LocalDateTime {
    LocalDateTime::new(y, m, d, h, min, 0, 0).unwrap()
}

#[test]
fn weekday_morning_session_open() {
    // 2026-06-29 is a Monday
    assert!(is_trading(dt(2026, 6, 29, 9, 30)));
    assert!(is_trading(dt(2026, 6, 29, 10, 0)));
    assert!(is_trading(dt(2026, 6, 29, 11, 30)));
}

#[test]
fn weekday_afternoon_session() {
    assert!(is_trading(dt(2026, 6, 29, 13, 0)));
    assert!(is_trading(dt(2026, 6, 29, 14, 59)));
    assert!(is_trading(dt(2026, 6, 29, 15, 0)));
}

#[test]
fn lunch_break_and_pre_open_closed() {
    assert!(!is_trading(dt(2026, 6, 29, 9, 29)));
    assert!(!is_trading(dt(2026, 6, 29, 12, 0)));
    assert!(!is_trading(dt(2026, 6, 29, 15, 1)));
}

#[test]
fn weekend_closed() {
    // 2026-06-27 is a Saturday, 06-28 a Sunday
    assert!(!is_trading(dt(2026, 6, 27, 10, 0)));
    assert!(!is_trading(dt(2026, 6, 28, 14, 0)));
}

#[test]
fn interval_switches() {
    assert_eq!(interval_secs(true), 3);
    assert_eq!(interval_secs(false), 60);
}

#[test]
fn session_ends_at_the_exact_close() {
    let just_after = LocalDateTime::new(2026, 6, 29, 11, 30, 0, 1).unwrap();
    assert!(!is_trading(just_after));
    let last_second = LocalDateTime::new(2026, 6, 29, 14, 59, 59, 999_999_999).unwrap();
    assert!(is_trading(last_second));
    let before_open = LocalDateTime::new(2026, 6, 29, 9, 29, 59, 999_999_999).unwrap();
    assert!(!is_trading(before_open));
}

#[test]
fn weekdays_agree_with_chrono() {
    let mut date = chrono::NaiveDate::from_ymd_opt(1899, 12, 20).unwrap();
    for _ in 0..60000 {
        let ours = LocalDateTime::new(date.year(), date.month(), date.day(), 0, 0, 0, 0).unwrap();
        let theirs = match date.weekday() {
            chrono::Weekday::Mon => Weekday::Mon,
            chrono::Weekday::Tue => Weekday::Tue,
            chrono::Weekday::Wed => Weekday::Wed,
            chrono::Weekday::Thu => Weekday::Thu,
            chrono::Weekday::Fri => Weekday::Fri,
            chrono::Weekday::Sat => Weekday::Sat,
            chrono::Weekday::Sun => Weekday::Sun,
        };
        assert_eq!(ours.weekday(), theirs, "{}", date);
        date = date.succ_opt().unwrap();
    }
    for y in [-262143, -1000, -1, 0, 1, 400, 1600, 2000, 2100, 262142] {
        for m in 0..=13u32 {
            for d in [0u32, 1, 28, 29, 30, 31, 32] {
                let ours = LocalDateTime::new(y, m, d, 0, 0, 0, 0).map(|x| x.weekday());
                let theirs = chrono::NaiveDate::from_ymd_opt(y, m, d).map(|x| x.weekday() as u32);
                assert_eq!(ours.map(|w| w as u32), theirs, "{} {} {}", y, m, d);
            }
        }
    }
}

#[test]
fn invalid_dates_and_times_are_refused() {
    assert!(LocalDateTime::new(2026, 2, 29, 10, 0, 0, 0).is_none());
    assert!(LocalDateTime::new(2024, 2, 29, 10, 0, 0, 0).is_some());
    assert!(LocalDateTime::new(1900, 2, 29, 10, 0, 0, 0).is_none());
    assert!(LocalDateTime::new(2026, 13, 1, 10, 0, 0, 0).is_none());
    assert!(LocalDateTime::new(2026, 6, 0, 10, 0, 0, 0).is_none());
    assert!(LocalDateTime::new(262143, 1, 1, 10, 0, 0, 0).is_none());
    assert!(LocalDateTime::new(2026, 6, 29, 24, 0, 0, 0).is_none());
    assert!(LocalDateTime::new(2026, 6, 29, 10, 60, 0, 0).is_none());
    assert!(LocalDateTime::new(2026, 6, 29, 10, 0, 58, 1_500_000_000).is_none());
    assert!(LocalDateTime::new(2026, 6, 29, 10, 0, 59, 1_500_000_000).is_some());
    for (h, mi, s, n) in [(23, 59, 59, 1_999_999_999u32), (0, 0, 30, 1_000_000_000), (12, 0, 0, 0)] {
        let ours = LocalDateTime::new(2026, 6, 29, h, mi, s, n).is_some();
        let theirs = chrono::NaiveTime::from_hms_nano_opt(h, mi, s, n).is_some();
        assert_eq!(ours, theirs);
    }
}

#[test]
fn rounds_fetch_only_in_sessions() {
    let codes = vec!["sh600519".to_string()];
    let open = plan_round(dt(2026, 6, 29, 10, 0), &codes);
    assert!(open.fetch);
    assert_eq!(open.sleep_secs, 3);
    let empty = plan_round(dt(2026, 6, 29, 10, 0), &[]);
    assert!(!empty.fetch);
    assert_eq!(empty.sleep_secs, 3);
    let lunch = plan_round(dt(2026, 6, 29, 12, 0), &codes);
    assert!(!lunch.fetch);
    assert_eq!(lunch.sleep_secs, 60);
    let weekend = plan_round(dt(2026, 6, 28, 10, 0), &codes);
    assert!(!weekend.fetch);
    assert_eq!(weekend.sleep_secs, 60);
}

#[test]
fn fetch_result_picks_the_event() {
    let ok: Result<Vec<u32>, String> = Ok(vec![1]);
    let ev = round_event(ok);
    assert_eq!(ev.name(), "quotes-updated");
    assert!(matches!(ev, RoundEvent::QuotesUpdated(v) if v == vec![1]));
    let err: Result<Vec<u32>, String> = Err("timeout".to_string());
    let ev = round_event(err);
    assert_eq!(ev.name(), "quotes-stale");
    assert!(matches!(ev, RoundEvent::QuotesStale(e) if e == "timeout"));
}
