use tk::balance::{
    DayStats, Rules, TodayCtx, check_overlap, day_stats, effective_kind, is_working_day,
    provisional_net, provisional_net_with, running_balance, running_minutes,
};
use tk::breaks::{BreakTier, default_tiers, entry_nets, gaps_between, recorded_gaps, session_deduction, sessions};
use tk::date::{Date, DateTime, Time};
use tk::error::CoreError;
use tk::holidays::{HolidayCalendar, easter_defined, easter_sunday, saxony_holidays};
use tk::minutes::Minutes;
use tk::time_parse::{clock_out_end, parse_date, parse_time, parse_time_range};
use tk::types::{Day, DayKind, Entry};

fn d(y: i32, m: u32, dd: u32) -> Date {
    Date::from_ymd_opt(y, m, dd).unwrap()
}

fn t(h: u32, m: u32) -> Time {
    Time::from_hms_opt(h, m, 0).unwrap()
}

fn rules() -> Rules {
    Rules {
        daily_target: Minutes(468),
        tiers: default_tiers(),
        start_date: d(2026, 9, 1),
        initial_balance: Minutes(60),
    }
}

fn cal() -> HolidayCalendar {
    HolidayCalendar::new(vec![])
}

fn entry(id: i64, date: Date, s: Time, e: Time) -> Entry {
    Entry {
        id,
        date,
        start: s,
        end: e,
        project: "Alpha".into(),
        comment: String::new(),
        break_share: None,
    }
}

fn work(date: Date, entries: Vec<Entry>) -> Day {
    Day {
        date,
        kind: DayKind::Work,
        entries,
    }
}

fn ctx(today: Date, clocked_in: bool) -> TodayCtx {
    TodayCtx { today, clocked_in }
}

fn span(id: i64, s: (u32, u32), e: (u32, u32)) -> Entry {
    entry(id, d(2026, 9, 14), t(s.0, s.1), t(e.0, e.1))
}

#[test]
fn working_days_are_mon_to_fri() {
    assert!(is_working_day(d(2026, 9, 14)));
    assert!(is_working_day(d(2026, 9, 18)));
    assert!(!is_working_day(d(2026, 9, 19)));
    assert!(!is_working_day(d(2026, 9, 20)));
}

#[test]
fn effective_kind_prefers_stored_then_holiday_then_work() {
    let c = cal();
    let xmas = d(2026, 12, 25);
    assert_eq!(effective_kind(None, xmas, &c), DayKind::Holiday);
    assert_eq!(effective_kind(Some(&DayKind::Work), xmas, &c), DayKind::Work);
    assert_eq!(effective_kind(None, d(2026, 9, 15), &c), DayKind::Work);
}

#[test]
fn full_past_work_day() {
    let day = work(d(2026, 9, 14), vec![entry(1, d(2026, 9, 14), t(8, 0), t(17, 0))]);
    let s = day_stats(&day, &rules(), &cal(), &ctx(d(2026, 9, 15), false));
    assert_eq!(s.gross, Minutes(540));
    assert_eq!(s.deduction, Minutes(48));
    assert_eq!(s.net, Minutes(492));
    assert_eq!(s.target, Minutes(468));
    assert_eq!(s.balance, Minutes(24));
    assert!(!s.missing);
}

#[test]
fn deduction_is_per_day_not_per_entry() {
    // The tiers are charged per session, not per entry and not on the day's
    // total: two three-hour sessions an hour apart are each under the first
    // tier, so nothing is deducted although the day has six hours.
    let day = work(
        d(2026, 9, 14),
        vec![
            entry(1, d(2026, 9, 14), t(8, 0), t(11, 0)),
            entry(2, d(2026, 9, 14), t(12, 0), t(15, 0)),
        ],
    );
    let s = day_stats(&day, &rules(), &cal(), &ctx(d(2026, 9, 15), false));
    assert_eq!(s.gross, Minutes(360));
    assert_eq!(s.deduction, Minutes(0));
    assert_eq!(s.gaps, Minutes(60));
    // Two entries that meet make one six-hour session, charged on its length.
    let seamless = work(
        d(2026, 9, 14),
        vec![
            entry(1, d(2026, 9, 14), t(8, 0), t(11, 0)),
            entry(2, d(2026, 9, 14), t(11, 0), t(14, 0)),
        ],
    );
    let s = day_stats(&seamless, &rules(), &cal(), &ctx(d(2026, 9, 15), false));
    assert_eq!(s.gross, Minutes(360));
    assert_eq!(s.deduction, Minutes(18));
}

#[test]
fn past_weekday_without_entries_is_missing() {
    let s = day_stats(&work(d(2026, 9, 14), vec![]), &rules(), &cal(), &ctx(d(2026, 9, 15), false));
    assert!(s.missing);
    assert_eq!(s.balance, Minutes(-468));
}

#[test]
fn weekend_has_no_target_and_is_not_missing() {
    let s = day_stats(&work(d(2026, 9, 12), vec![]), &rules(), &cal(), &ctx(d(2026, 9, 15), false));
    assert!(s.is_weekend);
    assert!(!s.missing);
    assert_eq!(s.balance, Minutes(0));
    let s2 = day_stats(
        &work(d(2026, 9, 12), vec![entry(1, d(2026, 9, 12), t(10, 0), t(12, 0))]),
        &rules(),
        &cal(),
        &ctx(d(2026, 9, 15), false),
    );
    assert_eq!(s2.balance, Minutes(120));
}

#[test]
fn kinds() {
    let r = rules();
    let c = cal();
    let cx = ctx(d(2026, 9, 15), false);
    let mk = |kind| Day {
        date: d(2026, 9, 14),
        kind,
        entries: vec![],
    };
    assert_eq!(day_stats(&mk(DayKind::Vacation), &r, &c, &cx).balance, Minutes(0));
    assert_eq!(day_stats(&mk(DayKind::Sick), &r, &c, &cx).balance, Minutes(0));
    assert_eq!(
        day_stats(&mk(DayKind::Absence { label: "trip".into() }), &r, &c, &cx).balance,
        Minutes(0)
    );
    assert_eq!(day_stats(&mk(DayKind::Flex), &r, &c, &cx).balance, Minutes(-468));
    let hol = Day {
        date: d(2026, 12, 25),
        kind: DayKind::Holiday,
        entries: vec![],
    };
    let hs = day_stats(&hol, &r, &c, &cx);
    assert_eq!(hs.balance, Minutes(0));
    assert_eq!(hs.holiday_name.as_deref(), Some("1. Weihnachtstag"));
    assert!(!day_stats(&mk(DayKind::Vacation), &r, &c, &cx).missing);
}

#[test]
fn today_rules() {
    let today = d(2026, 9, 15);
    let r = rules();
    let c = cal();
    let s = day_stats(&work(today, vec![]), &r, &c, &ctx(today, false));
    assert_eq!(s.target, Minutes(0));
    assert!(!s.missing);
    let s = day_stats(&work(today, vec![entry(1, today, t(8, 0), t(12, 0))]), &r, &c, &ctx(today, false));
    assert_eq!(s.target, Minutes(468));
    assert_eq!(s.balance, Minutes(240 - 18 - 468));
    let s = day_stats(&work(today, vec![entry(1, today, t(8, 0), t(12, 0))]), &r, &c, &ctx(today, true));
    assert_eq!(s.target, Minutes(0));
    let s = day_stats(&work(d(2026, 9, 16), vec![]), &r, &c, &ctx(today, false));
    assert_eq!(s.target, Minutes(0));
    assert!(!s.missing);
}

#[test]
fn running_balance_sums_from_initial() {
    let r = rules();
    let c = cal();
    let cx = ctx(d(2026, 9, 16), false);
    let days = [
        work(d(2026, 9, 14), vec![entry(1, d(2026, 9, 14), t(8, 0), t(17, 0))]),
        work(d(2026, 9, 15), vec![]),
    ];
    let stats: Vec<DayStats> = days.iter().map(|dd| day_stats(dd, &r, &c, &cx)).collect();
    assert_eq!(running_balance(&stats, &r), Minutes(60 + 24 - 468));
}

#[test]
fn overlap_detection() {
    let ex = vec![
        entry(1, d(2026, 9, 14), t(9, 0), t(12, 0)),
        entry(2, d(2026, 9, 14), t(22, 0), t(2, 0)),
    ];
    assert!(check_overlap(&ex, t(12, 0), t(13, 0), None).is_ok());
    assert_eq!(check_overlap(&ex, t(11, 0), t(13, 0), None), Err(CoreError::Overlap));
    assert_eq!(check_overlap(&ex, t(23, 0), t(23, 30), None), Err(CoreError::Overlap));
    assert!(check_overlap(&ex, t(11, 0), t(13, 0), Some(1)).is_ok());
    assert_eq!(check_overlap(&ex, t(12, 0), t(12, 0), None), Err(CoreError::Overlap));
}

#[test]
fn provisional_net_includes_running_entry() {
    let today = d(2026, 9, 15);
    let ex = vec![entry(1, today, t(8, 0), t(12, 0))];
    assert_eq!(provisional_net(&ex, t(13, 0), t(15, 30), &rules()), Minutes(342));
}

#[test]
fn running_minutes_spans_midnight() {
    let start = DateTime::new(d(2026, 9, 14), t(23, 0));
    let now = DateTime::new(d(2026, 9, 15), t(1, 0));
    assert_eq!(running_minutes(start, now), Minutes(120));
    assert_eq!(running_minutes(start, start), Minutes(0));
    assert_eq!(running_minutes(start, DateTime::new(d(2026, 9, 14), t(22, 0))), Minutes(0));
    assert_eq!(running_minutes(start, DateTime::new(d(2026, 9, 16), t(0, 0))), Minutes(1500));
    let ex = vec![entry(1, d(2026, 9, 14), t(8, 0), t(12, 0))];
    assert_eq!(
        provisional_net_with(&ex, running_minutes(start, now), &rules()),
        Minutes(240 + 120 - 18)
    );
}

#[test]
fn gaps_of_a_seamless_day_are_zero() {
    let day = [span(1, (8, 0), (12, 0)), span(2, (12, 0), (17, 0))];
    assert_eq!(recorded_gaps(&day), Minutes(0));
    assert_eq!(recorded_gaps(&[span(1, (8, 0), (17, 0))]), Minutes(0));
    assert_eq!(recorded_gaps(&[]), Minutes(0));
}

#[test]
fn gaps_sum_the_pauses_between_consecutive_entries() {
    let day = [span(1, (8, 0), (12, 0)), span(2, (12, 45), (17, 0))];
    assert_eq!(recorded_gaps(&day), Minutes(45));
    let day = [span(1, (8, 0), (10, 0)), span(2, (10, 15), (12, 0)), span(3, (12, 15), (17, 0))];
    assert_eq!(recorded_gaps(&day), Minutes(30));
}

#[test]
fn gaps_sort_by_start_and_never_go_negative() {
    let day = [span(2, (12, 45), (17, 0)), span(1, (8, 0), (12, 0))];
    assert_eq!(recorded_gaps(&day), Minutes(45));
    let day = [span(1, (8, 0), (12, 0)), span(2, (11, 0), (17, 0))];
    assert_eq!(recorded_gaps(&day), Minutes(0));
    let day = [span(1, (8, 0), (12, 0)), span(2, (22, 0), (2, 0))];
    assert_eq!(recorded_gaps(&day), Minutes(600));
}

#[test]
fn easter_known_dates() {
    assert_eq!(easter_sunday(2024), d(2024, 3, 31));
    assert_eq!(easter_sunday(2025), d(2025, 4, 20));
    assert_eq!(easter_sunday(2026), d(2026, 4, 5));
    assert_eq!(easter_sunday(2030), d(2030, 4, 21));
}

#[test]
fn matches_known_holidays_of_2024_and_2026() {
    let mut y2026: Vec<(Date, String)> = saxony_holidays(2026)
        .into_iter()
        .map(|(x, n)| (x, n.to_string()))
        .collect();
    y2026.sort();
    let expected = vec![
        (d(2026, 1, 1), "Neujahr"),
        (d(2026, 4, 3), "Karfreitag"),
        (d(2026, 4, 6), "Ostermontag"),
        (d(2026, 5, 1), "Tag der Arbeit"),
        (d(2026, 5, 14), "Christi Himmelfahrt"),
        (d(2026, 5, 25), "Pfingstmontag"),
        (d(2026, 10, 3), "Tag der Deutschen Einheit"),
        (d(2026, 10, 31), "Reformationstag"),
        (d(2026, 11, 18), "Buß- und Bettag"),
        (d(2026, 12, 25), "1. Weihnachtstag"),
        (d(2026, 12, 26), "2. Weihnachtstag"),
    ];
    let expected: Vec<(Date, String)> = expected.into_iter().map(|(x, n)| (x, n.to_string())).collect();
    assert_eq!(y2026, expected);
    let y2024 = saxony_holidays(2024);
    assert!(y2024.contains(&(d(2024, 3, 29), "Karfreitag")));
    assert!(y2024.contains(&(d(2024, 4, 1), "Ostermontag")));
    assert!(y2024.contains(&(d(2024, 5, 9), "Christi Himmelfahrt")));
    assert!(y2024.contains(&(d(2024, 5, 20), "Pfingstmontag")));
    assert!(y2024.contains(&(d(2024, 11, 20), "Buß- und Bettag")));
}

/// The Saxon holidays of 2024 to 2030, one per line.
const SAXONY_2024_TO_2030: &str = "
2024-01-01 Neujahr
2024-03-29 Karfreitag
2024-04-01 Ostermontag
2024-05-01 Tag der Arbeit
2024-05-09 Christi Himmelfahrt
2024-05-20 Pfingstmontag
2024-10-03 Tag der Deutschen Einheit
2024-10-31 Reformationstag
2024-11-20 Buß- und Bettag
2024-12-25 1. Weihnachtstag
2024-12-26 2. Weihnachtstag
2025-01-01 Neujahr
2025-04-18 Karfreitag
2025-04-21 Ostermontag
2025-05-01 Tag der Arbeit
2025-05-29 Christi Himmelfahrt
2025-06-09 Pfingstmontag
2025-10-03 Tag der Deutschen Einheit
2025-10-31 Reformationstag
2025-11-19 Buß- und Bettag
2025-12-25 1. Weihnachtstag
2025-12-26 2. Weihnachtstag
2026-01-01 Neujahr
2026-04-03 Karfreitag
2026-04-06 Ostermontag
2026-05-01 Tag der Arbeit
2026-05-14 Christi Himmelfahrt
2026-05-25 Pfingstmontag
2026-10-03 Tag der Deutschen Einheit
2026-10-31 Reformationstag
2026-11-18 Buß- und Bettag
2026-12-25 1. Weihnachtstag
2026-12-26 2. Weihnachtstag
2027-01-01 Neujahr
2027-03-26 Karfreitag
2027-03-29 Ostermontag
2027-05-01 Tag der Arbeit
2027-05-06 Christi Himmelfahrt
2027-05-17 Pfingstmontag
2027-10-03 Tag der Deutschen Einheit
2027-10-31 Reformationstag
2027-11-17 Buß- und Bettag
2027-12-25 1. Weihnachtstag
2027-12-26 2. Weihnachtstag
2028-01-01 Neujahr
2028-04-14 Karfreitag
2028-04-17 Ostermontag
2028-05-01 Tag der Arbeit
2028-05-25 Christi Himmelfahrt
2028-06-05 Pfingstmontag
2028-10-03 Tag der Deutschen Einheit
2028-10-31 Reformationstag
2028-11-22 Buß- und Bettag
2028-12-25 1. Weihnachtstag
2028-12-26 2. Weihnachtstag
2029-01-01 Neujahr
2029-03-30 Karfreitag
2029-04-02 Ostermontag
2029-05-01 Tag der Arbeit
2029-05-10 Christi Himmelfahrt
2029-05-21 Pfingstmontag
2029-10-03 Tag der Deutschen Einheit
2029-10-31 Reformationstag
2029-11-21 Buß- und Bettag
2029-12-25 1. Weihnachtstag
2029-12-26 2. Weihnachtstag
2030-01-01 Neujahr
2030-04-19 Karfreitag
2030-04-22 Ostermontag
2030-05-01 Tag der Arbeit
2030-05-30 Christi Himmelfahrt
2030-06-10 Pfingstmontag
2030-10-03 Tag der Deutschen Einheit
2030-10-31 Reformationstag
2030-11-20 Buß- und Bettag
2030-12-25 1. Weihnachtstag
2030-12-26 2. Weihnachtstag
";

#[test]
fn matches_fixture_2024_to_2030() {
    let mut expected: Vec<(Date, String)> = SAXONY_2024_TO_2030
        .lines()
        .filter(|l| !l.trim().is_empty())
        .map(|l| {
            let (x, n) = l.split_once(' ').unwrap();
            (Date::parse_ymd(x).unwrap(), n.to_string())
        })
        .collect();
    expected.sort();
    let mut actual: Vec<(Date, String)> =
        (2024..=2030).flat_map(saxony_holidays).map(|(x, n)| (x, n.to_string())).collect();
    actual.sort();
    assert_eq!(actual, expected);
}

#[test]
fn years_before_zero_have_holidays_where_the_computus_gives_a_date() {
    // In the year -2 the computus lands on 31 February: no Easter, no holidays.
    assert!(!easter_defined(-2));
    assert!(!HolidayCalendar::new(vec![]).knows(d(-2, 6, 1)));
    // An extra holiday is known whatever the year.
    assert!(HolidayCalendar::new(vec![d(-2, 6, 1)]).knows(d(-2, 6, 1)));
    // In the year -1 it gives a date, and the year has its eleven holidays, in order.
    assert!(easter_defined(-1));
    let h = saxony_holidays(-1);
    assert_eq!(h.len(), 11);
    assert!(h.windows(2).all(|w| (w[0].0, w[0].1) <= (w[1].0, w[1].1)));
    assert_eq!(h[0], (d(-1, 1, 1), "Neujahr"));
    assert!(easter_defined(0) && easter_defined(2026));
}

#[test]
fn eleven_per_year_and_no_fronleichnam() {
    for y in 2020..=2040 {
        let h = saxony_holidays(y);
        assert_eq!(h.len(), 11, "year {y}");
        assert!(h.iter().all(|(_, n)| *n != "Fronleichnam"));
    }
}

#[test]
fn holidays_come_in_date_order() {
    for y in 2020..=2040 {
        let h = saxony_holidays(y);
        for w in h.windows(2) {
            assert!(w[0].0 <= w[1].0, "year {y}");
        }
    }
}

#[test]
fn calendar_with_extras() {
    let extra = d(2026, 12, 24);
    let cal = HolidayCalendar::new(vec![extra]);
    assert_eq!(cal.holiday_name(extra).as_deref(), Some("Extra holiday"));
    assert_eq!(cal.holiday_name(d(2026, 11, 18)).as_deref(), Some("Buß- und Bettag"));
    assert!(!cal.is_holiday(d(2026, 9, 15)));
}

#[test]
fn clock_out_end_never_produces_a_zero_length_entry() {
    let start = t(9, 0);
    let now = Time::from_hms_opt(9, 0, 42).unwrap();
    assert_eq!(clock_out_end(start, now), t(9, 1));
    let now = Time::from_hms_opt(15, 29, 59).unwrap();
    assert_eq!(clock_out_end(start, now), t(15, 29));
    let start = t(23, 59);
    let now = Time::from_hms_opt(23, 59, 30).unwrap();
    assert_eq!(clock_out_end(start, now), t(0, 0));
}

#[test]
fn parses_time_forms() {
    for (s, exp) in [
        ("8", t(8, 0)),
        ("800", t(8, 0)),
        ("0800", t(8, 0)),
        ("8:00", t(8, 0)),
        ("17:30", t(17, 30)),
        ("1730", t(17, 30)),
        ("17.30", t(17, 30)),
        ("0", t(0, 0)),
        ("2359", t(23, 59)),
    ] {
        assert_eq!(parse_time(s).unwrap(), exp, "input {s}");
    }
    for bad in ["", "abc", "2400", "1260", "12:60", "123456", "-1"] {
        assert!(parse_time(bad).is_err(), "input {bad}");
    }
}

#[test]
fn parses_dates() {
    let today = d(2026, 9, 15);
    assert_eq!(parse_date("today", today).unwrap(), today);
    assert_eq!(parse_date("yesterday", today).unwrap(), today.pred_opt().unwrap());
    assert_eq!(parse_date("tomorrow", today).unwrap(), today.succ_opt().unwrap());
    assert_eq!(parse_date("-1", today).unwrap(), today.pred_opt().unwrap());
    assert_eq!(parse_date("+2", today).unwrap(), d(2026, 9, 17));
    assert_eq!(parse_date("0", today).unwrap(), today);
    assert_eq!(parse_date("2026-01-31", today).unwrap(), d(2026, 1, 31));
    assert!(parse_date("2026-02-30", today).is_err());
    assert!(parse_date("nope", today).is_err());
}

#[test]
fn parses_range() {
    assert_eq!(parse_time_range("0900-1530").unwrap(), (t(9, 0), t(15, 30)));
    assert_eq!(parse_time_range("9:00-17:30").unwrap(), (t(9, 0), t(17, 30)));
    assert!(parse_time_range("0900").is_err());
}

#[test]
fn duration_same_day() {
    assert_eq!(span(1, (9, 0), (15, 30)).duration(), Minutes(390));
    assert_eq!(span(1, (9, 0), (15, 30)).interval(), (540, 930));
    assert!(!span(1, (9, 0), (15, 30)).crosses_midnight());
}

#[test]
fn duration_crossing_midnight() {
    assert_eq!(span(1, (22, 0), (2, 0)).duration(), Minutes(240));
    assert_eq!(span(1, (22, 0), (2, 0)).interval(), (1320, 1560));
    assert!(span(1, (22, 0), (2, 0)).crosses_midnight());
    assert_eq!(span(1, (8, 0), (8, 0)).duration(), Minutes(1440));
}

#[test]
fn adding_minutes_in_place_wraps_past_the_i32_range() {
    let mut m = Minutes(90);
    m += Minutes(-30);
    assert_eq!(m, Minutes(60));
    let mut top = Minutes(i32::MAX);
    top += Minutes(1);
    assert_eq!(top, Minutes(i32::MIN));
    // Summing wraps the same way, and never panics.
    assert_eq!([Minutes(i32::MAX), Minutes(1)].into_iter().sum::<Minutes>(), Minutes(i32::MIN));
    assert_eq!([Minutes(30), Minutes(-90)].into_iter().sum::<Minutes>(), Minutes(-60));
    assert_eq!(Minutes(i32::MAX).plus_wrapping(Minutes(2)), Minutes(i32::MIN + 1));
}

#[test]
fn parsing_through_from_str_reads_like_parse() {
    assert_eq!("-1:30".parse::<Minutes>(), Ok(Minutes(-90)));
    assert_eq!("+07:48".parse::<Minutes>(), Ok(Minutes(468)));
    assert!(matches!("7h".parse::<Minutes>(), Err(CoreError::InvalidTime(t)) if t == "7h"));
}

#[test]
fn signed_text_parses_back_to_the_same_minutes() {
    for m in [Minutes(-594), Minutes(6000), Minutes(0), Minutes(59), Minutes(-1), Minutes(i32::MAX), Minutes(-i32::MAX)] {
        assert_eq!(m.to_string().parse::<Minutes>(), Ok(m));
    }
    assert_eq!(Minutes(-594).to_string(), "-09:54");
    assert_eq!(Minutes(6000).to_string(), "+100:00");
}

#[test]
fn pauses_are_the_holes_between_sessions_in_any_order() {
    // 08:00-12:00 with 10:00-11:00 inside, then 13:00-15:00: one hole of an hour.
    let iv = [(480, 720), (600, 660), (780, 900)];
    assert_eq!(sessions(&iv), vec![(480, 720), (780, 900)]);
    assert_eq!(gaps_between(&iv), Minutes(60));
    let shuffled = [(780, 900), (600, 660), (480, 720)];
    assert_eq!(sessions(&shuffled), sessions(&iv));
    assert_eq!(gaps_between(&shuffled), gaps_between(&iv));
    // A real pause splits the deduction: 4h and 4h apart are charged 18 each.
    let tiers = default_tiers();
    let a = [(480, 720)];
    let b = [(780, 1020)];
    let both = [(480, 720), (780, 1020)];
    assert_eq!(session_deduction(&a, &tiers), Minutes(18));
    assert_eq!(session_deduction(&b, &tiers), Minutes(18));
    assert_eq!(session_deduction(&both, &tiers), Minutes(36));
}

#[test]
fn what_no_entry_has_room_for_falls_on_the_entry_worked_last() {
    // A twenty-minute session that loses an hour: each entry gives all it
    // has, and the forty minutes left fall on the entry worked last.
    let tiers = vec![BreakTier { after: Minutes(10), deduct: Minutes(60) }];
    let nets = entry_nets(&[span(1, (8, 0), (8, 10)), span(2, (8, 10), (8, 20))], &tiers);
    assert_eq!(nets, vec![Minutes(0), Minutes(-40)]);
    // The shares add up to the deduction exactly, so the nets add up to the
    // gross less the deduction; the day itself is held at zero.
    assert_eq!(nets.iter().map(|m| m.0).sum::<i32>(), 20 - 60);
    let day = work(d(2026, 9, 14), vec![span(1, (8, 0), (8, 10)), span(2, (8, 10), (8, 20))]);
    let r = Rules { tiers, ..rules() };
    assert_eq!(day_stats(&day, &r, &cal(), &ctx(d(2026, 9, 15), false)).net, Minutes(0));
}

#[test]
fn dates_outside_four_digit_years_carry_a_sign() {
    assert_eq!(d(2026, 9, 4).to_text(), "2026-09-04");
    assert_eq!(d(33, 1, 2).to_text(), "0033-01-02");
    assert_eq!(d(-5, 1, 2).to_text(), "-0005-01-02");
    assert_eq!(d(12345, 11, 30).to_text(), "+12345-11-30");
}
