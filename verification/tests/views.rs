use tk::balance::Rules;
use tk::breaks::{BreakTier, default_tiers};
use tk::date::{Date, Time};
use tk::holidays::HolidayCalendar;
use tk::minutes::Minutes;
use tk::month::{MonthData, Row, RowKind, build_month_view, row_index_of, row_is_selected};
use tk::periods::{Granularity, RangeKind, add_months, month_range, range_for, shift_anchor, year_range};
use tk::tally::nets_fit;
use tk::stats::{
    Bucket, StatsData, StatsView, best_worst, build_buckets, build_stats, chart_height,
    visible_buckets,
};
use tk::types::{Day, DayKind, Entry, Project};

fn d(y: i32, m: u32, dd: u32) -> Date {
    Date::from_ymd_opt(y, m, dd).unwrap()
}

fn t(h: u32, m: u32) -> Time {
    Time::from_hms_opt(h, m, 0).unwrap()
}

fn rules() -> Rules {
    Rules {
        daily_target: Minutes(468),
        tiers: default_tiers(),
        start_date: d(2026, 1, 1),
        initial_balance: Minutes(0),
    }
}

fn cal() -> HolidayCalendar {
    HolidayCalendar::new(vec![])
}

fn plus24(date: Date) -> Day {
    Day {
        date,
        kind: DayKind::Work,
        entries: vec![Entry {
            id: 1,
            date,
            start: t(8, 0),
            end: t(17, 0),
            project: "Alpha".into(),
            comment: "".into(),
            break_share: None,
        }],
    }
}

fn missing(date: Date) -> Day {
    Day {
        date,
        kind: DayKind::Work,
        entries: vec![],
    }
}

fn buckets_of(days: Vec<Day>, from: Date, to: Date, g: Granularity) -> Vec<Bucket> {
    build_buckets(&days, &rules(), &cal(), d(2026, 9, 15), false, from, to, g, Minutes(0))
}

#[test]
fn ranges() {
    let today = d(2026, 9, 15);
    assert_eq!(range_for(RangeKind::Week, today), (d(2026, 9, 14), d(2026, 9, 20)));
    assert_eq!(range_for(RangeKind::Week, d(2026, 9, 20)), (d(2026, 9, 14), d(2026, 9, 20)));
    assert_eq!(range_for(RangeKind::Month, today), (d(2026, 9, 1), d(2026, 9, 30)));
    assert_eq!(range_for(RangeKind::Quarter, today), (d(2026, 7, 1), d(2026, 9, 30)));
    assert_eq!(range_for(RangeKind::Year, today), (d(2026, 1, 1), d(2026, 12, 31)));
}

#[test]
fn ranges_follow_the_anchor() {
    assert_eq!(range_for(RangeKind::Month, d(2025, 8, 3)), (d(2025, 8, 1), d(2025, 8, 31)));
    assert_eq!(range_for(RangeKind::Quarter, d(2026, 11, 20)), (d(2026, 10, 1), d(2026, 12, 31)));
    assert_eq!(range_for(RangeKind::Year, d(2024, 2, 29)), (d(2024, 1, 1), d(2024, 12, 31)));
}

#[test]
fn month_and_year_ranges() {
    assert_eq!(month_range(2024, 2), (d(2024, 2, 1), d(2024, 2, 29)));
    assert_eq!(month_range(2026, 2), (d(2026, 2, 1), d(2026, 2, 28)));
    assert_eq!(month_range(2026, 12), (d(2026, 12, 1), d(2026, 12, 31)));
    assert_eq!(year_range(2026), (d(2026, 1, 1), d(2026, 12, 31)));
}

#[test]
fn months_are_added_with_the_day_clamped() {
    assert_eq!(add_months(d(2026, 1, 31), 1), d(2026, 2, 28));
    assert_eq!(add_months(d(2026, 3, 31), -1), d(2026, 2, 28));
    assert_eq!(add_months(d(2026, 1, 15), -1), d(2025, 12, 15));
    assert_eq!(add_months(d(2026, 12, 15), 1), d(2027, 1, 15));
    assert_eq!(add_months(d(2026, 9, 15), 0), d(2026, 9, 15));
    assert_eq!(add_months(d(2026, 5, 10), 25), d(2028, 6, 10));
    assert_eq!(add_months(d(2026, 1, 10), -13), d(2024, 12, 10));
}

#[test]
fn the_anchor_shifts_by_whole_periods() {
    assert_eq!(shift_anchor(RangeKind::Week, d(2026, 9, 20), -1), d(2026, 9, 13));
    assert_eq!(
        range_for(RangeKind::Week, shift_anchor(RangeKind::Week, d(2026, 9, 20), -1)),
        (d(2026, 9, 7), d(2026, 9, 13))
    );
    assert_eq!(shift_anchor(RangeKind::Week, d(2026, 9, 15), 2), d(2026, 9, 29));
    assert_eq!(shift_anchor(RangeKind::Month, d(2026, 1, 31), 1), d(2026, 2, 28));
    assert_eq!(shift_anchor(RangeKind::Quarter, d(2026, 11, 20), 1), d(2027, 2, 20));
    assert_eq!(
        range_for(RangeKind::Quarter, shift_anchor(RangeKind::Quarter, d(2026, 11, 20), 1)),
        (d(2027, 1, 1), d(2027, 3, 31))
    );
    assert_eq!(shift_anchor(RangeKind::Quarter, d(2026, 11, 20), -1), d(2026, 8, 20));
    assert_eq!(shift_anchor(RangeKind::Year, d(2024, 2, 29), 1), d(2025, 2, 28));
    assert_eq!(shift_anchor(RangeKind::Year, d(2026, 9, 15), -1), d(2025, 9, 15));
}

#[test]
fn week_range_buckets_every_day() {
    let (from, to) = range_for(RangeKind::Week, d(2026, 9, 15));
    let b = buckets_of(vec![plus24(d(2026, 9, 14))], from, to, Granularity::Day);
    assert_eq!(b.len(), 7);
    assert_eq!(
        b.iter().map(|b| b.label.as_str()).collect::<Vec<_>>(),
        ["Mon 14", "Tue 15", "Wed 16", "Thu 17", "Fri 18", "Sat 19", "Sun 20"]
    );
    assert_eq!((b[0].from, b[0].to), (d(2026, 9, 14), d(2026, 9, 14)));
    assert_eq!(b[0].balance, Minutes(24));
    assert!(b[1..].iter().all(|b| b.balance == Minutes(0)));
}

#[test]
fn month_range_buckets_by_iso_week() {
    let (from, to) = range_for(RangeKind::Month, d(2026, 9, 15));
    let b = buckets_of(vec![], from, to, Granularity::Week);
    assert_eq!(
        b.iter().map(|b| b.label.as_str()).collect::<Vec<_>>(),
        ["KW 36", "KW 37", "KW 38", "KW 39", "KW 40"]
    );
    assert_eq!((b[0].from, b[0].to), (d(2026, 9, 1), d(2026, 9, 6)));
    assert_eq!((b[1].from, b[1].to), (d(2026, 9, 7), d(2026, 9, 13)));
    assert_eq!((b[4].from, b[4].to), (d(2026, 9, 28), d(2026, 9, 30)));
}

#[test]
fn year_range_buckets_by_month() {
    let (from, to) = range_for(RangeKind::Year, d(2026, 9, 15));
    let b = buckets_of(vec![], from, to, Granularity::Month);
    assert_eq!(b.len(), 12);
    assert_eq!(b[0].label, "Jan");
    assert_eq!(b[8].label, "Sep");
    assert_eq!(b[11].label, "Dec");
    assert_eq!((b[8].from, b[8].to), (d(2026, 9, 1), d(2026, 9, 30)));
    assert_eq!((b[11].from, b[11].to), (d(2026, 12, 1), d(2026, 12, 31)));
}

#[test]
fn an_empty_range_has_no_buckets() {
    let b = buckets_of(vec![], d(2026, 9, 2), d(2026, 9, 1), Granularity::Day);
    assert!(b.is_empty());
}

#[test]
fn bucket_balances_sum_their_days() {
    let (from, to) = range_for(RangeKind::Month, d(2026, 9, 15));
    let days = vec![plus24(d(2026, 9, 1)), missing(d(2026, 9, 8)), plus24(d(2026, 9, 9))];
    let b = buckets_of(days, from, to, Granularity::Week);
    assert_eq!(b[0].balance, Minutes(24));
    assert_eq!(b[1].balance, Minutes(24 - 468));
    assert_eq!(b[2].balance, Minutes(0));
}

#[test]
fn days_before_the_start_date_do_not_count() {
    let mut r = rules();
    r.start_date = d(2026, 9, 9);
    let b = build_buckets(
        &[plus24(d(2026, 9, 1)), plus24(d(2026, 9, 9))],
        &r,
        &cal(),
        d(2026, 9, 15),
        false,
        d(2026, 9, 1),
        d(2026, 9, 30),
        Granularity::Week,
        Minutes(0),
    );
    assert_eq!(b[0].balance, Minutes(0));
    assert_eq!(b[1].balance, Minutes(24));
}

#[test]
fn running_balances_accumulate_from_what_is_carried_in() {
    let mut r = rules();
    r.start_date = d(2026, 9, 9);
    r.initial_balance = Minutes(60);
    let b = build_buckets(
        &[plus24(d(2026, 9, 1)), plus24(d(2026, 9, 9)), missing(d(2026, 9, 10))],
        &r,
        &cal(),
        d(2026, 9, 15),
        false,
        d(2026, 9, 1),
        d(2026, 9, 30),
        Granularity::Week,
        Minutes(60),
    );
    assert_eq!(b[0].balance, Minutes(0));
    assert_eq!(b[0].running, Minutes(60));
    assert_eq!(b[1].balance, Minutes(24 - 468));
    assert_eq!(b[1].running, Minutes(60 + 24 - 468));
    assert!(b[2..].iter().all(|x| x.running == b[1].running));
    assert_eq!(
        b.last().unwrap().running,
        Minutes(60) + b.iter().map(|x| x.balance).sum::<Minutes>()
    );
}

#[test]
fn best_and_worst_buckets() {
    let (from, to) = range_for(RangeKind::Month, d(2026, 9, 15));
    let days = vec![plus24(d(2026, 9, 1)), missing(d(2026, 9, 8))];
    let flat = buckets_of(vec![], from, to, Granularity::Week);
    assert_eq!(best_worst(&flat), (None, None));
    let b = buckets_of(days, from, to, Granularity::Week);
    assert_eq!(best_worst(&b), (Some(0), Some(1)));
    let tied = buckets_of(vec![plus24(d(2026, 9, 1)), plus24(d(2026, 9, 9))], from, to, Granularity::Week);
    assert_eq!(best_worst(&tied).0, Some(0));
    assert_eq!(best_worst(&[]), (None, None));
}

fn stats_data(from: Date, to: Date, days: Vec<Day>) -> StatsData {
    StatsData {
        from,
        to,
        days,
        projects: vec![],
        vacation_used_year: 0,
        session_active: false,
        carried_in: Minutes(0),
    }
}

fn view_at(kind: RangeKind, anchor: Date, days: Vec<Day>, carried_in: Minutes) -> StatsView {
    let (from, to) = range_for(kind, anchor);
    let mut r = rules();
    r.start_date = d(2020, 1, 1);
    let mut data = stats_data(from, to, days);
    data.carried_in = carried_in;
    build_stats(&data, &r, &cal(), d(2026, 9, 15), anchor, 30, kind)
}

#[test]
fn the_view_runs_the_buckets_on_from_what_was_carried_in() {
    let v = view_at(
        RangeKind::Month,
        d(2026, 9, 15),
        vec![plus24(d(2026, 9, 1)), missing(d(2026, 9, 8))],
        Minutes(-30),
    );
    assert_eq!(v.carried_in, Minutes(-30));
    assert_eq!(v.buckets[0].running, Minutes(-30 + 24));
    assert_eq!(v.buckets[1].running, Minutes(-30 + 24 - 468));
    assert_eq!(v.buckets.last().unwrap().running, v.carried_in + v.balance_total);
}

#[test]
fn the_projects_balance_matches_the_chart_total() {
    let mut r = rules();
    r.start_date = d(2026, 9, 9);
    let (from, to) = range_for(RangeKind::Month, d(2026, 9, 15));
    let days = vec![
        plus24(d(2026, 9, 1)),
        missing(d(2026, 9, 2)),
        plus24(d(2026, 9, 9)),
        missing(d(2026, 9, 10)),
    ];
    let v = build_stats(&stats_data(from, to, days), &r, &cal(), d(2026, 9, 15), d(2026, 9, 15), 30, RangeKind::Month);
    assert_eq!(v.balance_total, Minutes(24 - 468));
    assert_eq!(v.net - v.target, v.balance_total);
    assert_eq!(v.missing, 1);
    assert_eq!(v.total, Minutes(2 * 492));
    assert_eq!(v.project_totals.iter().map(|p| p.1).sum::<Minutes>(), v.total);
    assert_eq!(v.granularity, Granularity::Week);
}

#[test]
fn the_range_counts_its_weekdays_by_kind() {
    let (from, to) = range_for(RangeKind::Week, d(2026, 9, 15));
    let mk = |date, kind| Day {
        date,
        kind,
        entries: vec![],
    };
    let days = vec![
        mk(d(2026, 9, 14), DayKind::Vacation),
        mk(d(2026, 9, 15), DayKind::Sick),
        mk(d(2026, 9, 16), DayKind::Flex),
        mk(d(2026, 9, 17), DayKind::Holiday),
        mk(d(2026, 9, 18), DayKind::Absence { label: "trip".into() }),
        mk(d(2026, 9, 19), DayKind::Vacation),
    ];
    let mut r = rules();
    r.start_date = d(2020, 1, 1);
    let v = build_stats(&stats_data(from, to, days), &r, &cal(), d(2026, 9, 15), d(2026, 9, 15), 30, RangeKind::Week);
    assert_eq!(v.vacation_in_range, 1);
    assert_eq!(v.sick, 1);
    assert_eq!(v.flex, 1);
    assert_eq!(v.holidays, 1);
    assert_eq!(v.absences, 1);
    assert_eq!(v.vacation_allowance, 30);
}

#[test]
fn the_chart_window_follows_the_anchor() {
    let v = view_at(RangeKind::Year, d(2025, 3, 10), vec![], Minutes(0));
    assert_eq!(v.cut_at, d(2025, 3, 10));
    assert_eq!(visible_buckets(&v.buckets, v.cut_at, 3), (0, 3));
    assert_eq!(visible_buckets(&v.buckets, v.cut_at, 2), (1, 3));
    let ahead = view_at(RangeKind::Year, d(2027, 3, 10), vec![], Minutes(0));
    assert_eq!(ahead.cut_at, d(2026, 9, 15));
    assert_eq!(visible_buckets(&ahead.buckets, ahead.cut_at, 4), (8, 12));
    assert_eq!(visible_buckets(&ahead.buckets, ahead.cut_at, 20), (0, 12));
}

#[test]
fn the_chart_gets_a_row_per_bucket_as_far_as_there_is_room() {
    assert_eq!(chart_height(0, 40), 0);
    assert_eq!(chart_height(12, 19), 0);
    assert_eq!(chart_height(5, 40), 10);
    assert_eq!(chart_height(30, 40), 26);
}

fn fixture() -> (MonthData, Rules, HolidayCalendar) {
    let rules = Rules {
        daily_target: Minutes(468),
        tiers: default_tiers(),
        start_date: d(2026, 9, 1),
        initial_balance: Minutes(0),
    };
    let cal = HolidayCalendar::new(vec![d(2026, 9, 17)]);
    let mut days = Vec::new();
    let mut cur = d(2026, 9, 1);
    while cur <= d(2026, 9, 30) {
        let kind = if cur == d(2026, 9, 17) {
            DayKind::Holiday
        } else if cur == d(2026, 9, 2) {
            DayKind::Vacation
        } else if cur == d(2026, 9, 3) {
            DayKind::Flex
        } else {
            DayKind::Work
        };
        let entries = match cur.day() {
            1 => vec![Entry {
                id: 1,
                date: cur,
                start: t(8, 0),
                end: t(12, 0),
                project: "Beta".into(),
                comment: "half".into(),
                break_share: None,
            }],
            14 => vec![
                Entry {
                    id: 2,
                    date: cur,
                    start: t(9, 0),
                    end: t(12, 0),
                    project: "Alpha".into(),
                    comment: "morning".into(),
                    break_share: None,
                },
                Entry {
                    id: 3,
                    date: cur,
                    start: t(13, 0),
                    end: t(16, 0),
                    project: "Alpha".into(),
                    comment: "afternoon".into(),
                    break_share: None,
                },
            ],
            _ => vec![],
        };
        days.push(Day { date: cur, kind, entries });
        cur = cur.succ_opt().unwrap();
    }
    let data = MonthData {
        year: 2026,
        month: 9,
        days,
        balance_before: Minutes(0),
        balance_total: Minutes(-100),
        session: None,
        projects: vec![
            Project { id: 1, name: "Alpha".into(), color_index: 0, archived: false },
            Project { id: 2, name: "Beta".into(), color_index: 1, archived: false },
        ],
        last_used_project: Some("Beta".into()),
        vacation_used_this_year: 1,
    };
    (data, rules, cal)
}

#[test]
fn builds_rows_in_spec_order() {
    let (data, rules, cal) = fixture();
    let v = build_month_view(&data, &rules, &cal, d(2026, 9, 15));
    let seq = &v.rows[0..7];
    assert!(matches!(seq[0].kind, RowKind::Entry { .. }));
    assert!(matches!(seq[1].kind, RowKind::Kind));
    assert!(matches!(seq[2].kind, RowKind::Kind));
    assert!(matches!(seq[3].kind, RowKind::Missing));
    assert!(matches!(seq[4].kind, RowKind::Weekend));
    assert!(matches!(seq[5].kind, RowKind::WeekFooter { .. }));
    assert!(matches!(seq[6].kind, RowKind::Missing));
    let idx = row_index_of(&v.rows, d(2026, 9, 14)).unwrap();
    assert!(matches!(v.rows[idx].kind, RowKind::Entry { first: true, .. }));
    assert!(matches!(v.rows[idx + 1].kind, RowKind::Entry { first: false, .. }));
    let h = row_index_of(&v.rows, d(2026, 9, 17)).unwrap();
    assert!(matches!(v.rows[h].kind, RowKind::Kind));
    let e = row_index_of(&v.rows, d(2026, 9, 16)).unwrap();
    assert!(matches!(v.rows[e].kind, RowKind::Empty));
    assert_eq!(v.net, Minutes(582));
    assert_eq!(v.target, Minutes(468 * 9));
    assert_eq!(v.balance, Minutes(582 - 468 * 9));
    assert_eq!(v.project_totals[0].0, "Alpha");
    assert_eq!(v.project_totals[0].1, Minutes(360));
    assert_eq!(v.project_totals[1], ("Beta".to_string(), Minutes(222), 1));
    assert_eq!(v.project_totals.iter().map(|p| p.1).sum::<Minutes>(), v.net);
    assert!(v.kind_counts.iter().any(|(k, n)| k == "vacation" && *n == 1));
}

#[test]
fn kind_counts_come_by_name() {
    let (data, rules, cal) = fixture();
    let v = build_month_view(&data, &rules, &cal, d(2026, 9, 15));
    let names: Vec<&str> = v.kind_counts.iter().map(|(k, _)| k.as_str()).collect();
    assert_eq!(names, ["flex", "holiday", "missing", "vacation"]);
    assert_eq!(v.kind_counts[2], ("missing".to_string(), 6));
}

#[test]
fn week_footer_carries_running_balance() {
    let (data, rules, cal) = fixture();
    let v = build_month_view(&data, &rules, &cal, d(2026, 9, 15));
    let footers: Vec<&Row> = v.rows.iter().filter(|r| matches!(r.kind, RowKind::WeekFooter { .. })).collect();
    assert_eq!(footers.len(), 5);
    if let RowKind::WeekFooter { week, week_balance, running } = footers[0].kind {
        assert_eq!(week, 36);
        assert_eq!(week_balance, Minutes(222 - 468 - 468 - 468));
        assert_eq!(running, Minutes(222 - 468 - 468 - 468));
    } else {
        panic!("expected WeekFooter");
    }
    if let RowKind::WeekFooter { running, .. } = footers[4].kind {
        assert_eq!(running, v.balance);
    } else {
        panic!("expected WeekFooter");
    }
}

#[test]
fn special_kind_on_sunday_gets_its_own_row() {
    let (mut data, rules, cal) = fixture();
    let sun = data.days.iter_mut().find(|dd| dd.date == d(2026, 9, 6)).unwrap();
    sun.kind = DayKind::Vacation;
    let v = build_month_view(&data, &rules, &cal, d(2026, 9, 15));
    let sat_idx = row_index_of(&v.rows, d(2026, 9, 5)).unwrap();
    let sun_idx = row_index_of(&v.rows, d(2026, 9, 6)).unwrap();
    assert!(matches!(v.rows[sat_idx].kind, RowKind::Weekend));
    assert!(matches!(v.rows[sun_idx].kind, RowKind::Kind));
    assert_eq!(sun_idx, sat_idx + 1);
    assert!(matches!(v.rows[sun_idx + 1].kind, RowKind::WeekFooter { .. }));
    if let RowKind::WeekFooter { week, .. } = v.rows[sun_idx + 1].kind {
        assert_eq!(week, 36);
    }
    assert!(v.kind_counts.iter().any(|(k, n)| k == "vacation" && *n == 2));
    let weekend_rows = v.rows.iter().filter(|r| matches!(r.kind, RowKind::Weekend)).count();
    assert_eq!(weekend_rows, 4);
    let (plain_data, rules2, cal2) = fixture();
    let plain_v = build_month_view(&plain_data, &rules2, &cal2, d(2026, 9, 15));
    let plain_weekend_rows = plain_v.rows.iter().filter(|r| matches!(r.kind, RowKind::Weekend)).count();
    assert_eq!(plain_weekend_rows, 4);
}

#[test]
fn every_entry_row_shows_its_own_net() {
    let (mut data, rules, cal) = fixture();
    let day = data.days.iter_mut().find(|dd| dd.date == d(2026, 9, 14)).unwrap();
    day.entries = vec![
        Entry {
            id: 2,
            date: day.date,
            start: t(8, 0),
            end: t(12, 0),
            project: "Alpha".into(),
            comment: "morning".into(),
            break_share: None,
        },
        Entry {
            id: 3,
            date: day.date,
            start: t(12, 0),
            end: t(17, 0),
            project: "Beta".into(),
            comment: "afternoon".into(),
            break_share: None,
        },
    ];
    let v = build_month_view(&data, &rules, &cal, d(2026, 9, 15));
    assert_eq!(v.project_totals[0], ("Beta".to_string(), Minutes(474), 1));
    assert_eq!(v.project_totals[1], ("Alpha".to_string(), Minutes(240), 0));
    assert_eq!(v.project_totals.iter().map(|p| p.1).sum::<Minutes>(), v.net);
    let idx = row_index_of(&v.rows, d(2026, 9, 14)).unwrap();
    let st = v.rows[idx].stats.as_ref().unwrap();
    assert_eq!(st.entry_nets, vec![Minutes(240), Minutes(252)]);
}

#[test]
fn a_folded_sunday_lights_its_saturday_row() {
    let (data, rules, cal) = fixture();
    let v = build_month_view(&data, &rules, &cal, d(2026, 9, 15));
    let sat = row_index_of(&v.rows, d(2026, 9, 5)).unwrap();
    assert_eq!(row_index_of(&v.rows, d(2026, 9, 6)), Some(sat));
    assert!(row_is_selected(&v.rows, &v.rows[sat], d(2026, 9, 6)));
    assert!(row_is_selected(&v.rows, &v.rows[sat], d(2026, 9, 5)));
    assert!(!row_is_selected(&v.rows, &v.rows[sat + 1], d(2026, 9, 6)));
    assert!(!row_is_selected(&v.rows, &v.rows[sat], d(2026, 9, 7)));
}

fn alpha(id: i64, date: Date, s: (u32, u32), e: (u32, u32)) -> Entry {
    Entry {
        id,
        date,
        start: t(s.0, s.1),
        end: t(e.0, e.1),
        project: "Alpha".into(),
        comment: String::new(),
        break_share: None,
    }
}

#[test]
fn a_session_shorter_than_its_break_is_charged_in_full() {
    // Every session over ten minutes loses an hour. The half hour in the
    // morning is a session of its own, so its entry nets -30 and the
    // afternoon 240: the project gets the day's 210, not 240.
    let mut rules = rules();
    rules.tiers = vec![BreakTier { after: Minutes(10), deduct: Minutes(60) }];
    let day = d(2026, 9, 14);
    let data = MonthData {
        year: 2026,
        month: 9,
        days: vec![Day {
            date: day,
            kind: DayKind::Work,
            entries: vec![alpha(1, day, (8, 0), (8, 30)), alpha(2, day, (9, 0), (14, 0))],
        }],
        balance_before: Minutes(0),
        balance_total: Minutes(0),
        session: None,
        projects: vec![Project { id: 1, name: "Alpha".into(), color_index: 0, archived: false }],
        last_used_project: None,
        vacation_used_this_year: 0,
    };
    let v = build_month_view(&data, &rules, &cal(), d(2026, 9, 15));
    assert_eq!(v.net, Minutes(210));
    assert_eq!(v.project_totals, vec![("Alpha".to_string(), Minutes(210), 0)]);
    let idx = row_index_of(&v.rows, day).unwrap();
    let st = v.rows[idx].stats.as_ref().unwrap();
    assert_eq!(st.entry_nets, vec![Minutes(-30), Minutes(240)]);
}

#[test]
fn nets_fit_weighs_every_net_by_its_size() {
    let day = |n: u32| {
        let date = d(2026, 9, n);
        Day { date, kind: DayKind::Work, entries: vec![alpha(n as i64, date, (8, 0), (8, 30))] }
    };
    assert!(nets_fit(&[day(14), day(15)], &default_tiers()));
    let huge = vec![BreakTier { after: Minutes(10), deduct: Minutes(2_000_000_000) }];
    // One day nets 30 - 2000000000, which fits; two of them do not.
    assert!(nets_fit(&[day(14)], &huge));
    assert!(!nets_fit(&[day(14), day(15)], &huge));
}

#[test]
fn a_day_that_loses_more_than_it_worked_nets_zero_but_its_project_goes_below() {
    // The day is held at zero; the entry carries the whole deduction.
    let mut rules = rules();
    rules.tiers = vec![BreakTier { after: Minutes(10), deduct: Minutes(60) }];
    let day = d(2026, 9, 14);
    let data = MonthData {
        year: 2026,
        month: 9,
        days: vec![Day { date: day, kind: DayKind::Work, entries: vec![alpha(1, day, (8, 0), (8, 30))] }],
        balance_before: Minutes(0),
        balance_total: Minutes(0),
        session: None,
        projects: vec![Project { id: 1, name: "Alpha".into(), color_index: 0, archived: false }],
        last_used_project: None,
        vacation_used_this_year: 0,
    };
    let v = build_month_view(&data, &rules, &cal(), d(2026, 9, 15));
    assert_eq!(v.net, Minutes(0));
    assert_eq!(v.project_totals, vec![("Alpha".to_string(), Minutes(-30), 0)]);
}
