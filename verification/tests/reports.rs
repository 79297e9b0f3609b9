use tk::balance::Rules;
use tk::booking::{kind_range, session_summary};
use tk::breaks::default_tiers;
use tk::clock::{Session, SessionState};
use tk::config::{BreakTierCfg, Config, ConfigError, ConfigPatch};
use tk::date::{Date, Time};
use tk::forms::{FormData, SettingsData, settings_footer, validate_form, validate_settings};
use tk::minutes::{HoursFormat, Minutes};
use tk::report::{
    clock_string, config_table, days_set_message, export_csv, export_json, import_summary, net_of,
    nets_by_day, status_line_text,
};
use tk::types::{Day, DayKind, Entry, kind_from_row};

fn d(y: i32, m: u32, dd: u32) -> Date {
    Date::from_ymd_opt(y, m, dd).unwrap()
}

fn t(h: u32, m: u32) -> Time {
    Time::from_hms_opt(h, m, 0).unwrap()
}

fn rules() -> Rules {
    Rules {
        daily_target: Minutes(468),
        tiers: default_tiers(),
        start_date: d(2026, 1, 1),
        initial_balance: Minutes(0),
    }
}

fn entry(id: i64, date: Date, s: Time, e: Time, project: &str, comment: &str) -> Entry {
    Entry {
        id,
        date,
        start: s,
        end: e,
        project: project.into(),
        comment: comment.into(),
        break_share: None,
    }
}

fn config() -> Config {
    Config {
        start_date: d(2026, 1, 1),
        initial_balance_minutes: -30,
        daily_target_minutes: 468,
        vacation_days_per_year: 30,
        week_starts_on: "monday".into(),
        theme: "dark".into(),
        hours_format: "hm".into(),
        break_tiers: vec![
            BreakTierCfg { after_minutes: 180, deduct_minutes: 18 },
            BreakTierCfg { after_minutes: 360, deduct_minutes: 48 },
        ],
        extra_holidays: vec![],
        theme_overrides: vec![],
    }
}

#[test]
fn validate_form_cases() {
    let today = d(2026, 9, 15);
    let existing = vec![entry(1, today, t(8, 0), t(12, 0), "A", "")];
    let fd = |s: &str, e: &str, p: &str| FormData {
        id: None,
        start: s.into(),
        end: e.into(),
        project: p.into(),
        comment: "".into(),
    };
    let r = rules();
    let ok = validate_form(&fd("1300", "16:00", "Alpha"), &existing, &r).unwrap();
    assert_eq!(ok.0, t(13, 0));
    assert_eq!(ok.2, Minutes(180));
    assert_eq!(ok.3, Minutes(18));
    assert_eq!(ok.4, Minutes(420 - 18));
    assert!(validate_form(&fd("abc", "1600", "A"), &existing, &r).unwrap_err().contains("start"));
    assert!(validate_form(&fd("1300", "", "A"), &existing, &r).unwrap_err().contains("end"));
    assert!(validate_form(&fd("1300", "1600", " "), &existing, &r).unwrap_err().contains("project"));
    assert!(validate_form(&fd("1100", "1300", "A"), &existing, &r).unwrap_err().contains("overlap"));
    assert!(validate_form(&fd("0900", "0900", "A"), &existing, &r).unwrap_err().contains("end"));
    let over = validate_form(&fd("2200", "0200", "A"), &existing, &r).unwrap();
    assert_eq!(over.2, Minutes(240));
    let mut edit = fd("0900", "1200", "A");
    edit.id = Some(1);
    assert!(validate_form(&edit, &existing, &r).is_ok());
}

#[test]
fn validate_form_previews_the_session_deduction() {
    let today = d(2026, 9, 15);
    let fd = |id, s: &str, en: &str| FormData {
        id,
        start: s.into(),
        end: en.into(),
        project: "Alpha".into(),
        comment: String::new(),
    };
    let r = rules();
    let existing = vec![entry(1, today, t(8, 0), t(12, 0), "A", "")];
    let ok = validate_form(&fd(None, "1200", "1600"), &existing, &r).unwrap();
    assert_eq!(ok.3, Minutes(48));
    assert_eq!(ok.4, Minutes(480 - 48));
    let ok = validate_form(&fd(None, "1220", "1600"), &existing, &r).unwrap();
    assert_eq!(ok.3, Minutes(36));
    let existing = vec![
        entry(1, today, t(8, 0), t(12, 0), "A", ""),
        entry(2, today, t(12, 45), t(17, 0), "A", ""),
    ];
    let ok = validate_form(&fd(Some(2), "1200", "1700"), &existing, &r).unwrap();
    assert_eq!(ok.3, Minutes(48));
    assert_eq!(ok.4, Minutes(540 - 48));
    let ok = validate_form(&fd(Some(2), "1245", "1700"), &existing, &r).unwrap();
    assert_eq!(ok.3, Minutes(36));
    assert_eq!(ok.4, Minutes(495 - 36));
}

#[test]
fn validate_settings_names_the_field_that_is_wrong() {
    let today = d(2026, 9, 15);
    let good = SettingsData {
        start: "today".into(),
        balance: "+12:30".into(),
        target: "8:00".into(),
        vacation: "28".into(),
    };
    assert_eq!(
        validate_settings(&good, today).unwrap(),
        ConfigPatch {
            start_date: Some(today),
            initial_balance_minutes: Some(750),
            daily_target_minutes: Some(480),
            vacation_days_per_year: Some(28),
            hours_format: None,
        }
    );
    let bad = |f: &dyn Fn(&mut SettingsData), needle: &str| {
        let mut dd = good.clone();
        f(&mut dd);
        let e = validate_settings(&dd, today).unwrap_err();
        assert!(e.contains(needle), "{e}");
    };
    bad(&|dd| dd.start = "never".into(), "start");
    bad(&|dd| dd.balance = "abc".into(), "balance");
    bad(&|dd| dd.target = "zz".into(), "target");
    bad(&|dd| dd.target = "0:00".into(), "target");
    bad(&|dd| dd.vacation = "-1".into(), "vacation");
}

#[test]
fn settings_footer_previews_the_patch() {
    let today = d(2026, 9, 15);
    let patch = validate_settings(
        &SettingsData {
            start: "today".into(),
            balance: "+12:30".into(),
            target: "8:00".into(),
            vacation: "28".into(),
        },
        today,
    )
    .unwrap();
    assert_eq!(settings_footer(&patch, HoursFormat::Hm), "balance +12:30 · target 08:00 · vacation 28");
    assert_eq!(
        settings_footer(&patch, HoursFormat::Decimal),
        "balance +12.50h · target 8.00h · vacation 28"
    );
}

#[test]
fn the_config_table_lists_the_five_settings() {
    let c = config();
    assert_eq!(
        config_table(&c),
        "start_date       2026-01-01\n\
         initial_balance  -00:30\n\
         daily_target     07:48\n\
         vacation_days    30\n\
         hours_format     hm\n"
    );
    let mut dec = config();
    dec.hours_format = "decimal".into();
    assert!(config_table(&dec).contains("daily_target     7.80h\n"));
}

#[test]
fn validation_errors_name_the_field() {
    let mut c = config();
    c.daily_target_minutes = 0;
    match c.validate() {
        Err(ConfigError::Validation { field, .. }) => assert_eq!(field, "daily_target_minutes"),
        other => panic!("{other:?}"),
    }
    assert_eq!(config().validate(), Ok(()));
    let r = config().rules();
    assert_eq!(r.daily_target, Minutes(468));
    assert_eq!(r.tiers[0].after, Minutes(180));
    assert_eq!(r.initial_balance, Minutes(-30));
}

#[test]
fn an_entry_is_exported_as_a_csv_line_and_a_json_object() {
    let date = d(2026, 9, 14);
    let entries = vec![
        entry(1, date, t(8, 0), t(12, 0), "Alpha", "a, b"),
        entry(2, date, t(12, 0), t(17, 0), "Beta", "say \"hi\""),
    ];
    let nets = nets_by_day(&entries, &default_tiers());
    assert_eq!(nets, vec![Minutes(240), Minutes(252)]);
    let csv = export_csv(&entries, &nets);
    assert_eq!(
        csv,
        "date,start,end,project,comment,gross,net,break\n\
         2026-09-14,08:00,12:00,Alpha,\"a, b\",+04:00,+04:00,00:00\n\
         2026-09-14,12:00,17:00,Beta,\"say \"\"hi\"\"\",+05:00,+04:12,00:48\n"
    );
    let json = export_json(&entries, &nets);
    assert_eq!(
        json,
        "[{\"date\":\"2026-09-14\",\"start\":\"08:00\",\"end\":\"12:00\",\"project\":\"Alpha\",\"comment\":\"a, b\",\"gross_minutes\":240,\"net_minutes\":240,\"break_minutes\":0},\
         {\"date\":\"2026-09-14\",\"start\":\"12:00\",\"end\":\"17:00\",\"project\":\"Beta\",\"comment\":\"say \\\"hi\\\"\",\"gross_minutes\":300,\"net_minutes\":252,\"break_minutes\":48}]\n"
    );
    assert_eq!(export_json(&[], &[]), "[]\n");
}

#[test]
fn export_then_import_round_trips() {
    let date = d(2026, 9, 14);
    let entries = vec![
        entry(1, date, t(8, 0), t(12, 0), "Alpha", "lunch, then \"review\""),
        entry(2, d(2026, 9, 15), t(22, 0), t(2, 0), "Beta", "line one\nline two"),
    ];
    let nets = nets_by_day(&entries, &default_tiers());
    let rows = tk::import::parse_import(&export_csv(&entries, &nets)).unwrap();
    assert_eq!(rows.len(), 2);
    assert_eq!(rows[0].comment, "lunch, then \"review\"");
    assert_eq!(rows[1].comment, "line one\nline two");
    assert_eq!(rows[1].start, t(22, 0));
    let rows = tk::import::parse_import(&export_json(&entries, &nets)).unwrap();
    assert_eq!(rows.len(), 2);
    assert_eq!(rows[0].project, "Alpha");
    assert_eq!(rows[1].date, d(2026, 9, 15));
}

#[test]
fn nets_are_worked_out_day_by_day() {
    let a = d(2026, 9, 14);
    let b = d(2026, 9, 15);
    let entries = vec![
        entry(1, a, t(8, 0), t(12, 0), "A", ""),
        entry(2, b, t(8, 0), t(17, 0), "B", ""),
        entry(3, a, t(12, 0), t(17, 0), "C", ""),
    ];
    let nets = nets_by_day(&entries, &default_tiers());
    assert_eq!(nets, vec![Minutes(240), Minutes(492), Minutes(252)]);
    let day_a = vec![entries[0].clone(), entries[2].clone()];
    assert_eq!(net_of(&day_a, &entries[2], &default_tiers()), Minutes(252));
    assert_eq!(net_of(&day_a, &entries[1], &default_tiers()), Minutes(540));
}

#[test]
fn the_status_line_names_the_session_and_the_day() {
    let f = HoursFormat::Hm;
    assert_eq!(
        status_line_text(&None, Minutes(0), Minutes(240), Minutes(-30), f),
        "not clocked in · today +04:00 · balance -00:30"
    );
    let working = Some(Session {
        date: d(2026, 9, 15),
        start: t(8, 5),
        project: Some("Alpha".into()),
        state: SessionState::Working,
    });
    assert_eq!(
        status_line_text(&working, Minutes(95), Minutes(95), Minutes(10), f),
        "⏱ Alpha 01:35 (in 08:05) · today +01:35 · balance +00:10"
    );
    let paused = Some(Session {
        date: d(2026, 9, 15),
        start: t(12, 0),
        project: Some("Alpha".into()),
        state: SessionState::Break,
    });
    assert_eq!(
        status_line_text(&paused, Minutes(15), Minutes(240), Minutes(0), HoursFormat::Decimal),
        "☕ on break 0.25h (since 12:00) · Alpha · today +4.00h · balance +0.00h"
    );
}

#[test]
fn the_import_summary_counts_what_happened() {
    assert_eq!(import_summary(3, 0, 0, false), "imported 3");
    assert_eq!(
        import_summary(2, 1, 2, true),
        "imported 2, skipped 1, 2 new projects (dry run, nothing written)"
    );
}

#[test]
fn setting_days_reports_how_many_and_to_what() {
    assert_eq!(days_set_message(1, &DayKind::Vacation), "Set 1 day to vacation");
    assert_eq!(days_set_message(3, &DayKind::Flex), "Set 3 days to flex day");
    assert_eq!(
        days_set_message(2, &DayKind::Absence { label: "Training".into() }),
        "Set 2 days to training"
    );
}

#[test]
fn clock_times_are_hours_and_minutes() {
    assert_eq!(clock_string(t(8, 5)), "08:05");
    assert_eq!(clock_string(t(23, 59)), "23:59");
}

#[test]
fn a_booked_entry_reports_its_session() {
    let day = vec![
        entry(1, d(2026, 9, 14), t(8, 0), t(12, 0), "Alpha", ""),
        entry(2, d(2026, 9, 14), t(12, 0), t(17, 0), "Beta", ""),
        entry(3, d(2026, 9, 14), t(18, 0), t(19, 0), "Alpha", ""),
    ];
    assert_eq!(session_summary(&day, 2, &default_tiers()), (2, Minutes(48)));
    assert_eq!(session_summary(&day, 3, &default_tiers()), (1, Minutes(0)));
    assert_eq!(session_summary(&day, 9, &default_tiers()), (0, Minutes(0)));
}

#[test]
fn marking_a_range_sets_its_weekdays_only() {
    let none: Vec<Day> = vec![];
    let plan = kind_range(d(2026, 9, 11), d(2026, 9, 15), &DayKind::Vacation, &none).unwrap();
    assert_eq!(plan, vec![d(2026, 9, 11), d(2026, 9, 14), d(2026, 9, 15)]);
    assert_eq!(kind_range(d(2026, 9, 12), d(2026, 9, 13), &DayKind::Vacation, &none), Err(None));
    let busy = vec![Day {
        date: d(2026, 9, 14),
        kind: DayKind::Work,
        entries: vec![entry(1, d(2026, 9, 14), t(8, 0), t(9, 0), "A", "")],
    }];
    assert_eq!(
        kind_range(d(2026, 9, 11), d(2026, 9, 15), &DayKind::Sick, &busy),
        Err(Some(d(2026, 9, 14)))
    );
    assert_eq!(kind_range(d(2026, 9, 11), d(2026, 9, 15), &DayKind::Work, &busy).unwrap().len(), 3);
    assert_eq!(kind_range(d(2026, 9, 15), d(2026, 9, 15), &DayKind::Sick, &none).unwrap(), vec![d(2026, 9, 15)]);
}

#[test]
fn a_stored_row_reads_as_its_kind() {
    assert_eq!(kind_from_row("vacation".into(), None), DayKind::Vacation);
    assert_eq!(kind_from_row("absence".into(), Some("trip".into())), DayKind::Absence { label: "trip".into() });
    assert_eq!(kind_from_row("nonsense".into(), None), DayKind::Work);
}
