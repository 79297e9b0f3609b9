use tk::breaks::default_tiers;
use tk::date::{Date, Time};
use tk::minutes::Minutes;
use tk::replies::{
    added_text, archived_text, booked_reply, break_text, clock_in_project, clocked_in_text, clocked_out_text,
    kind_change_refusal, kind_set_text, list_projects, project_added_text, projects_reply, range_order_refusal,
    range_refusal_text, renamed_text, resumed_text, switch_refusal, switched_text, updated_text,
    weekdays_set_text,
};
use tk::screen::StoreReply;
use tk::types::{Day, DayKind, Entry, Project};

fn d(y: i32, m: u32, dd: u32) -> Date {
    Date::from_ymd_opt(y, m, dd).unwrap()
}

fn t(h: u32, m: u32) -> Time {
    Time::from_hms_opt(h, m, 0).unwrap()
}

fn entry(id: i64, s: Time, e: Time, project: &str) -> Entry {
    Entry {
        id,
        date: d(2026, 9, 15),
        start: s,
        end: e,
        project: project.into(),
        comment: String::new(),
        break_share: None,
    }
}

fn project(id: i64, name: &str, archived: bool) -> Project {
    Project {
        id,
        name: name.into(),
        color_index: 0,
        archived,
    }
}

#[test]
fn write_replies_say_what_was_booked() {
    let e = entry(1, t(12, 0), t(17, 0), "Beta");
    assert_eq!(added_text(&e), "Added 12:00–17:00 Beta");
    assert_eq!(updated_text(&e), "Updated 12:00–17:00 Beta");
    assert_eq!(clocked_out_text(&e), "Clocked out: 12:00–17:00 Beta (+05:00)");
    assert_eq!(switched_text(&e, "Gamma"), "Booked 12:00–17:00 Beta · now on Gamma");
    assert_eq!(break_text(&e, t(17, 0)), "Booked 12:00–17:00 Beta · on break since 17:00");
    assert_eq!(clocked_in_text("Alpha", t(8, 5)), "Clocked in on Alpha at 08:05");
    assert_eq!(resumed_text(Some("Alpha"), t(13, 0)), "Resumed Alpha at 13:00");
    assert_eq!(resumed_text(None, t(13, 0)), "Resumed the last project at 13:00");
}

#[test]
fn day_and_project_replies() {
    assert_eq!(kind_set_text(d(2026, 9, 15), &DayKind::Vacation), "2026-09-15 set to vacation");
    assert_eq!(weekdays_set_text(1, &DayKind::Sick), "1 weekday set to sick");
    assert_eq!(weekdays_set_text(5, &DayKind::Flex), "5 weekdays set to flex day");
    assert_eq!(
        range_refusal_text(None, d(2026, 9, 19), d(2026, 9, 20)),
        "No weekdays between 2026-09-19 and 2026-09-20"
    );
    assert_eq!(
        range_refusal_text(Some(d(2026, 9, 16)), d(2026, 9, 14), d(2026, 9, 18)),
        "2026-09-16 has entries; delete them first"
    );
    assert_eq!(archived_text("Old", true), "Old archived");
    assert_eq!(archived_text("Old", false), "Old unarchived");
    assert_eq!(renamed_text("Alpha", "Alpha2"), "Alpha renamed to Alpha2");
    assert_eq!(project_added_text("Gamma"), "Gamma added");
}

#[test]
fn a_booking_reports_its_session() {
    let day = vec![entry(1, t(8, 0), t(12, 0), "Alpha"), entry(2, t(12, 0), t(17, 0), "Beta")];
    match booked_reply(&day, &day[1], "Clocked out".into(), &default_tiers()) {
        StoreReply::Booked { entry_id, date, session_projects, deduction, message } => {
            assert_eq!(entry_id, 2);
            assert_eq!(date, d(2026, 9, 15));
            assert_eq!(session_projects, 2);
            assert_eq!(deduction, Minutes(48));
            assert_eq!(message, "Clocked out");
        },
        _ => panic!("expected a booking"),
    }
    // A session of its own, after a pause: one project, under the first tier.
    let day = vec![entry(1, t(8, 0), t(12, 0), "Alpha"), entry(2, t(13, 0), t(15, 0), "Beta")];
    match booked_reply(&day, &day[1], String::new(), &default_tiers()) {
        StoreReply::Booked { session_projects, deduction, .. } => {
            assert_eq!(session_projects, 1);
            assert_eq!(deduction, Minutes(0));
        },
        _ => panic!("expected a booking"),
    }
}

#[test]
fn projects_are_listed_active_first_then_by_name_in_any_case() {
    let listed = list_projects(vec![
        project(1, "beta", false),
        project(2, "Zed", true),
        project(3, "Alpha", false),
        project(4, "apple", true),
        project(5, "Gamma", false),
    ]);
    let names: Vec<&str> = listed.iter().map(|p| p.name.as_str()).collect();
    assert_eq!(names, vec!["Alpha", "beta", "Gamma", "apple", "Zed"]);
}

#[test]
fn the_projects_reply_adds_up_the_nets_per_project() {
    let date = d(2026, 9, 15);
    let days = vec![Day {
        date,
        kind: DayKind::Work,
        entries: vec![
            entry(1, t(8, 0), t(12, 0), "Alpha"),
            entry(2, t(12, 0), t(17, 0), "Beta"),
            entry(3, t(18, 0), t(19, 0), "Alpha"),
        ],
    }];
    let r = projects_reply(vec![project(1, "Beta", false), project(2, "Alpha", false)], &days, &default_tiers());
    assert_eq!(r.projects[0].name, "Alpha");
    let net = |name: &str| r.net_by_project.iter().find(|(n, _)| n == name).map(|(_, m)| *m);
    // The nine-hour session loses 48 minutes, all on its last entry.
    assert_eq!(net("Alpha"), Some(Minutes(240 + 60)));
    assert_eq!(net("Beta"), Some(Minutes(300 - 48)));
    assert_eq!(r.net_by_project.len(), 2);
}

#[test]
fn a_range_must_not_end_before_it_starts() {
    assert_eq!(range_order_refusal(d(2026, 9, 14), d(2026, 9, 14)), None);
    assert_eq!(range_order_refusal(d(2026, 9, 14), d(2026, 9, 18)), None);
    assert_eq!(
        range_order_refusal(d(2026, 9, 14), d(2026, 9, 13)),
        Some("--to must not be before DATE".to_string())
    );
}

#[test]
fn clocking_in_falls_back_to_the_last_project() {
    assert_eq!(clock_in_project(Some("Alpha".into()), Some("Beta".into())), Ok("Alpha".to_string()));
    assert_eq!(clock_in_project(None, Some("Beta".into())), Ok("Beta".to_string()));
    assert_eq!(
        clock_in_project(None, None),
        Err("no project yet; pass --project NAME".to_string())
    );
}

#[test]
fn a_switch_to_the_running_project_or_during_a_break_is_refused() {
    let on = Some("Alpha".to_string());
    assert_eq!(switch_refusal(false, &on, "Beta"), None);
    assert_eq!(switch_refusal(false, &on, "Alpha"), Some("already on Alpha".to_string()));
    assert_eq!(switch_refusal(false, &None, "Alpha"), None);
    assert_eq!(
        switch_refusal(true, &on, "Beta"),
        Some("on break; use tk in -p PROJECT".to_string())
    );
}

#[test]
fn a_day_with_entries_keeps_its_type() {
    assert_eq!(kind_change_refusal(d(2026, 9, 15), 0), None);
    assert_eq!(
        kind_change_refusal(d(2026, 9, 15), 1),
        Some("2026-09-15 has 1 time entry; remove them before changing the day type".to_string())
    );
    assert_eq!(
        kind_change_refusal(d(2026, 9, 15), 3),
        Some("2026-09-15 has 3 time entries; remove them before changing the day type".to_string())
    );
}
