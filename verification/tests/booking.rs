use tk::booking::{SplitRefusal, break_split_plan, split_is_worth_offering};
use tk::breaks::default_tiers;
use tk::date::{Date, Time};
use tk::minutes::{HoursFormat, Minutes};
use tk::types::Entry;

fn d(y: i32, m: u32, dd: u32) -> Date {
    Date::from_ymd_opt(y, m, dd).unwrap()
}

fn t(h: u32, m: u32) -> Time {
    Time::from_hms_opt(h, m, 0).unwrap()
}

fn span(id: i64, s: (u32, u32), e: (u32, u32), project: &str, share: Option<i32>) -> Entry {
    Entry {
        id,
        date: d(2026, 9, 15),
        start: t(s.0, s.1),
        end: t(e.0, e.1),
        project: project.into(),
        comment: String::new(),
        break_share: share.map(Minutes),
    }
}

fn two_projects() -> Vec<Entry> {
    vec![
        span(1, (8, 0), (11, 0), "Alpha", None),
        span(2, (11, 0), (15, 0), "Beta", None),
    ]
}

#[test]
fn split_offered_for_a_long_session_over_two_projects() {
    assert!(split_is_worth_offering(&two_projects(), 1, &default_tiers()));
    assert!(split_is_worth_offering(&two_projects(), 2, &default_tiers()));
}

#[test]
fn split_not_offered_for_one_project_or_a_short_session() {
    let same = vec![
        span(1, (8, 0), (11, 0), "Alpha", None),
        span(2, (11, 0), (15, 0), "Alpha", None),
    ];
    assert!(!split_is_worth_offering(&same, 1, &default_tiers()));
    let short = vec![
        span(1, (8, 0), (9, 0), "Alpha", None),
        span(2, (9, 0), (10, 0), "Beta", None),
    ];
    assert!(!split_is_worth_offering(&short, 1, &default_tiers()));
    assert!(!split_is_worth_offering(&two_projects(), 99, &default_tiers()));
}

#[test]
fn split_plan_boxes_show_labels_shares_and_defaults() {
    let p = break_split_plan(&two_projects(), 2, &default_tiers(), HoursFormat::Hm)
        .ok()
        .unwrap();
    assert_eq!(p.deduction, Minutes(48));
    assert_eq!(p.grosses, vec![Minutes(180), Minutes(240)]);
    assert_eq!(p.fields.len(), 2);
    assert_eq!(p.fields[0].entry_id, 1);
    assert_eq!(p.fields[0].label, "08:00–11:00  Alpha  (+03:00)");
    assert_eq!(p.fields[0].value, "");
    assert_eq!(p.fields[0].placeholder, "0");
    assert_eq!(p.fields[1].entry_id, 2);
    assert_eq!(p.fields[1].label, "11:00–15:00  Beta  (+04:00)");
    assert_eq!(p.fields[1].placeholder, "48");
}

#[test]
fn split_plan_shows_a_share_given_by_hand() {
    let entries = vec![
        span(1, (8, 0), (11, 0), "Alpha", Some(20)),
        span(2, (11, 0), (15, 0), "Beta", None),
    ];
    let p = break_split_plan(&entries, 1, &default_tiers(), HoursFormat::Hm)
        .ok()
        .unwrap();
    assert_eq!(p.fields[0].value, "20");
    assert_eq!(p.fields[1].value, "");
    assert_eq!(p.fields[0].placeholder, "0");
    assert_eq!(p.fields[1].placeholder, "48");
}

#[test]
fn split_plan_refusals() {
    let gone = break_split_plan(&two_projects(), 7, &default_tiers(), HoursFormat::Hm);
    assert!(matches!(gone, Err(SplitRefusal::Gone)));
    let short = vec![span(1, (8, 0), (9, 0), "Alpha", None), span(2, (9, 0), (10, 0), "Beta", None)];
    let r = break_split_plan(&short, 1, &default_tiers(), HoursFormat::Hm);
    assert!(matches!(r, Err(SplitRefusal::TooShort)));
    let single = vec![span(1, (8, 0), (16, 0), "Alpha", None)];
    let r = break_split_plan(&single, 1, &default_tiers(), HoursFormat::Hm);
    assert!(matches!(r, Err(SplitRefusal::Single)));
    assert_eq!(SplitRefusal::Gone.message(), ("That entry is not on screen any more", true));
    assert_eq!(
        SplitRefusal::Single.message(),
        ("One entry in this session: the whole break is on it", false)
    );
}

#[test]
fn separate_sessions_are_split_on_their_own() {
    let entries = vec![
        span(1, (8, 0), (10, 0), "Alpha", None),
        span(2, (13, 0), (15, 0), "Beta", None),
    ];
    let r = break_split_plan(&entries, 2, &default_tiers(), HoursFormat::Hm);
    assert!(matches!(r, Err(SplitRefusal::TooShort)));
}
