use tk::balance::Rules;
use tk::booking::SplitRefusal;
use tk::breaks::default_tiers;
use tk::clock::{Session, SessionState};
use tk::date::{Date, DateTime, Time};
use tk::forms::{FormData, SettingsData};
use tk::minutes::{HoursFormat, Minutes};
use tk::month::MonthData;
use tk::periods::RangeKind;
use tk::screen::{
    ClockAction, ClockInfo, Confirm, DayData, Effect, Model, Msg, Notice, Overlay, ProjectsData, PromptKind,
    Screen, SplitFollowup, StoreCmd, StoreReply,
};
use tk::types::{Day, DayKind, Entry, Project};
use tk::ui::ChartMode;

fn d(y: i32, m: u32, dd: u32) -> Date {
    Date::from_ymd_opt(y, m, dd).unwrap()
}

fn t(h: u32, m: u32) -> Time {
    Time::from_hms_opt(h, m, 0).unwrap()
}

/// The model, with what a terminal front end does with its effects: the
/// commands it sends to the store, the status line it shows, whether it
/// repaints, and the split box opened on request.
struct Harness {
    m: Model,
    sent: Vec<StoreCmd>,
    status: Option<(String, bool)>,
    redraw: bool,
    footers: Vec<(Overlay, String, bool)>,
    opened: Vec<String>,
}

impl Harness {
    fn update(&mut self, msg: Msg) {
        let fx = self.m.update(msg);
        self.redraw = true;
        self.apply(fx);
    }

    fn on_store(&mut self, reply: StoreReply) {
        let fx = self.m.on_store(reply);
        self.apply(fx);
    }

    fn apply(&mut self, fx: Vec<Effect>) {
        for e in fx {
            match e {
                Effect::Send(c) => self.sent.push(c),
                Effect::Say(n) => self.status = Some(n.text()),
                Effect::SayText(text, error) => self.status = Some((text, error)),
                Effect::OpenBreakSplit { date, entry_id } => self.update(Msg::OpenBreakSplit { date, entry_id }),
                Effect::Footer(o, text, error) => self.footers.push((o, text, error)),
                Effect::OpenClockPicker { title, .. } => self.opened.push(title),
                Effect::OpenSplitBox { title, .. } => self.opened.push(title),
                _ => {}
            }
        }
    }

    /// The next command the store would receive.
    fn try_recv(&mut self) -> Option<StoreCmd> {
        if self.sent.is_empty() {
            None
        } else {
            Some(self.sent.remove(0))
        }
    }
}

fn model(today: Date) -> Harness {
    Harness {
        m: Model {
            rules: Rules {
                daily_target: Minutes(468),
                tiers: default_tiers(),
                start_date: today,
                initial_balance: Minutes(0),
            },
            vacation_allowance: 30,
            hours: HoursFormat::Hm,
            screen: Screen::Month,
            selected: today,
            today,
            now: t(10, 0),
            month: None,
            day: None,
            stats: None,
            day_cursor: 0,
            form: None,
            settings: None,
            break_split: None,
            confirm: None,
            help: false,
            quit: false,
            stats_range: RangeKind::Month,
            clock_picker: None,
            stats_anchor: today,
            chart_mode: ChartMode::PerPeriod,
            split_followup: None,
            anchor: None,
            projects: None,
            projects_cursor: 0,
            prompt: None,
        },
        sent: Vec::new(),
        status: None,
        redraw: false,
        footers: Vec::new(),
        opened: Vec::new(),
    }
}

fn month_data(today: Date, days: Vec<Day>, session: Option<Session>) -> MonthData {
    MonthData {
        year: today.year(),
        month: today.month(),
        days,
        balance_before: Minutes(0),
        balance_total: Minutes(0),
        session,
        projects: vec![],
        last_used_project: None,
        vacation_used_this_year: 0,
    }
}

fn month_with_projects(today: Date, names: &[&str], last: Option<&str>, session: Option<Session>) -> MonthData {
    let mut m = month_data(today, vec![], session);
    m.projects = names
        .iter()
        .enumerate()
        .map(|(i, n)| Project {
            id: i as i64 + 1,
            name: (*n).to_string(),
            color_index: i as u8,
            archived: false,
        })
        .collect();
    m.last_used_project = last.map(str::to_string);
    m
}

fn entry(id: i64, date: Date, s: Time, e: Time, project: &str, comment: &str) -> Entry {
    Entry {
        id,
        date,
        start: s,
        end: e,
        project: project.into(),
        comment: comment.into(),
        break_share: None,
    }
}

fn form(id: Option<i64>, start: &str, end: &str, project: &str, comment: &str) -> FormData {
    FormData {
        id,
        start: start.into(),
        end: end.into(),
        project: project.into(),
        comment: comment.into(),
    }
}

fn day_data(date: Date, kind: DayKind, entries: Vec<Entry>) -> DayData {
    DayData {
        day: Day { date, kind, entries },
        projects: vec![],
    }
}

fn paused_session(today: Date, project: &str) -> Session {
    Session {
        date: today,
        start: t(12, 3),
        project: Some(project.to_string()),
        state: SessionState::Break,
    }
}

fn two_project_day(today: Date) -> Vec<Entry> {
    vec![
        entry(1, today, t(8, 0), t(12, 0), "Alpha", "morning"),
        entry(2, today, t(12, 0), t(17, 0), "Beta", "afternoon"),
    ]
}

fn day_screen_with(h: &mut Harness, today: Date, entries: Vec<Entry>) {
    h.m.screen = Screen::Day;
    h.m.day = Some(day_data(today, DayKind::Work, entries));
}

fn work_days(from: Date, to: Date) -> Vec<Day> {
    let mut out = Vec::new();
    let mut date = from;
    while date.not_after(&to) {
        out.push(Day {
            date,
            kind: DayKind::Work,
            entries: vec![],
        });
        date = date.succ_opt().unwrap();
    }
    out
}

fn projects_data() -> ProjectsData {
    let p = |id, name: &str, archived| Project {
        id,
        name: name.into(),
        color_index: 0,
        archived,
    };
    ProjectsData {
        projects: vec![p(1, "Alpha", false), p(2, "Old", true)],
        net_by_project: vec![("Alpha".to_string(), Minutes(600))],
    }
}

#[test]
fn set_kind_asks_confirm_then_sends_cmd() {
    let today = d(2026, 9, 15);
    let mut h = model(today);
    h.m.month = Some(month_data(
        today,
        vec![Day {
            date: today,
            kind: DayKind::Work,
            entries: vec![],
        }],
        None,
    ));
    h.update(Msg::SetKind(DayKind::Vacation));
    assert_eq!(h.m.confirm, Some(Confirm::SetKind(today, DayKind::Vacation)));
    h.update(Msg::ConfirmYes);
    assert_eq!(h.m.confirm, None);
    assert!(matches!(h.try_recv().unwrap(), StoreCmd::SetKind(dt, DayKind::Vacation) if dt == today));
}

#[test]
fn set_kind_on_day_with_entries_is_refused() {
    let today = d(2026, 9, 15);
    let mut h = model(today);
    let e = entry(1, today, t(8, 0), t(9, 0), "A", "");
    h.m.month = Some(month_data(
        today,
        vec![Day {
            date: today,
            kind: DayKind::Work,
            entries: vec![e],
        }],
        None,
    ));
    h.update(Msg::SetKind(DayKind::Sick));
    assert!(h.m.confirm.is_none());
    assert!(h.status.as_ref().unwrap().1);
    assert!(h.try_recv().is_none());
}

#[test]
fn clock_in_picks_a_project_then_clocks_in() {
    let today = d(2026, 9, 15);
    let mut h = model(today);
    h.m.month = Some(month_with_projects(today, &["Beta", "Alpha"], Some("Alpha"), None));
    h.update(Msg::OpenClockPicker);
    let st = h.m.clock_picker.as_ref().expect("the picker is open");
    assert_eq!(st.action, ClockAction::In, "nothing is running yet");
    assert_eq!(h.opened, vec!["Clock in — project".to_string()]);
    // The last used project is offered first, so Enter takes it.
    assert_eq!(h.m.picker_projects(None), vec!["Alpha".to_string(), "Beta".into()]);
    h.update(Msg::ClockPickerSubmit("Alpha".into()));
    assert!(h.m.clock_picker.is_none(), "the overlay closes on submit");
    assert!(matches!(
        h.try_recv().unwrap(),
        StoreCmd::ClockIn(dt, _, p) if dt == today && p == "Alpha"
    ));

    // Nothing running: `o` only complains.
    h.update(Msg::ClockOut);
    assert!(h.status.as_ref().unwrap().1);
    assert!(h.try_recv().is_none());
}

#[test]
fn clock_in_while_running_switches_the_project() {
    let today = d(2026, 9, 15);
    let mut h = model(today);
    let sess = Session {
        date: today,
        start: t(8, 0),
        project: Some("Alpha".into()),
        state: SessionState::Working,
    };
    h.m.month = Some(month_with_projects(today, &["Alpha", "Beta"], Some("Alpha"), Some(sess)));
    h.update(Msg::OpenClockPicker);
    assert_eq!(h.m.clock_picker.as_ref().expect("open").action, ClockAction::Switch);
    // The project already running is not on offer.
    assert_eq!(h.m.picker_projects(Some("Alpha")), vec!["Beta".to_string()]);
    h.update(Msg::ClockPickerSubmit("Beta".into()));
    assert!(matches!(
        h.try_recv().unwrap(),
        StoreCmd::Switch { project } if project == "Beta"
    ));

    // Esc closes the overlay without sending anything.
    h.update(Msg::OpenClockPicker);
    assert!(h.m.clock_picker.is_some());
    h.update(Msg::ClockPickerCancel);
    assert!(h.m.clock_picker.is_none());
    assert!(h.try_recv().is_none());

    // `o` books the running session on its own project.
    h.update(Msg::ClockOut);
    assert!(matches!(h.try_recv().unwrap(), StoreCmd::ClockOut));
}

#[test]
fn b_takes_a_break_only_while_the_clock_runs() {
    let today = d(2026, 9, 15);
    let mut h = model(today);
    // Nothing running: nothing to interrupt.
    h.m.month = Some(month_with_projects(today, &["Alpha"], Some("Alpha"), None));
    h.update(Msg::TakeBreak);
    assert!(h.status.as_ref().unwrap().1, "shown as an error");
    assert!(h.try_recv().is_none());

    // Clocked in and working: `b` books the work so far.
    let sess = Session {
        date: today,
        start: t(8, 12),
        project: Some("Alpha".into()),
        state: SessionState::Working,
    };
    h.m.month = Some(month_with_projects(today, &["Alpha"], Some("Alpha"), Some(sess)));
    h.update(Msg::TakeBreak);
    assert!(matches!(h.try_recv().unwrap(), StoreCmd::Break));

    // Already on a break: there is nothing left to book.
    h.m.month = Some(month_with_projects(today, &["Alpha"], Some("Alpha"), Some(paused_session(today, "Alpha"))));
    h.update(Msg::TakeBreak);
    assert!(h.status.as_ref().unwrap().0.contains("Already on break"));
    assert!(h.try_recv().is_none());
}

#[test]
fn on_a_break_i_resumes_and_o_ends_it() {
    let today = d(2026, 9, 15);
    let mut h = model(today);
    h.m.month = Some(month_with_projects(
        today,
        &["Alpha", "Beta"],
        Some("Alpha"),
        Some(paused_session(today, "Alpha")),
    ));
    h.update(Msg::OpenClockPicker);
    assert_eq!(h.m.clock_picker.as_ref().expect("open").action, ClockAction::Resume);
    // The project the break is on is offered first, so Enter comes back to
    // it — unlike a switch, which leaves the running project out.
    assert_eq!(h.m.resume_projects(Some("Alpha")), vec!["Alpha".to_string(), "Beta".into()]);
    h.update(Msg::ClockPickerSubmit("Alpha".into()));
    assert!(matches!(
        h.try_recv().unwrap(),
        StoreCmd::Resume { project: Some(p) } if p == "Alpha"
    ));
    // Another project is a resume too, not a switch.
    h.update(Msg::OpenClockPicker);
    h.update(Msg::ClockPickerSubmit("Beta".into()));
    assert!(matches!(
        h.try_recv().unwrap(),
        StoreCmd::Resume { project: Some(p) } if p == "Beta"
    ));
    // `o` ends the break: the store knows there is nothing to book.
    h.update(Msg::ClockOut);
    assert!(matches!(h.try_recv().unwrap(), StoreCmd::ClockOut));
}

#[test]
fn the_title_bar_says_when_a_break_is_on() {
    let today = d(2026, 9, 15);
    let mut h = model(today);
    h.m.now = t(12, 15);
    h.m.month = Some(month_data(today, vec![], Some(paused_session(today, "Alpha"))));
    let info = h.m.title_info();
    assert_eq!(
        info.clock,
        Some(ClockInfo {
            project: "Alpha".into(),
            since: "12:03".into(),
            running: Minutes(12),
            on_break: true,
        })
    );
    // The help names the key, even where the hint row has no room for it.
    assert!(
        h.m.help_keys().iter().any(|(k, d)| *k == "b" && d.contains("break")),
        "{:?}",
        h.m.help_keys()
    );
}

#[test]
fn clock_in_on_weekend_is_allowed() {
    // Weekend work counts positively towards the balance, so nothing refuses it.
    let sat = d(2026, 9, 19);
    let mut h = model(sat);
    h.m.month = Some(month_with_projects(sat, &["Alpha"], Some("Alpha"), None));
    h.update(Msg::OpenClockPicker);
    h.update(Msg::ClockPickerSubmit("Alpha".into()));
    assert!(matches!(h.try_recv().unwrap(), StoreCmd::ClockIn(dt, _, _) if dt == sat));
    assert!(h.status.is_none(), "no complaint in the status bar");
}

#[test]
fn a_session_from_yesterday_keeps_counting_past_midnight() {
    let today = d(2026, 9, 15);
    let mut h = model(today);
    h.m.now = t(1, 0);
    h.m.month = Some(month_data(
        today,
        vec![],
        Some(Session {
            date: d(2026, 9, 14),
            start: t(23, 0),
            project: Some("Alpha".into()),
            state: SessionState::Working,
        }),
    ));
    let info = h.m.title_info();
    assert_eq!(
        info.clock,
        Some(ClockInfo {
            project: "Alpha".to_string(),
            since: "23:00".to_string(),
            running: Minutes(120),
            on_break: false,
        })
    );
}

#[test]
fn navigation_and_month_change() {
    let today = d(2026, 1, 31);
    let mut h = model(today);
    h.update(Msg::SelectMonth(1));
    assert_eq!(h.m.selected, d(2026, 2, 28));
    assert!(matches!(h.try_recv().unwrap(), StoreCmd::LoadMonth { year: 2026, month: 2 }));
    h.update(Msg::SelectMonth(-2));
    assert_eq!(h.m.selected, d(2025, 12, 28));
    h.update(Msg::GoToday);
    assert_eq!(h.m.selected, today);
    h.update(Msg::SelectDay(1));
    assert_eq!(h.m.selected, d(2026, 2, 1));
}

#[test]
fn the_statistics_hints_name_the_navigation_keys() {
    let mut h = model(d(2026, 9, 15));
    h.m.screen = Screen::Stats;
    let hints = h.m.key_hints();
    for pair in [
        ("1-4", "range"),
        ("[ ]", "shift"),
        ("t", "today"),
        ("r", "running"),
        ("u", "units"),
        ("Esc", "back"),
    ] {
        assert!(hints.contains(&pair), "{pair:?} missing from {hints:?}");
    }
    // The whole set fits the minimum terminal, so nothing has to be trimmed.
    assert_eq!(h.m.key_hints_for(80), hints);
    let help = h.m.help_keys();
    for key in ["[ ]", "t", "r"] {
        assert!(help.iter().any(|(k, _)| *k == key), "{key} missing from the help");
    }
}

#[test]
fn r_toggles_the_chart_mode_and_navigation_keeps_it() {
    let today = d(2026, 9, 15);
    let mut h = model(today);
    h.update(Msg::OpenStats);
    assert_eq!(h.m.chart_mode, ChartMode::PerPeriod);
    h.redraw = false;
    h.update(Msg::ToggleChartMode);
    assert_eq!(h.m.chart_mode, ChartMode::Running);
    assert!(h.redraw, "the chart has to be repainted");
    let msgs = || {
        vec![
            ("StatsRange(Week)", Msg::StatsRange(RangeKind::Week)),
            ("StatsShift(-1)", Msg::StatsShift(-1)),
            ("StatsToday", Msg::StatsToday),
            ("Back", Msg::Back),
            ("OpenStats", Msg::OpenStats),
        ]
    };
    for (name, msg) in msgs() {
        h.update(msg);
        assert_eq!(h.m.chart_mode, ChartMode::Running, "lost after {name}");
    }
    h.update(Msg::ToggleChartMode);
    assert_eq!(h.m.chart_mode, ChartMode::PerPeriod);
}

#[test]
fn statistics_walk_through_periods() {
    let today = d(2026, 9, 15);
    let mut h = model(today);
    let loaded = |h: &mut Harness| match h.try_recv().unwrap() {
        StoreCmd::LoadStats { from, to, year } => (from, to, year),
        other => panic!("expected LoadStats, got {other:?}"),
    };
    h.update(Msg::OpenStats);
    assert_eq!(h.m.stats_anchor, today);
    assert_eq!(loaded(&mut h), (d(2026, 9, 1), d(2026, 9, 30), 2026));

    // One month back: the previous calendar month, not a window of 30 days.
    h.update(Msg::StatsShift(-1));
    assert_eq!(h.m.stats_anchor, d(2026, 8, 15));
    assert_eq!(loaded(&mut h), (d(2026, 8, 1), d(2026, 8, 31), 2026));

    // Switching the range keeps where the user has navigated to: Saturday
    // 15 August sits in the week Mon 10 … Sun 16.
    h.update(Msg::StatsRange(RangeKind::Week));
    assert_eq!(h.m.stats_anchor, d(2026, 8, 15));
    assert_eq!(loaded(&mut h), (d(2026, 8, 10), d(2026, 8, 16), 2026));

    // Two weeks on is fourteen days on.
    h.update(Msg::StatsShift(1));
    h.update(Msg::StatsShift(1));
    assert_eq!(h.m.stats_anchor, d(2026, 8, 29));
    let _ = loaded(&mut h);
    assert_eq!(loaded(&mut h), (d(2026, 8, 24), d(2026, 8, 30), 2026));

    // `t` comes back to the period today falls in.
    h.update(Msg::StatsToday);
    assert_eq!(h.m.stats_anchor, today);
    assert_eq!(loaded(&mut h), (d(2026, 9, 14), d(2026, 9, 20), 2026));

    // A year back asks for that year's vacation, so the allowance line is
    // about the year on screen.
    h.update(Msg::StatsRange(RangeKind::Year));
    assert_eq!(loaded(&mut h), (d(2026, 1, 1), d(2026, 12, 31), 2026));
    h.update(Msg::StatsShift(-1));
    assert_eq!(loaded(&mut h), (d(2025, 1, 1), d(2025, 12, 31), 2025));

    // Re-opening the screen starts at today again.
    h.update(Msg::Back);
    let _ = h.try_recv();
    h.update(Msg::OpenStats);
    assert_eq!(h.m.stats_anchor, today);
    assert_eq!(loaded(&mut h), (d(2026, 1, 1), d(2026, 12, 31), 2026));
}

#[test]
fn open_day_loads_and_focuses() {
    let today = d(2026, 9, 15);
    let mut h = model(today);
    h.update(Msg::OpenDay);
    assert_eq!(h.m.screen, Screen::Day);
    assert!(matches!(h.try_recv().unwrap(), StoreCmd::LoadDay(dt) if dt == today));
    h.update(Msg::Back);
    assert_eq!(h.m.screen, Screen::Month);
}

#[test]
fn day_delete_asks_confirm_for_selected_entry() {
    let today = d(2026, 9, 15);
    let mut h = model(today);
    h.m.screen = Screen::Day;
    h.m.day = Some(day_data(
        today,
        DayKind::Work,
        vec![entry(1, today, t(8, 0), t(9, 0), "A", ""), entry(2, today, t(10, 0), t(11, 0), "A", "")],
    ));
    h.update(Msg::DaySelect(1));
    h.update(Msg::DayDelete);
    assert_eq!(h.m.confirm, Some(Confirm::DeleteEntry(2)));
}

#[test]
fn form_submit_sends_add_or_update() {
    let today = d(2026, 9, 15);
    let mut h = model(today);
    h.m.screen = Screen::Day;
    h.m.day = Some(day_data(today, DayKind::Work, vec![]));
    // Surrounding whitespace must not reach the store.
    h.update(Msg::FormSubmit(form(None, "0900", "1200", " Alpha ", " x ")));
    assert!(matches!(
        h.try_recv().unwrap(),
        StoreCmd::AddEntry { date, start, end, project, comment }
            if date == today && start == t(9, 0) && end == t(12, 0) && project == "Alpha" && comment == "x"
    ));
    h.update(Msg::FormSubmit(form(Some(7), "09:00", "1200", "Alpha", "x")));
    assert!(matches!(
        h.try_recv().unwrap(),
        StoreCmd::UpdateEntry { id: 7, start, end, project, comment }
            if start == t(9, 0) && end == t(12, 0) && project == "Alpha" && comment == "x"
    ));
    h.update(Msg::DayAdd);
    assert!(h.m.form.is_some());
    h.update(Msg::FormSubmit(form(None, "zz", "1200", "Alpha", "")));
    assert!(h.try_recv().is_none());
    assert!(h.m.form.as_ref().unwrap().error.is_some());
}

#[test]
fn form_opens_prefilled_previews_and_cancels() {
    let today = d(2026, 9, 15);
    let mut h = model(today);
    h.m.screen = Screen::Day;
    h.m.day = Some(DayData {
        day: Day {
            date: today,
            kind: DayKind::Work,
            entries: vec![entry(1, today, t(8, 0), t(12, 0), "Alpha", "morning")],
        },
        projects: vec![Project {
            id: 1,
            name: "Alpha".into(),
            color_index: 0,
            archived: false,
        }],
    });

    // `e` edits the entry under the cursor, prefilled.
    h.update(Msg::DayEdit);
    let f = h.m.form.as_ref().expect("form open");
    assert_eq!(f.data.id, Some(1));
    assert_eq!(f.data.start, "08:00");
    assert_eq!(f.data.end, "12:00");
    assert_eq!(f.data.project, "Alpha");
    assert_eq!(f.data.comment, "morning");
    // Editing the entry against itself is valid, so the footer previews it.
    assert_eq!(f.error, None);
    // 4h gross crosses the first break tier: 18 minutes off, 3:42 net.
    assert_eq!(f.preview, Some((Minutes(240), Minutes(18), Minutes(222))));

    // A live edit that overlaps the entry's own old slot is fine; a bad time is not.
    let mut changed = h.m.form.as_ref().unwrap().data.clone();
    changed.start = "abc".into();
    h.update(Msg::FormChanged(changed));
    let f = h.m.form.as_ref().unwrap();
    assert!(f.error.as_deref().unwrap().contains("start"));
    assert_eq!(f.preview, None);

    // Esc closes the overlay and hands focus back to the day screen.
    h.update(Msg::FormCancel);
    assert!(h.m.form.is_none());

    // `a` opens a blank form; a new entry clashing with the existing one is refused.
    h.update(Msg::DayAdd);
    assert_eq!(h.m.form.as_ref().unwrap().data, FormData::default());
    // Nothing typed yet, so no complaint about the empty fields.
    assert_eq!(h.m.form.as_ref().unwrap().error, None);
    h.update(Msg::FormChanged(form(None, "1100", "1300", "Beta", "")));
    assert!(h.m.form.as_ref().unwrap().error.as_deref().unwrap().contains("overlap"));
    let again = h.m.form.as_ref().unwrap().data.clone();
    h.update(Msg::FormSubmit(again));
    assert!(h.try_recv().is_none());
    assert!(h.m.form.is_some(), "an invalid submit keeps the form open");

    // A valid slot after the existing entry goes through and closes the form.
    h.update(Msg::FormSubmit(form(None, "1300", "1600", "Beta", "")));
    assert!(matches!(
        h.try_recv().unwrap(),
        StoreCmd::AddEntry { project, .. } if project == "Beta"
    ));
    assert!(h.m.form.is_none());
}

#[test]
fn form_submit_refused_on_a_non_work_day() {
    let today = d(2026, 9, 15);
    let mut h = model(today);
    h.m.screen = Screen::Day;
    h.m.day = Some(day_data(today, DayKind::Vacation, vec![]));
    h.update(Msg::FormSubmit(form(None, "0900", "1200", "Alpha", "")));
    assert!(h.try_recv().is_none());
    assert!(h.status.as_ref().unwrap().1, "shown as an error");
}

#[test]
fn day_kind_cycle_sends_set_kind() {
    let today = d(2026, 9, 15);
    let mut h = model(today);
    h.m.screen = Screen::Day;
    h.m.day = Some(day_data(today, DayKind::Work, vec![]));
    h.update(Msg::DayKindNext);
    assert!(matches!(h.try_recv().unwrap(), StoreCmd::SetKind(_, DayKind::Vacation)));
    h.m.day.as_mut().unwrap().day.kind = DayKind::Vacation;
    h.update(Msg::DayKindPrev);
    assert!(matches!(h.try_recv().unwrap(), StoreCmd::SetKind(_, DayKind::Work)));
}

#[test]
fn b_opens_the_break_split_on_the_session_of_the_selected_entry() {
    let today = d(2026, 9, 15);
    let mut h = model(today);
    day_screen_with(&mut h, today, two_project_day(today));
    h.update(Msg::DayBreakSplit);
    let st = h.m.break_split.as_ref().expect("the box is open");
    // Both entries of the session, in clock order, whichever one the cursor
    // was on, and the session's own deduction.
    assert_eq!(st.session_entry_ids, vec![1, 2]);
    assert_eq!(st.deduction, Minutes(48));
    assert_eq!(st.grosses, vec![Minutes(240), Minutes(300)]);
    assert_eq!(st.values, vec![String::new(), String::new()]);
    assert_eq!(st.labels[0], "08:00–12:00  Alpha  (+04:00)");
    assert_eq!(st.error, None, "a box that only shows the stored shares");
    assert_eq!(h.opened, vec!["Break split — 2026-09-15".to_string()]);
    // Saving is the store's business, and it names the entries.
    h.update(Msg::BreakSplitSubmit(vec![(1, Some(Minutes(30))), (2, None)]));
    assert!(h.m.break_split.is_none(), "saving closes the box");
    match h.try_recv().unwrap() {
        StoreCmd::SetBreakShares(shares) => {
            assert_eq!(shares, vec![(1, Some(Minutes(30))), (2, None)]);
        },
        other => panic!("expected SetBreakShares, got {other:?}"),
    }

    // A share already stored is what the box opens on.
    let mut entries = two_project_day(today);
    entries[0].break_share = Some(Minutes(30));
    day_screen_with(&mut h, today, entries);
    h.update(Msg::DayBreakSplit);
    assert_eq!(h.m.break_split.as_ref().unwrap().values, vec!["30".to_string(), String::new()]);
    // Esc closes it without sending anything.
    h.update(Msg::BreakSplitCancel);
    assert!(h.m.break_split.is_none());
    assert!(h.try_recv().is_none());
}

#[test]
fn a_session_with_nothing_to_split_says_so_instead_of_opening() {
    let today = d(2026, 9, 15);
    let mut h = model(today);
    // One entry is one session: the whole break is on it, so there is
    // nothing to share out.
    day_screen_with(&mut h, today, vec![entry(1, today, t(8, 0), t(17, 0), "Alpha", "")]);
    h.update(Msg::DayBreakSplit);
    assert!(h.m.break_split.is_none());
    assert!(h.status.as_ref().unwrap().0.contains("whole break is on it"), "{:?}", h.status);
    // A session under the first tier loses nothing to split.
    day_screen_with(
        &mut h,
        today,
        vec![entry(1, today, t(8, 0), t(9, 0), "Alpha", ""), entry(2, today, t(9, 0), t(10, 0), "Beta", "")],
    );
    h.update(Msg::DayBreakSplit);
    assert!(h.m.break_split.is_none());
    assert!(h.status.as_ref().unwrap().0.contains("too short"), "{:?}", h.status);
    assert!(h.try_recv().is_none());
}

#[test]
fn over_assigning_the_break_is_refused_in_the_footer() {
    let today = d(2026, 9, 15);
    let mut h = model(today);
    day_screen_with(&mut h, today, two_project_day(today));
    h.update(Msg::DayBreakSplit);
    h.update(Msg::BreakSplitChanged(vec!["60".to_string(), "60".to_string()]));
    let err = h.m.break_split.as_ref().unwrap().error.clone().unwrap();
    assert!(err.contains("more than this session's break"), "{err}");
    // And a submit of the same figures is refused too: the box stays open
    // and nothing reaches the store.
    h.update(Msg::BreakSplitSubmit(vec![(1, Some(Minutes(60))), (2, Some(Minutes(60)))]));
    assert!(h.m.break_split.is_some(), "an invalid save keeps it open");
    assert!(h.try_recv().is_none());
    // Bringing it back inside the deduction saves.
    h.update(Msg::BreakSplitSubmit(vec![(1, Some(Minutes(24))), (2, Some(Minutes(24)))]));
    assert!(h.m.break_split.is_none());
    assert!(matches!(h.try_recv().unwrap(), StoreCmd::SetBreakShares(_)));
}

#[test]
fn a_multi_project_clock_out_opens_the_box_by_itself() {
    let today = d(2026, 9, 15);
    let mut h = model(today);
    h.m.month = Some(month_data(
        today,
        vec![Day {
            date: today,
            kind: DayKind::Work,
            entries: two_project_day(today),
        }],
        None,
    ));
    h.update(Msg::Store(StoreReply::Booked {
        entry_id: 2,
        date: today,
        session_projects: 2,
        deduction: Minutes(48),
        message: "Clocked out: 12:00–17:00 Beta (+05:00)".into(),
    }));
    let st = h.m.break_split.as_ref().expect("the box opened by itself");
    assert_eq!(st.session_entry_ids, vec![1, 2]);
    assert_eq!(st.deduction, Minutes(48));
    // The clock-out still says what it booked.
    assert_eq!(h.status.as_ref().unwrap().0, "Clocked out: 12:00–17:00 Beta (+05:00)");
    // …and the month was reloaded, as after any write.
    assert!(h.sent.iter().any(|c| matches!(c, StoreCmd::LoadMonth { .. })));
    h.update(Msg::BreakSplitCancel);

    // One project in the session: nothing to ask about.
    h.update(Msg::Store(StoreReply::Booked {
        entry_id: 2,
        date: today,
        session_projects: 1,
        deduction: Minutes(48),
        message: "Clocked out: 12:00–17:00 Beta (+05:00)".into(),
    }));
    assert!(h.m.break_split.is_none());
    assert_eq!(h.m.split_followup, None);
    // Nor when the session loses nothing.
    h.update(Msg::Store(StoreReply::Booked {
        entry_id: 2,
        date: today,
        session_projects: 2,
        deduction: Minutes(0),
        message: "Clocked out: 12:00–17:00 Beta (+05:00)".into(),
    }));
    assert!(h.m.break_split.is_none());
}

#[test]
fn the_box_waits_for_the_day_that_holds_the_booked_entry() {
    let today = d(2026, 9, 15);
    let mut h = model(today);
    let entries = two_project_day(today);
    // Only the morning is on screen so far.
    h.m.month = Some(month_data(
        today,
        vec![Day {
            date: today,
            kind: DayKind::Work,
            entries: vec![entries[0].clone()],
        }],
        None,
    ));
    h.update(Msg::Store(StoreReply::Booked {
        entry_id: 2,
        date: today,
        session_projects: 2,
        deduction: Minutes(48),
        message: "Clocked out: 12:00–17:00 Beta (+05:00)".into(),
    }));
    assert!(h.m.break_split.is_none(), "the entry is not on screen yet");
    assert_eq!(
        h.m.split_followup,
        Some(SplitFollowup::Open { date: today, entry_id: 2 }),
        "so the box stays queued"
    );
    // The refresh brings the entry, and the box opens on its session.
    h.update(Msg::Store(StoreReply::Month(month_data(
        today,
        vec![Day {
            date: today,
            kind: DayKind::Work,
            entries,
        }],
        None,
    ))));
    assert_eq!(h.m.break_split.as_ref().expect("now it opens").session_entry_ids, vec![1, 2]);
    assert_eq!(h.m.split_followup, None);
}

#[test]
fn a_queued_split_expires_when_its_day_is_not_in_the_month() {
    let today = d(2026, 9, 15);
    let mut h = model(today);
    // The user has walked to October; the clock-out books into September.
    h.m.selected = d(2026, 10, 5);
    h.m.month = Some(month_data(today, vec![], None));
    h.update(Msg::Store(StoreReply::Booked {
        entry_id: 2,
        date: today,
        session_projects: 2,
        deduction: Minutes(48),
        message: "Clocked out: 12:00–17:00 Beta (+05:00)".into(),
    }));
    assert_eq!(
        h.m.split_followup,
        Some(SplitFollowup::Open { date: today, entry_id: 2 }),
        "queued: the day is not in hand yet"
    );
    // October comes back, and it holds no September day.
    let mut october = month_data(today, vec![], None);
    october.year = 2026;
    october.month = 10;
    october.days = vec![Day {
        date: d(2026, 10, 5),
        kind: DayKind::Work,
        entries: vec![],
    }];
    h.update(Msg::Store(StoreReply::Month(october)));
    assert_eq!(h.m.split_followup, None, "the queued split is dropped");
    assert!(h.m.break_split.is_none());
    // And a later refresh of a month that does hold entries for that day
    // must not open anything: nothing is waiting any more.
    h.update(Msg::Store(StoreReply::Month(month_data(
        today,
        vec![Day {
            date: today,
            kind: DayKind::Work,
            entries: two_project_day(today),
        }],
        None,
    ))));
    assert!(h.m.break_split.is_none());
}

#[test]
fn saving_an_entry_hints_at_the_split() {
    let today = d(2026, 9, 15);
    let mut h = model(today);
    let entries = two_project_day(today);
    day_screen_with(&mut h, today, vec![entries[0].clone()]);
    // A second project straight on from noon: the session now spans two.
    h.update(Msg::FormSubmit(form(None, "1200", "1700", "Beta", "")));
    assert_eq!(h.m.split_followup, Some(SplitFollowup::Hint));
    h.update(Msg::Store(StoreReply::Changed("Added 12:00–17:00 Beta".into())));
    assert_eq!(h.status.as_ref().unwrap().0, "break on last project · press b to split");
    assert_eq!(h.m.split_followup, None, "the hint is shown once");
    assert!(h.m.break_split.is_none(), "no box in the way");

    // An entry whose session stays on one project says nothing.
    day_screen_with(&mut h, today, vec![]);
    h.update(Msg::FormSubmit(form(None, "0800", "1200", "Alpha", "")));
    assert_eq!(h.m.split_followup, None);
}

#[test]
fn settings_overlay_stays_open_on_an_invalid_value() {
    let today = d(2026, 9, 15);
    let mut h = model(today);
    h.update(Msg::OpenSettings);
    let mut bad = h.m.settings.as_ref().unwrap().data.clone();
    bad.target = "zz".into();
    h.update(Msg::SettingsChanged(bad.clone()));
    let err = h.m.settings.as_ref().unwrap().error.clone().unwrap();
    assert!(err.contains("target"), "{err}");
    let writes_before = h.sent.len();
    let fx = h.m.update(Msg::SettingsSubmit(bad));
    assert!(h.m.settings.is_some(), "an invalid submit keeps it open");
    assert!(!fx.iter().any(|e| matches!(e, Effect::SaveSettings(_))), "nothing was written");
    h.apply(fx);
    assert_eq!(h.sent.len(), writes_before);
    // Esc closes it without writing anything.
    let fx = h.m.update(Msg::SettingsCancel);
    assert!(h.m.settings.is_none());
    assert!(fx.is_empty());
}

#[test]
fn month_hints_and_help_mention_the_settings_key() {
    let h = model(d(2026, 9, 15));
    assert!(h.m.key_hints().contains(&("c", "settings")));
    assert!(h.m.help_keys().contains(&("c", "settings")));
}

#[test]
fn backup_key_sends_the_backup_command() {
    let today = d(2026, 9, 15);
    let mut h = model(today);
    h.update(Msg::Backup);
    assert!(matches!(h.try_recv().unwrap(), StoreCmd::Backup));
}

#[test]
fn v_drops_and_clears_the_anchor() {
    let today = d(2026, 9, 15);
    let mut h = model(today);
    h.m.month = Some(month_data(today, work_days(d(2026, 9, 1), d(2026, 9, 30)), None));
    h.update(Msg::ToggleAnchor);
    assert_eq!(h.m.anchor, Some(today));
    assert_eq!(
        h.status.as_ref().unwrap().0,
        "Range from Tue 15 Sep: v f x p w mark every weekday up to the cursor, V or Esc clears"
    );
    h.update(Msg::SelectDay(3));
    assert_eq!(h.m.anchor, Some(today), "moving keeps the anchor");
    h.update(Msg::ToggleAnchor);
    assert_eq!(h.m.anchor, None);
    assert_eq!(h.status.as_ref().unwrap().0, "Range cleared");
}

#[test]
fn a_day_type_key_with_an_anchor_confirms_the_whole_range_in_date_order() {
    let today = d(2026, 9, 18);
    let mut h = model(today);
    h.m.month = Some(month_data(today, work_days(d(2026, 9, 1), d(2026, 9, 30)), None));
    h.update(Msg::ToggleAnchor); // anchor Fri 18
    h.update(Msg::SelectDay(-4)); // cursor Mon 14
    h.update(Msg::SetKind(DayKind::Vacation));
    assert_eq!(
        h.m.confirm,
        Some(Confirm::SetKindRange {
            from: d(2026, 9, 14),
            to: d(2026, 9, 18),
            kind: DayKind::Vacation,
        })
    );
    assert_eq!(
        h.m.confirm_text(h.m.confirm.as_ref().unwrap()),
        "Set 5 weekdays, 2026-09-14 to 2026-09-18, to vacation?"
    );
    h.update(Msg::ConfirmNo);
    assert_eq!(h.m.anchor, Some(d(2026, 9, 18)), "declining keeps the anchor");
    h.update(Msg::SetKind(DayKind::Vacation));
    h.update(Msg::ConfirmYes);
    assert!(matches!(
        h.try_recv().unwrap(),
        StoreCmd::SetKindRange { from, to, kind: DayKind::Vacation }
            if from == d(2026, 9, 14) && to == d(2026, 9, 18)
    ));
    assert_eq!(h.m.anchor, None, "applying clears the anchor");
}

#[test]
fn esc_clears_the_anchor_before_anything_else() {
    let today = d(2026, 9, 15);
    let mut h = model(today);
    h.m.month = Some(month_data(today, work_days(d(2026, 9, 1), d(2026, 9, 30)), None));
    h.update(Msg::ToggleAnchor);
    h.update(Msg::Back);
    assert_eq!(h.m.anchor, None);
    assert_eq!(h.m.screen, Screen::Month);
}

#[test]
fn a_range_over_a_day_with_entries_is_left_to_the_worker() {
    let today = d(2026, 9, 15);
    let mut h = model(today);
    let e = entry(1, today, t(8, 0), t(9, 0), "A", "");
    let mut days = work_days(d(2026, 9, 1), d(2026, 9, 30));
    days.iter_mut().find(|dd| dd.date == today).unwrap().entries = vec![e];
    h.m.month = Some(month_data(today, days, None));
    h.update(Msg::ToggleAnchor);
    h.update(Msg::SetKind(DayKind::Sick));
    assert_eq!(
        h.m.confirm,
        Some(Confirm::SetKindRange {
            from: today,
            to: today,
            kind: DayKind::Sick,
        }),
        "the single-day pre-checks do not stand in a range's way"
    );
    h.update(Msg::ConfirmYes);
    assert!(matches!(h.try_recv().unwrap(), StoreCmd::SetKindRange { .. }));
}

#[test]
fn shift_p_opens_the_projects_screen_and_loads_it() {
    let mut h = model(d(2026, 9, 15));
    h.update(Msg::OpenProjects);
    assert_eq!(h.m.screen, Screen::Projects);
    assert!(matches!(h.try_recv().unwrap(), StoreCmd::LoadProjects));
}

#[test]
fn a_flips_the_archived_flag_of_the_highlighted_project() {
    let mut h = model(d(2026, 9, 15));
    h.update(Msg::OpenProjects);
    let _ = h.try_recv();
    h.on_store(StoreReply::Projects(projects_data()));
    h.update(Msg::ProjectsSelect(1));
    h.update(Msg::ProjectsToggleArchive);
    assert!(matches!(
        h.try_recv().unwrap(),
        StoreCmd::ArchiveProject { name, archived: false } if name == "Old"
    ));
}

#[test]
fn the_month_help_lists_the_range_key() {
    let h = model(d(2026, 9, 15));
    assert!(h.m.help_keys().contains(&("V", "start / clear a range for the day-type keys")));
    assert!(!h.m.key_hints().iter().any(|(k, _)| *k == "V"), "the day hint row has no room for it");
}

#[test]
fn r_renames_through_the_name_box_and_blank_names_are_refused() {
    let mut h = model(d(2026, 9, 15));
    h.update(Msg::OpenProjects);
    let _ = h.try_recv();
    h.on_store(StoreReply::Projects(projects_data()));
    h.update(Msg::ProjectsRename);
    assert_eq!(h.m.prompt, Some(PromptKind::RenameProject { old: "Alpha".into() }));
    h.update(Msg::PromptSubmit("   ".into()));
    assert!(h.m.prompt.is_some(), "blank name keeps the box open");
    assert!(h.status.as_ref().is_some_and(|s| s.0.contains("must not be empty")));
    // The same name is no rename at all: the box just closes.
    h.update(Msg::PromptSubmit("Alpha".into()));
    assert_eq!(h.m.prompt, None);
    assert!(h.try_recv().is_none());
    h.update(Msg::ProjectsRename);
    h.update(Msg::PromptSubmit("Alpha2".into()));
    assert_eq!(h.m.prompt, None);
    assert!(matches!(
        h.try_recv().unwrap(),
        StoreCmd::RenameProject { old, new } if old == "Alpha" && new == "Alpha2"
    ));
}

#[test]
fn n_adds_a_project_through_the_name_box() {
    let mut h = model(d(2026, 9, 15));
    h.update(Msg::OpenProjects);
    let _ = h.try_recv();
    h.update(Msg::ProjectsAdd);
    assert_eq!(h.m.prompt, Some(PromptKind::AddProject));
    h.update(Msg::PromptSubmit("Gamma".into()));
    assert!(matches!(h.try_recv().unwrap(), StoreCmd::AddProject(n) if n == "Gamma"));
    // Esc on the box leaves nothing behind.
    h.update(Msg::ProjectsAdd);
    h.update(Msg::PromptCancel);
    assert_eq!(h.m.prompt, None);
}

#[test]
fn a_write_reloads_the_projects_screen_and_keeps_the_cursor() {
    let mut h = model(d(2026, 9, 15));
    h.update(Msg::OpenProjects);
    let _ = h.try_recv();
    h.on_store(StoreReply::Projects(projects_data()));
    h.update(Msg::ProjectsSelect(1));
    h.on_store(StoreReply::Changed("Old unarchived".into()));
    assert!(
        h.sent.iter().any(|c| matches!(c, StoreCmd::LoadProjects)),
        "the screen reloads itself after a write"
    );
    // A shorter list clamps the cursor instead of pointing past the end.
    let mut shorter = projects_data();
    shorter.projects.truncate(1);
    h.on_store(StoreReply::Projects(shorter));
    assert_eq!(h.m.projects_cursor, 0);
}

#[test]
fn leaving_the_projects_screen_reloads_the_month() {
    let mut h = model(d(2026, 9, 15));
    h.update(Msg::OpenProjects);
    let _ = h.try_recv();
    h.update(Msg::Back);
    assert_eq!(h.m.screen, Screen::Month);
    assert!(matches!(h.try_recv().unwrap(), StoreCmd::LoadMonth { .. }));
}

#[test]
fn the_projects_hints_and_help_name_its_keys() {
    let mut h = model(d(2026, 9, 15));
    h.m.screen = Screen::Projects;
    assert!(h.m.key_hints().contains(&("a", "archive")));
    assert!(h.m.help_keys().contains(&("a", "archive / unarchive")));
    h.m.screen = Screen::Month;
    assert!(h.m.help_keys().contains(&("P", "projects: archive, rename, add")));
}

// --- beyond the original's cases ---

#[test]
fn the_hours_toggle_asks_for_the_format_to_be_written_and_says_so() {
    let mut h = model(d(2026, 9, 15));
    let fx = h.m.update(Msg::ToggleHours);
    assert_eq!(h.m.hours, HoursFormat::Decimal);
    assert_eq!(fx, vec![Effect::SaveHours(HoursFormat::Decimal)]);
    h.update(Msg::HoursSaved(Ok(())));
    assert_eq!(h.status, Some(("Hours shown as decimal".to_string(), false)));
    h.update(Msg::ToggleHours);
    h.update(Msg::HoursSaved(Ok(())));
    assert_eq!(h.status, Some(("Hours shown as h:mm".to_string(), false)));
    h.update(Msg::HoursSaved(Err("disk full".into())));
    assert_eq!(h.status, Some(("hours format not saved: disk full".to_string(), true)));
    assert_eq!(h.m.hours, HoursFormat::Hm, "the toggle stays");
}

#[test]
fn settings_open_on_the_rules_in_force_and_a_save_reloads_the_month() {
    let today = d(2026, 9, 15);
    let mut h = model(today);
    let fx = h.m.update(Msg::OpenSettings);
    let s = h.m.settings.as_ref().expect("the overlay is open");
    assert_eq!(s.data.start, "2026-09-15");
    assert_eq!(s.data.balance, "+00:00");
    assert_eq!(s.data.target, "07:48");
    assert_eq!(s.data.vacation, "30");
    assert_eq!(s.error, None, "a freshly opened overlay does not complain");
    assert_eq!(
        fx[1],
        Effect::Footer(Overlay::Settings, "balance +00:00 · target 07:48 · vacation 30".into(), false)
    );
    let fx = h.m.update(Msg::SettingsSubmit(SettingsData {
        start: "2026-01-01".into(),
        balance: "-2:30".into(),
        target: "8:00".into(),
        vacation: "28".into(),
    }));
    match &fx[..] {
        [Effect::SaveSettings(p)] => {
            assert_eq!(p.start_date, Some(d(2026, 1, 1)));
            assert_eq!(p.initial_balance_minutes, Some(-150));
            assert_eq!(p.daily_target_minutes, Some(480));
            assert_eq!(p.vacation_days_per_year, Some(28));
        },
        other => panic!("expected a write, got {other:?}"),
    }
    let rules = Rules {
        daily_target: Minutes(480),
        tiers: default_tiers(),
        start_date: d(2026, 1, 1),
        initial_balance: Minutes(-150),
    };
    h.update(Msg::SettingsSaved(Ok((rules, 28))));
    assert_eq!(h.m.rules.daily_target, Minutes(480));
    assert_eq!(h.m.vacation_allowance, 28);
    assert!(h.m.settings.is_none(), "saving closes the overlay");
    assert!(matches!(h.try_recv().unwrap(), StoreCmd::LoadMonth { year: 2026, month: 9 }));
    assert_eq!(h.status, Some(("Settings saved".to_string(), false)));
}

#[test]
fn a_failed_settings_write_keeps_the_overlay_open_with_the_error() {
    let mut h = model(d(2026, 9, 15));
    h.update(Msg::OpenSettings);
    h.update(Msg::SettingsSaved(Err("read-only home".into())));
    assert_eq!(h.m.settings.as_ref().unwrap().error.as_deref(), Some("read-only home"));
    assert_eq!(h.footers.last(), Some(&(Overlay::Settings, "read-only home".to_string(), true)));
}

#[test]
fn the_month_title_is_the_month_in_capitals_and_the_year() {
    let mut h = model(d(2026, 9, 15));
    let info = h.m.title_info();
    assert_eq!(info.title, "SEPTEMBER 2026");
    assert_eq!(info.clock, None);
    assert_eq!(info.vacation, None);
    h.m.month = Some(month_data(d(2026, 9, 15), vec![], None));
    assert_eq!(h.m.title_info().vacation, Some((0, 30)));
}

#[test]
fn confirm_questions() {
    let h = model(d(2026, 9, 15));
    assert_eq!(h.m.confirm_text(&Confirm::DeleteEntry(3)), "Delete this entry?");
    assert_eq!(
        h.m.confirm_text(&Confirm::SetKind(d(2026, 9, 15), DayKind::Flex)),
        "Set 2026-09-15 to flex day?"
    );
    // A range over a weekend counts the weekdays only.
    assert_eq!(
        h.m.confirm_text(&Confirm::SetKindRange {
            from: d(2026, 9, 18),
            to: d(2026, 9, 22),
            kind: DayKind::Sick,
        }),
        "Set 3 weekdays, 2026-09-18 to 2026-09-22, to sick?"
    );
}

#[test]
fn a_narrow_month_screen_drops_the_day_type_hints() {
    let h = model(d(2026, 9, 15));
    assert_eq!(h.m.key_hints_for(92), h.m.key_hints());
    let narrow = h.m.key_hints_for(91);
    assert!(!narrow.contains(&("v f x p", "day type")));
    assert_eq!(narrow.len(), 8);
}

#[test]
fn a_new_day_reloads_the_month_on_the_clock_tick() {
    let today = d(2026, 9, 15);
    let mut h = model(today);
    h.update(Msg::Tick(DateTime::new(today, t(10, 30))));
    assert_eq!(h.m.now, t(10, 30));
    assert!(h.try_recv().is_none());
    h.update(Msg::Tick(DateTime::new(d(2026, 9, 16), t(0, 1))));
    assert_eq!(h.m.today, d(2026, 9, 16));
    assert!(matches!(h.try_recv().unwrap(), StoreCmd::LoadMonth { year: 2026, month: 9 }));
}

#[test]
fn notices_read_as_the_status_line_shows_them() {
    assert_eq!(Notice::NotClockedIn.text(), ("Not clocked in".to_string(), true));
    assert_eq!(
        Notice::Refused(SplitRefusal::TooShort).text(),
        ("This session is too short to lose a break".to_string(), false)
    );
    assert_eq!(Notice::RangeCleared.text(), ("Range cleared".to_string(), false));
}

#[test]
fn every_screens_hints_fit_eighty_columns() {
    let mut h = model(d(2026, 9, 15));
    for s in [Screen::Month, Screen::Day, Screen::Stats, Screen::Projects] {
        h.m.screen = s;
        let hints = h.m.key_hints_for(80);
        assert!(tk::ui::hints_width(&hints) <= 80, "{s:?}");
        assert!(tk::ui::hints_width(&h.m.key_hints_for(92)) <= 92, "{s:?}");
    }
}
