use tk::keys::{
    Edit, FormKey, Key, KeyPress, PickKey, ENTRY_FIELDS, PROJECT_FIELD, clock_picker_key, confirm_key, day_key,
    entry_form_key, form_key, month_key, picked, projects_key, split_submit, stats_key,
};
use tk::minutes::Minutes;
use tk::periods::RangeKind;
use tk::screen::Msg;
use tk::types::DayKind;
use tk::ui::filter_projects;

fn key(c: Key) -> KeyPress {
    KeyPress::plain(c)
}

fn ch(c: char) -> KeyPress {
    KeyPress::plain(Key::Char(c))
}

fn strings(v: &[&str]) -> Vec<String> {
    v.iter().map(|s| s.to_string()).collect()
}

#[test]
fn u_toggles_the_hours_format() {
    assert!(matches!(day_key(ch('u')), Some(Msg::ToggleHours)));
}

#[test]
fn digits_pick_the_range() {
    assert!(matches!(stats_key(ch('1')), Some(Msg::StatsRange(RangeKind::Week))));
    assert!(matches!(stats_key(ch('2')), Some(Msg::StatsRange(RangeKind::Month))));
    assert!(matches!(stats_key(ch('3')), Some(Msg::StatsRange(RangeKind::Quarter))));
    assert!(matches!(stats_key(ch('4')), Some(Msg::StatsRange(RangeKind::Year))));
    assert!(stats_key(ch('5')).is_none());
    assert!(matches!(stats_key(ch('u')), Some(Msg::ToggleHours)));
}

#[test]
fn brackets_and_t_walk_through_periods() {
    assert!(matches!(stats_key(ch('[')), Some(Msg::StatsShift(-1))));
    assert!(matches!(stats_key(ch(']')), Some(Msg::StatsShift(1))));
    assert!(matches!(stats_key(key(Key::PageUp)), Some(Msg::StatsShift(-1))));
    assert!(matches!(stats_key(key(Key::PageDown)), Some(Msg::StatsShift(1))));
    assert!(matches!(stats_key(ch('t')), Some(Msg::StatsToday)));
}

#[test]
fn r_toggles_the_chart_mode() {
    assert!(matches!(stats_key(ch('r')), Some(Msg::ToggleChartMode)));
}

#[test]
fn letters_map_to_project_actions() {
    assert!(matches!(projects_key(ch('a')), Some(Msg::ProjectsToggleArchive)));
    assert!(matches!(projects_key(ch('r')), Some(Msg::ProjectsRename)));
    assert!(matches!(projects_key(ch('n')), Some(Msg::ProjectsAdd)));
    assert!(matches!(projects_key(ch('j')), Some(Msg::ProjectsSelect(1))));
    assert!(matches!(projects_key(ch('k')), Some(Msg::ProjectsSelect(-1))));
    assert!(matches!(projects_key(ch('u')), Some(Msg::ToggleHours)));
    assert!(matches!(projects_key(ch('q')), Some(Msg::Back)));
    assert!(projects_key(ch('z')).is_none());
}

#[test]
fn ctrl_c_quits_from_the_dialog() {
    assert!(matches!(confirm_key(KeyPress::ctrl('c')), Some(Msg::Quit)));
    // A bare `c` is not one of the dialog's keys and changes nothing.
    assert!(confirm_key(ch('c')).is_none());
    assert!(matches!(confirm_key(ch('y')), Some(Msg::ConfirmYes)));
}

#[test]
fn the_dialog_confirms_with_y_or_enter_and_cancels_with_n_esc_or_q() {
    assert!(matches!(confirm_key(key(Key::Enter)), Some(Msg::ConfirmYes)));
    for k in [ch('n'), key(Key::Esc), ch('q')] {
        assert!(matches!(confirm_key(k), Some(Msg::ConfirmNo)));
    }
}

#[test]
fn the_month_keys_follow_the_help() {
    assert!(matches!(month_key(ch('v')), Some(Msg::SetKind(DayKind::Vacation))));
    assert!(matches!(month_key(ch('f')), Some(Msg::SetKind(DayKind::Flex))));
    assert!(matches!(month_key(ch('x')), Some(Msg::SetKind(DayKind::Sick))));
    assert!(matches!(month_key(ch('p')), Some(Msg::SetKind(DayKind::Holiday))));
    assert!(matches!(month_key(ch('w')), Some(Msg::SetKind(DayKind::Work))));
    assert!(matches!(month_key(ch('P')), Some(Msg::OpenProjects)));
    assert!(matches!(month_key(ch('b')), Some(Msg::TakeBreak)));
    assert!(matches!(month_key(ch('V')), Some(Msg::ToggleAnchor)));
    assert!(matches!(month_key(ch('B')), Some(Msg::Backup)));
    assert!(matches!(month_key(key(Key::PageDown)), Some(Msg::SelectMonth(1))));
    assert!(matches!(month_key(ch('k')), Some(Msg::SelectDay(-1))));
    assert!(matches!(month_key(KeyPress::ctrl('c')), Some(Msg::Quit)));
    // Ctrl+C is quit, a bare `c` the settings.
    assert!(matches!(month_key(ch('c')), Some(Msg::OpenSettings)));
    assert!(month_key(ch('z')).is_none());
}

#[test]
fn the_day_keys_edit_entries_and_cycle_the_kind() {
    assert!(matches!(day_key(key(Key::Enter)), Some(Msg::DayEdit)));
    assert!(matches!(day_key(key(Key::Delete)), Some(Msg::DayDelete)));
    assert!(matches!(day_key(ch('h')), Some(Msg::DayKindPrev)));
    assert!(matches!(day_key(key(Key::Right)), Some(Msg::DayKindNext)));
    assert!(matches!(day_key(ch('b')), Some(Msg::DayBreakSplit)));
    assert!(matches!(day_key(ch('q')), Some(Msg::Back)));
}

#[test]
fn navigates_edits_and_reports_events() {
    // Tab and Enter walk forward, Shift+Tab walks back, both wrapping.
    assert_eq!(form_key(ch('a'), 0, 3), FormKey::Edit(Edit::Type('a')));
    assert_eq!(form_key(key(Key::Tab), 0, 3), FormKey::Focus(1));
    assert_eq!(form_key(key(Key::Enter), 1, 3), FormKey::Focus(2));
    // Enter on the last field submits instead of wrapping.
    assert_eq!(form_key(key(Key::Enter), 2, 3), FormKey::Submit);
    assert_eq!(form_key(key(Key::BackTab), 2, 3), FormKey::Focus(1));
    assert_eq!(form_key(key(Key::Tab), 2, 3), FormKey::Focus(0), "Tab wraps round");
    assert_eq!(form_key(key(Key::BackTab), 0, 3), FormKey::Focus(2));
    // Editing keys go to the field.
    assert_eq!(form_key(key(Key::Backspace), 0, 3), FormKey::Edit(Edit::Backspace));
    assert_eq!(form_key(key(Key::Home), 0, 3), FormKey::Edit(Edit::Home));
    // A key the form has no use for is ignored rather than typed.
    assert_eq!(form_key(key(Key::Other), 1, 3), FormKey::Ignored);
    // Esc cancels; Ctrl+S saves; Ctrl+C quits; every other chord is swallowed.
    assert_eq!(form_key(key(Key::Esc), 1, 3), FormKey::Cancel);
    assert_eq!(form_key(KeyPress::ctrl('s'), 1, 3), FormKey::Submit);
    assert_eq!(form_key(KeyPress::ctrl('c'), 1, 3), FormKey::Quit);
    assert_eq!(form_key(KeyPress::ctrl('x'), 1, 3), FormKey::Ignored);
}

#[test]
fn typing_moves_focus_and_reports_changes() {
    let projects = strings(&["Alpha", "Beta", "alphabet"]);
    // Tab leaves the start field, Enter on a middle field just advances.
    assert_eq!(entry_form_key(key(Key::Tab), 0, 0, 3), PickKey::Form(FormKey::Focus(1), 0));
    assert_eq!(
        entry_form_key(key(Key::Enter), 1, 0, 3),
        PickKey::Form(FormKey::Focus(PROJECT_FIELD), 0)
    );
    // Typing filters the picker case-insensitively, and starts at its first match.
    let matches = filter_projects(&projects, "al");
    assert_eq!(matches, strings(&["Alpha", "alphabet"]));
    assert_eq!(
        entry_form_key(ch('l'), PROJECT_FIELD, 1, 2),
        PickKey::Form(FormKey::Edit(Edit::Type('l')), 0)
    );
    // Down moves the highlight, Enter takes it.
    assert_eq!(entry_form_key(key(Key::Down), PROJECT_FIELD, 0, matches.len()), PickKey::Highlight(1));
    assert_eq!(entry_form_key(key(Key::Down), PROJECT_FIELD, 1, matches.len()), PickKey::Highlight(1));
    assert_eq!(entry_form_key(key(Key::Up), PROJECT_FIELD, 1, matches.len()), PickKey::Highlight(0));
    assert_eq!(entry_form_key(key(Key::Enter), PROJECT_FIELD, 1, matches.len()), PickKey::Take);
    assert_eq!(picked(&matches, 1, "al"), "alphabet");
    // Enter on the last field submits; Esc cancels, Ctrl+S saves, Ctrl+C quits.
    let last = ENTRY_FIELDS - 1;
    assert_eq!(entry_form_key(key(Key::Enter), last, 0, 3), PickKey::Form(FormKey::Submit, 0));
    assert_eq!(entry_form_key(key(Key::Esc), last, 0, 3), PickKey::Form(FormKey::Cancel, 0));
    assert_eq!(entry_form_key(KeyPress::ctrl('s'), PROJECT_FIELD, 1, 3), PickKey::Form(FormKey::Submit, 0));
    assert_eq!(entry_form_key(KeyPress::ctrl('c'), last, 0, 3), PickKey::Form(FormKey::Quit, 0));
    // Any other chord is still swallowed rather than typed.
    assert_eq!(entry_form_key(KeyPress::ctrl('x'), last, 0, 3), PickKey::Form(FormKey::Ignored, 0));
    // Shift+Tab leaves the project field for the end time.
    assert_eq!(
        entry_form_key(key(Key::BackTab), PROJECT_FIELD, 1, 3),
        PickKey::Form(FormKey::Focus(1), 1)
    );
}

#[test]
fn backspace_and_unmatched_project_are_kept() {
    assert_eq!(entry_form_key(key(Key::Backspace), 0, 0, 1), PickKey::Form(FormKey::Edit(Edit::Backspace), 0));
    let matches = filter_projects(&strings(&["Alpha"]), "Zeta");
    assert!(matches.is_empty());
    // Taking from an empty picker keeps the typed name, which becomes a new project.
    assert_eq!(entry_form_key(key(Key::Tab), PROJECT_FIELD, 0, 0), PickKey::Take);
    assert_eq!(picked(&matches, 0, "Zeta"), "Zeta");
}

#[test]
fn typing_filters_and_enter_submits_the_highlighted_project() {
    let projects = strings(&["Beta", "Gamma", "beta-two"]);
    // Nothing typed: the first offer is what Enter takes.
    let all = filter_projects(&projects, "");
    assert_eq!(clock_picker_key(key(Key::Enter), 0, all.len()), PickKey::Take);
    assert_eq!(picked(&all, 0, ""), "Beta");
    // The filter is case-insensitive, and Down moves the highlight inside it.
    let bet = filter_projects(&projects, "bet");
    assert_eq!(bet, strings(&["Beta", "beta-two"]));
    assert_eq!(clock_picker_key(key(Key::Down), 0, bet.len()), PickKey::Highlight(1));
    assert_eq!(clock_picker_key(key(Key::Tab), 1, bet.len()), PickKey::Take);
    assert_eq!(picked(&bet, 1, "bet"), "beta-two");
    // A name that matches nothing is submitted as typed, and becomes a new project.
    let zeta = filter_projects(&projects, "Zeta");
    assert_eq!(picked(&zeta, 0, " Zeta "), "Zeta");
    // Typing starts again at the first match.
    assert_eq!(clock_picker_key(ch('a'), 1, 2), PickKey::Form(FormKey::Edit(Edit::Type('a')), 0));
}

#[test]
fn esc_cancels_and_ctrl_c_quits() {
    assert_eq!(clock_picker_key(key(Key::Esc), 0, 3), PickKey::Form(FormKey::Cancel, 0));
    assert_eq!(clock_picker_key(KeyPress::ctrl('c'), 0, 3), PickKey::Form(FormKey::Quit, 0));
}

#[test]
fn enter_submits_the_typed_name_and_esc_cancels() {
    assert_eq!(form_key(key(Key::Enter), 0, 1), FormKey::Submit);
    assert_eq!(form_key(key(Key::Esc), 0, 1), FormKey::Cancel);
}

#[test]
fn keys_map_to_settings_messages() {
    assert_eq!(form_key(key(Key::Tab), 0, 4), FormKey::Focus(1));
    assert_eq!(form_key(key(Key::Esc), 0, 4), FormKey::Cancel);
    assert_eq!(form_key(KeyPress::ctrl('s'), 0, 4), FormKey::Submit);
    assert_eq!(form_key(KeyPress::ctrl('c'), 0, 4), FormKey::Quit);
    assert_eq!(form_key(key(Key::Backspace), 3, 4), FormKey::Edit(Edit::Backspace));
}

#[test]
fn keys_map_to_break_split_messages() {
    let ids = [7i64, 9];
    // A submit names the entries, not the rows.
    assert_eq!(form_key(KeyPress::ctrl('s'), 0, 2), FormKey::Submit);
    match split_submit(&ids, &strings(&["30", ""])) {
        Msg::BreakSplitSubmit(v) => assert_eq!(v, vec![(7, Some(Minutes(30))), (9, None)]),
        _ => panic!("expected a submit"),
    }
    assert_eq!(form_key(key(Key::Esc), 0, 2), FormKey::Cancel);
    assert_eq!(form_key(KeyPress::ctrl('c'), 0, 2), FormKey::Quit);
    // A field that does not read as minutes is a change, not a submit: the
    // footer says why and the box stays open.
    match split_submit(&ids, &strings(&["30", "abc"])) {
        Msg::BreakSplitChanged(v) => assert_eq!(v, strings(&["30", "abc"])),
        _ => panic!("expected a change"),
    }
}
