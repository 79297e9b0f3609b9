use tk::types::DayKind;
use tk::ui::{
    MonthLayout, bar_len, filter_projects, hints_width, kind_index, month_layout, month_name,
    nearest_256, picker_fields, settings_fields, truncate, zero_column,
};

#[test]
fn months_are_named_in_english() {
    assert_eq!(month_name(1), "January");
    assert_eq!(month_name(9), "September");
    assert_eq!(month_name(12), "December");
    assert_eq!(month_name(0), "January");
    assert_eq!(month_name(13), "December");
}

#[test]
fn kinds_cycle_in_the_editor_order() {
    assert_eq!(kind_index(&DayKind::Work), 0);
    assert_eq!(kind_index(&DayKind::Sick), 4);
    assert_eq!(kind_index(&DayKind::Absence { label: "x".into() }), 5);
}

#[test]
fn the_hint_row_width_counts_pairs_and_gaps() {
    assert_eq!(hints_width(&[("q", "quit")]), 7);
    assert_eq!(hints_width(&[("q", "quit"), ("?", "help")]), 15);
    assert_eq!(hints_width(&[]), 1);
}

#[test]
fn long_text_ends_in_an_ellipsis() {
    assert_eq!(truncate("Alpha", 10), "Alpha");
    assert_eq!(truncate("Alphabet", 5), "Alph…");
    assert_eq!(truncate("Alpha", 0), "…");
}

#[test]
fn colours_fall_on_the_nearest_cube_level() {
    assert_eq!(nearest_256(0, 0, 0), 16);
    assert_eq!(nearest_256(255, 255, 255), 231);
    assert_eq!(nearest_256(0xa6, 0xe3, 0xa1), 16 + 36 * 3 + 6 * 4 + 3);
}

#[test]
fn a_bar_is_never_rounded_away() {
    assert_eq!(bar_len(10, 0, 100), 0);
    assert_eq!(bar_len(10, 50, 100), 5);
    assert_eq!(bar_len(10, 4, 1000), 1);
    assert_eq!(bar_len(10, 100, 100), 10);
    assert_eq!(bar_len(10, 25, 100), 3);
    assert_eq!(bar_len(10, -50, -100), 5);
}

#[test]
fn the_zero_line_takes_the_negative_share() {
    assert_eq!(zero_column(21, 0, 100), 0);
    assert_eq!(zero_column(21, 100, 0), 20);
    assert_eq!(zero_column(21, 100, 100), 10);
    assert_eq!(zero_column(2, 100, 50), 1);
    assert_eq!(zero_column(21, 1, 1000), 1);
}

#[test]
fn projects_filter_without_regard_to_case() {
    let p = vec!["Alpha".to_string(), "Beta".to_string(), "alphabet".to_string()];
    assert_eq!(filter_projects(&p, "ALP"), vec!["Alpha".to_string(), "alphabet".to_string()]);
    assert_eq!(filter_projects(&p, " et "), vec!["Beta".to_string(), "alphabet".to_string()]);
    assert_eq!(filter_projects(&p, ""), p);
}

#[test]
fn the_forms_have_their_fields() {
    let s = settings_fields();
    assert_eq!(s.len(), 4);
    assert_eq!(s[0].label, "Start date");
    assert_eq!(s[3].placeholder, "30");
    let p = picker_fields();
    assert_eq!(p[0].label, "Project");
}

#[test]
fn the_month_screen_drops_the_comment_and_stacks_the_summary_when_narrow() {
    // Below 90 columns there is no comment column; below 100 the summary sits
    // under the table and takes at most a third of the height.
    assert_eq!(
        month_layout(89, 30, 2),
        MonthLayout { show_comment: false, stacked: true, summary_h: 6, comment_w: 0 }
    );
    assert_eq!(
        month_layout(90, 30, 2),
        MonthLayout { show_comment: true, stacked: true, summary_h: 6, comment_w: 25 }
    );
    assert_eq!(
        month_layout(99, 12, 10),
        MonthLayout { show_comment: true, stacked: true, summary_h: 4, comment_w: 34 }
    );
    assert_eq!(
        month_layout(100, 12, 10),
        MonthLayout { show_comment: true, stacked: false, summary_h: 14, comment_w: 35 }
    );
    // Five rows at the least, one at the least when the terminal is tiny.
    assert_eq!(month_layout(120, 40, 0).summary_h, 5);
    assert_eq!(month_layout(80, 2, 0).summary_h, 1);
}
