use tk::date::{Date, Time};
use tk::import::{json_objects, parse_import};

fn d(y: i32, m: u32, day: u32) -> Date {
    Date::from_ymd_opt(y, m, day).unwrap()
}

#[test]
fn reads_the_tk_export_header() {
    let text = "date,start,end,project,comment,gross,net,break\n\
                2026-09-14,09:00,15:30,Alpha,note,06:30,05:42,00:48\n";
    let rows = parse_import(text).unwrap();
    assert_eq!(rows.len(), 1);
    assert_eq!(rows[0].date, d(2026, 9, 14));
    assert_eq!(rows[0].project, "Alpha");
    assert_eq!(rows[0].comment, "note");
    assert_eq!(rows[0].line, 2);
}

#[test]
fn reads_the_legacy_python_header() {
    let text = "date,project,start_time,end_time,brutto,netto,comment\n\
                2026-09-14,Alpha,09:00,15:30,6.5,5.7,note\n";
    let rows = parse_import(text).unwrap();
    assert_eq!(rows[0].project, "Alpha");
    assert_eq!(rows[0].start, Time::from_hms_opt(9, 0, 0).unwrap());
    assert_eq!(rows[0].comment, "note");
}

#[test]
fn reads_json() {
    let text = r#"[{"date":"2026-09-14","start":"09:00","end":"15:30","project":"Alpha","comment":"note","gross_minutes":390,"net_minutes":342,"break_minutes":48}]"#;
    let rows = parse_import(text).unwrap();
    assert_eq!(rows.len(), 1);
    assert_eq!(rows[0].project, "Alpha");
}

#[test]
fn crlf_does_not_stick_to_the_last_field() {
    let text = "date,start,end,project,comment,gross,net,break\r\n\
                2026-09-14,09:00,15:30,Alpha,note,06:30,05:42,00:48\r\n";
    let rows = parse_import(text).unwrap();
    assert_eq!(rows[0].comment, "note");
}

#[test]
fn quoted_fields_keep_their_commas_and_quotes() {
    let text = "date,start,end,project,comment,gross,net,break\n\
                2026-09-14,09:00,15:30,Alpha,\"lunch, then \"\"review\"\"\",06:30,05:42,00:48\n";
    let rows = parse_import(text).unwrap();
    assert_eq!(rows[0].comment, "lunch, then \"review\"");
}

#[test]
fn a_bad_row_names_its_line() {
    let text = "date,start,end,project,comment,gross,net,break\n\
                2026-09-14,not-a-time,15:30,Alpha,,,,\n";
    let err = parse_import(text).unwrap_err();
    assert!(err.message().contains("line 2"), "{}", err.message());
}

#[test]
fn an_unknown_header_is_refused() {
    let err = parse_import("alpha,beta\n1,2\n").unwrap_err();
    assert!(err.message().contains("unrecognised"), "{}", err.message());
}

#[test]
fn a_header_with_no_rows_is_empty_not_an_error() {
    let text = "date,start,end,project,comment,gross,net,break\n";
    assert!(parse_import(text).unwrap().is_empty());
    assert!(parse_import("").unwrap().is_empty());
}

#[test]
fn a_json_comment_keeps_its_quotes() {
    let text = r#"[{"date":"2026-09-14","start":"09:00","end":"15:30","project":"Alpha","comment":"say \"hi\" now","gross_minutes":390}]"#;
    let rows = parse_import(text).unwrap();
    assert_eq!(rows[0].comment, "say \"hi\" now");
}

#[test]
fn a_blank_first_line_does_not_discard_the_file() {
    let text = "\n\
                date,start,end,project,comment,gross,net,break\n\
                2026-09-14,09:00,15:30,Alpha,note,06:30,05:42,00:48\n";
    let rows = parse_import(text).unwrap();
    assert_eq!(rows.len(), 1, "{rows:?}");
    assert_eq!(rows[0].project, "Alpha");
}

#[test]
fn a_quoted_comment_may_span_lines() {
    let text = "date,start,end,project,comment,gross,net,break\n\
                2026-09-14,09:00,15:30,Alpha,\"line one\nline two\",06:30,05:42,00:48\n";
    let rows = parse_import(text).unwrap();
    assert_eq!(rows.len(), 1, "{rows:?}");
    assert_eq!(rows[0].comment, "line one\nline two");
}

#[test]
fn a_utf8_bom_does_not_hide_the_header() {
    let text = "\u{feff}date,start,end,project,comment,gross,net,break\r\n\
                2026-09-14,09:00,15:30,Alpha,note,06:30,05:42,00:48\r\n";
    let rows = parse_import(text).unwrap();
    assert_eq!(rows.len(), 1, "{rows:?}");
    assert_eq!(rows[0].project, "Alpha");
}

#[test]
fn a_json_comment_containing_a_brace_comma_parses() {
    let text = r#"[{"date":"2026-09-14","start":"09:00","end":"15:30","project":"Alpha","comment":"fix }, then go","gross_minutes":390}]"#;
    let rows = parse_import(text).unwrap();
    assert_eq!(rows.len(), 1, "{rows:?}");
    assert_eq!(rows[0].comment, "fix }, then go");
    assert_eq!(rows[0].project, "Alpha");
}

#[test]
fn two_json_objects_still_parse() {
    let text = r#"[{"date":"2026-09-14","start":"09:00","end":"15:30","project":"Alpha","comment":"a"},{"date":"2026-09-15","start":"09:00","end":"17:00","project":"Beta","comment":"b"}]"#;
    let rows = parse_import(text).unwrap();
    assert_eq!(rows.len(), 2);
    assert_eq!(rows[1].project, "Beta");
}

#[test]
fn imported_times_are_on_the_minute() {
    let text = "date,start,end,project,comment,gross,net,break\n\
                2026-09-14,09:05,15:30,Alpha,note,06:25,05:37,00:48\n";
    let rows = parse_import(text).unwrap();
    assert_eq!(rows[0].start, Time::from_hms_opt(9, 5, 0).unwrap());
    assert_eq!(rows[0].end, Time::from_hms_opt(15, 30, 0).unwrap());
}

#[test]
fn braces_and_commas_inside_a_string_do_not_split_an_object() {
    let text = r#"[{"comment":"a {b}, c"},{"comment":"d"}]"#;
    let objs = json_objects(text);
    assert_eq!(objs, vec![r#""comment":"a {b}, c""#.to_string(), r#""comment":"d""#.to_string()]);
}
