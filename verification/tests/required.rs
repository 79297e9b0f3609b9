use tk::breaks::{
    BreakTier, day_deduction, deduction, default_tiers, gaps_between, session_deduction, sessions,
};
use tk::forms::{break_split_footer, parse_share, validate_break_split};
use tk::minutes::{HoursFormat, Minutes};
use tk::periods::{Granularity, RangeKind, granularity_for};
use tk::types::DayKind;

#[test]
fn boundaries_are_strict() {
    let t = default_tiers();
    assert_eq!(deduction(Minutes(0), &t), Minutes(0));
    assert_eq!(deduction(Minutes(180), &t), Minutes(0));
    assert_eq!(deduction(Minutes(181), &t), Minutes(18));
    assert_eq!(deduction(Minutes(360), &t), Minutes(18));
    assert_eq!(deduction(Minutes(361), &t), Minutes(48));
    assert_eq!(deduction(Minutes(600), &t), Minutes(48));
}

#[test]
fn no_tiers_no_deduction() {
    assert_eq!(deduction(Minutes(999), &[]), Minutes(0));
}

#[test]
fn unsorted_tiers_still_pick_highest_matching() {
    let t = vec![
        BreakTier {
            after: Minutes(360),
            deduct: Minutes(48),
        },
        BreakTier {
            after: Minutes(180),
            deduct: Minutes(18),
        },
    ];
    assert_eq!(deduction(Minutes(400), &t), Minutes(48));
    assert_eq!(deduction(Minutes(200), &t), Minutes(18));
}

#[test]
fn an_interval_nested_in_another_is_no_pause() {
    assert_eq!(
        gaps_between(&[(480, 1020), (540, 600), (660, 720)]),
        Minutes(0)
    );
    assert_eq!(
        gaps_between(&[(480, 1020), (540, 600), (1080, 1200)]),
        Minutes(60)
    );
}

#[test]
fn a_long_enough_pause_cancels_the_deduction() {
    let t = default_tiers();
    let gross = Minutes(540);
    assert_eq!(day_deduction(gross, Minutes(0), &t, Minutes(30)), Minutes(48));
    assert_eq!(day_deduction(gross, Minutes(29), &t, Minutes(30)), Minutes(48));
    assert_eq!(day_deduction(gross, Minutes(30), &t, Minutes(30)), Minutes(0));
    assert_eq!(day_deduction(gross, Minutes(45), &t, Minutes(30)), Minutes(0));
}

#[test]
fn a_threshold_of_zero_cancels_every_day() {
    let t = default_tiers();
    assert_eq!(
        day_deduction(Minutes(540), Minutes(0), &t, Minutes(0)),
        Minutes(0)
    );
}

#[test]
fn sessions_merge_what_the_clock_never_stopped_between() {
    assert_eq!(sessions(&[(480, 720), (720, 1020)]), vec![(480, 1020)]);
    assert_eq!(
        sessions(&[(480, 720), (721, 1020)]),
        vec![(480, 720), (721, 1020)]
    );
    assert_eq!(sessions(&[(660, 1020), (480, 720)]), vec![(480, 1020)]);
    assert_eq!(sessions(&[(480, 1020), (540, 600)]), vec![(480, 1020)]);
    assert_eq!(
        sessions(&[(480, 1020), (540, 600), (1080, 1200)]),
        vec![(480, 1020), (1080, 1200)]
    );
    assert_eq!(sessions(&[]), Vec::<(i32, i32)>::new());
}

#[test]
fn session_deduction_charges_each_session_on_its_own_length() {
    let t = default_tiers();
    assert_eq!(session_deduction(&[(480, 720), (720, 1020)], &t), Minutes(48));
    assert_eq!(session_deduction(&[(480, 720), (765, 1020)], &t), Minutes(36));
    assert_eq!(session_deduction(&[(480, 870), (871, 1020)], &t), Minutes(48));
    assert_eq!(
        session_deduction(&[(480, 600), (630, 720), (780, 1020)], &t),
        Minutes(18)
    );
    assert_eq!(session_deduction(&[], &t), Minutes(0));
}

#[test]
fn displays_signed_hh_mm() {
    assert_eq!(Minutes(0).to_string(), "+00:00");
    assert_eq!(Minutes(468).to_string(), "+07:48");
    assert_eq!(Minutes(-594).to_string(), "-09:54");
    assert_eq!(Minutes(6000).to_string(), "+100:00");
}

#[test]
fn parses_signed_and_unsigned() {
    assert_eq!("+07:48".parse::<Minutes>().unwrap(), Minutes(468));
    assert_eq!("-00:30".parse::<Minutes>().unwrap(), Minutes(-30));
    assert_eq!("7:48".parse::<Minutes>().unwrap(), Minutes(468));
    assert!("abc".parse::<Minutes>().is_err());
    assert!("07:60".parse::<Minutes>().is_err());
}

#[test]
fn arithmetic() {
    assert_eq!(Minutes(10) + Minutes(5), Minutes(15));
    assert_eq!(Minutes(10) - Minutes(15), Minutes(-5));
    assert_eq!(-Minutes(3), Minutes(-3));
    assert_eq!(Minutes::hm(7, 48), Minutes(468));
    let total: Minutes = [Minutes(1), Minutes(2)].into_iter().sum();
    assert_eq!(total, Minutes(3));
    assert!(Minutes(-1).is_negative());
    assert_eq!(Minutes(-1).abs(), Minutes(1));
}

#[test]
fn day_kind_roundtrip_and_flags() {
    for k in ["work", "vacation", "flex", "holiday", "sick"] {
        assert_eq!(DayKind::parse(k, None).unwrap().as_str(), k);
    }
    let a = DayKind::parse("absence", Some("training")).unwrap();
    assert_eq!(
        a,
        DayKind::Absence {
            label: "training".into()
        }
    );
    assert_eq!(a.display_name(), "training");
    assert!(DayKind::parse("absence", None).is_some());
    assert!(DayKind::parse("party", None).is_none());
    assert!(DayKind::Work.has_target());
    assert!(DayKind::Flex.has_target());
    assert!(!DayKind::Vacation.has_target());
    assert!(!DayKind::Holiday.has_target());
    assert!(!DayKind::Sick.has_target());
    assert!(DayKind::Work.allows_entries());
    assert!(!DayKind::Flex.allows_entries());
    assert_eq!(DayKind::Vacation.display_name(), "Vacation");
}

#[test]
fn a_share_reads_as_minutes_or_as_unassigned() {
    assert_eq!(parse_share(""), Ok(None));
    assert_eq!(parse_share("  "), Ok(None));
    assert_eq!(parse_share("48"), Ok(Some(Minutes(48))));
    assert_eq!(parse_share(" 0 "), Ok(Some(Minutes(0))));
    assert!(parse_share("-1").is_err());
    assert!(parse_share("half an hour").is_err());
    assert!(parse_share("0:30").is_err());
}

#[test]
fn validate_break_split_checks_the_minutes_the_caps_and_the_total() {
    let labels = vec![
        "08:00–12:00  Alpha  (+04:00)".to_string(),
        "12:00–17:00  Beta  (+05:00)".to_string(),
    ];
    let grosses = vec![Minutes(240), Minutes(300)];
    let ded = Minutes(48);
    let v = |a: &str, b: &str| vec![a.to_string(), b.to_string()];
    let ok = |vals: Vec<String>| {
        validate_break_split(&vals, &labels, &grosses, ded, HoursFormat::Hm).unwrap()
    };
    assert_eq!(ok(v("", "")), vec![None, None]);
    assert_eq!(ok(v("30", "")), vec![Some(Minutes(30)), None]);
    assert_eq!(
        ok(v("30", "18")),
        vec![Some(Minutes(30)), Some(Minutes(18))]
    );
    assert_eq!(ok(v("0", "")), vec![Some(Minutes(0)), None]);
    let err = |vals: Vec<String>| {
        validate_break_split(&vals, &labels, &grosses, ded, HoursFormat::Hm).unwrap_err()
    };
    let e = err(v("", "half an hour"));
    assert!(e.contains("12:00–17:00"), "{e}");
    assert!(e.contains("not a number of minutes"), "{e}");
    assert!(err(v("-5", "")).contains("08:00–12:00"));
    assert!(err(v("0:30", "")).contains("08:00–12:00"));
    let e = err(v("300", ""));
    assert!(e.contains("at most 240"), "{e}");
    let e = err(v("30", "30"));
    assert!(e.contains("assigned 01:00 of 00:48"), "{e}");
    assert!(e.contains("more than this session's break"), "{e}");
    assert_eq!(
        break_split_footer(&ok(v("30", "")), ded, HoursFormat::Hm),
        "assigned 00:30 / 00:48"
    );
    assert_eq!(
        break_split_footer(&ok(v("", "")), ded, HoursFormat::Hm),
        "assigned 00:00 / 00:48"
    );
}

#[test]
fn granularities() {
    assert_eq!(granularity_for(RangeKind::Week), Granularity::Day);
    assert_eq!(granularity_for(RangeKind::Month), Granularity::Week);
    assert_eq!(granularity_for(RangeKind::Quarter), Granularity::Month);
    assert_eq!(granularity_for(RangeKind::Year), Granularity::Month);
}
