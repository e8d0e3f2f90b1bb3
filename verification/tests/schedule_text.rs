use daycycle::config::parse_cycle_offline;
use daycycle::error::CycleError;
use daycycle::schedule::{
    parse_anchor, parse_line, parse_schedule, parse_time_literal, resolve_anchor, schedule_line,
    ScheduleEntry, TimeAnchor,
};
use daycycle::solar::{SolarEvent, SolarTimeTable};
use daycycle::time::TimeOfDay;

fn hm(hour: u32, minute: u32) -> TimeOfDay {
    TimeOfDay::from_hms(hour, minute, 0).unwrap()
}

fn chars(text: &str) -> Vec<char> {
    text.chars().collect()
}

#[test]
fn line_without_separator_is_malformed() {
    assert_eq!(
        parse_schedule("12_00c.jpg").unwrap_err(),
        CycleError::MalformedSchedule { line: 0 }
    );
    assert_eq!(
        parse_cycle_offline("12_00c.jpg").unwrap_err(),
        CycleError::MalformedSchedule { line: 0 }
    );
}

#[test]
fn unknown_shortcut_is_reported() {
    assert_eq!(
        parse_schedule("#xx:06_00=img.jpg").unwrap_err(),
        CycleError::UnknownSolarShortcut { line: 0 }
    );
    assert_eq!(
        parse_schedule("#:06_00=img.jpg").unwrap_err(),
        CycleError::UnknownSolarShortcut { line: 0 }
    );
    assert_eq!(
        parse_schedule("#SR:06_00=img.jpg").unwrap_err(),
        CycleError::UnknownSolarShortcut { line: 0 }
    );
    // without the colon the whole anchor passes for the shortcut
    assert_eq!(
        parse_schedule("#sr06_00=img.jpg").unwrap_err(),
        CycleError::UnknownSolarShortcut { line: 0 }
    );
}

#[test]
fn empty_path_list_is_malformed() {
    assert_eq!(
        parse_schedule("12_00=").unwrap_err(),
        CycleError::MalformedSchedule { line: 0 }
    );
    assert_eq!(
        parse_schedule("12_00 =  \t").unwrap_err(),
        CycleError::MalformedSchedule { line: 0 }
    );
    assert_eq!(
        parse_schedule("=").unwrap_err(),
        CycleError::MalformedSchedule { line: 0 }
    );
}

#[test]
fn time_literal_out_of_range_is_invalid() {
    for text in [
        "24_00=a", "12_60=a", "12=a", "ab_cd=a", "_=a", "12_=a", "_30=a", "-1_00=a", "1.5_00=a",
        "=a", "99999999999999999999_00=a", "#sr=a", "#sr:=a", "#sr:25_00=a", "12_30_45=a",
        "12_30_=a", "#sr:10_20:30=a", "#sr:10_20:=a", "#sr::10_20=a",
    ] {
        assert_eq!(
            parse_schedule(text).unwrap_err(),
            CycleError::InvalidTimeLiteral { line: 0 },
            "{}",
            text
        );
    }
}

#[test]
fn time_literal_reads_hours_and_minutes() {
    assert_eq!(parse_time_literal(&chars("00_00")), Some(hm(0, 0)));
    assert_eq!(parse_time_literal(&chars("23_59")), Some(hm(23, 59)));
    assert_eq!(parse_time_literal(&chars("7_5")), Some(hm(7, 5)));
    assert_eq!(parse_time_literal(&chars("007_0005")), Some(hm(7, 5)));
    assert_eq!(parse_time_literal(&chars("+7_+5")), Some(hm(7, 5)));
    assert_eq!(parse_time_literal(&chars("12_30_45")), None);
    assert_eq!(parse_time_literal(&chars("12_30_")), None);
    assert_eq!(parse_time_literal(&chars("_12_30")), None);
    assert_eq!(parse_time_literal(&chars("12:30")), None);
    assert_eq!(parse_time_literal(&chars("")), None);
    assert_eq!(parse_time_literal(&chars("+_5")), None);
}

#[test]
fn first_faulty_line_decides_the_error() {
    let text = "06_00=a.jpg\n\n#sr:07_00=b.jpg\n25_00=c.jpg\nnonsense\n#zz:01_00=d.jpg";
    assert_eq!(
        parse_schedule(text).unwrap_err(),
        CycleError::InvalidTimeLiteral { line: 3 }
    );
    let text = "06_00=a.jpg\n\n\n#zz:01_00=d.jpg\n25_00=c.jpg";
    assert_eq!(
        parse_schedule(text).unwrap_err(),
        CycleError::UnknownSolarShortcut { line: 3 }
    );
}

#[test]
fn shortcut_fault_comes_before_literal_fault() {
    assert_eq!(
        parse_schedule("#xx:99_99=a").unwrap_err(),
        CycleError::UnknownSolarShortcut { line: 0 }
    );
    assert_eq!(
        parse_schedule("#xx:99_99").unwrap_err(),
        CycleError::MalformedSchedule { line: 0 }
    );
}

#[test]
fn blanks_are_removed_everywhere() {
    let entries = parse_schedule(" 1 2 _ 0 0 =\tmy image.jpg , b .png\r\n\r\n  \n# s s : 19_30 = c.jpg\r").unwrap();
    assert_eq!(entries.len(), 2);
    assert_eq!(entries[0].anchor().literal(), hm(12, 0));
    assert_eq!(entries[0].paths(), &vec!["myimage.jpg".to_string(), "b.png".to_string()]);
    assert_eq!(entries[1].anchor().literal(), hm(19, 30));
    assert_eq!(entries[1].paths(), &vec!["c.jpg".to_string()]);
}

#[test]
fn blank_lines_hold_no_entry() {
    assert_eq!(parse_schedule("").unwrap().len(), 0);
    assert_eq!(parse_schedule("\n\n \n").unwrap().len(), 0);
    assert_eq!(parse_schedule("\n06_00=a\n\n").unwrap().len(), 1);
}

#[test]
fn paths_are_kept_as_written() {
    let entries = parse_schedule("06_00=a.jpg,,sub/dir/b c.png,ü.jpg,").unwrap();
    assert_eq!(
        entries[0].paths(),
        &vec![
            "a.jpg".to_string(),
            "".to_string(),
            "sub/dir/bc.png".to_string(),
            "ü.jpg".to_string(),
            "".to_string()
        ]
    );
}

#[test]
fn a_further_separator_is_part_of_a_path() {
    let entries = parse_schedule("12_00=a=b.jpg").unwrap();
    assert_eq!(entries[0].anchor().literal(), hm(12, 0));
    assert_eq!(entries[0].paths(), &vec!["a=b.jpg".to_string()]);
    let entries = parse_schedule("06_00=a.jpg,b.jpg=c.jpg,d=").unwrap();
    assert_eq!(
        entries[0].paths(),
        &vec!["a.jpg".to_string(), "b.jpg=c.jpg".to_string(), "d=".to_string()]
    );
    let entries = parse_schedule("06_00==a.jpg").unwrap();
    assert_eq!(entries[0].paths(), &vec!["=a.jpg".to_string()]);
    let entries = parse_schedule("#sr:06_00 = x = y").unwrap();
    assert_eq!(entries[0].paths(), &vec!["x=y".to_string()]);
}

#[test]
fn time_out_of_range_beside_paths_is_invalid() {
    assert_eq!(
        parse_schedule("24_00=a.jpg\n12_00=b.jpg").unwrap_err(),
        CycleError::InvalidTimeLiteral { line: 0 }
    );
    assert_eq!(
        parse_cycle_offline("12_00=b.jpg\n12_60=a.jpg").unwrap_err(),
        CycleError::InvalidTimeLiteral { line: 1 }
    );
    assert_eq!(
        parse_schedule("24_00=a=b.jpg").unwrap_err(),
        CycleError::InvalidTimeLiteral { line: 0 }
    );
    assert_eq!(
        parse_schedule("=06_00=a.jpg").unwrap_err(),
        CycleError::InvalidTimeLiteral { line: 0 }
    );
    assert_eq!(
        parse_schedule("==").unwrap_err(),
        CycleError::InvalidTimeLiteral { line: 0 }
    );
}

#[test]
fn every_shortcut_names_its_event() {
    let pairs = [
        ("tb", SolarEvent::TwilightBegin),
        ("sr", SolarEvent::Sunrise),
        ("sn", SolarEvent::SolarNoon),
        ("ss", SolarEvent::Sunset),
        ("te", SolarEvent::TwilightEnd),
        ("sm", SolarEvent::SolarMidnight),
    ];
    for (shortcut, expected) in pairs {
        let anchor = parse_anchor(&chars(&format!("#{}:10_20", shortcut)), 4).unwrap();
        match anchor {
            TimeAnchor::Symbolic { event, fallback } => {
                assert_eq!(event, expected);
                assert_eq!(fallback, hm(10, 20));
            }
            TimeAnchor::Explicit { .. } => panic!("the anchor is symbolic"),
        }
    }
    assert_eq!(
        parse_anchor(&chars("#sr:10_20:extra"), 0).unwrap_err(),
        CycleError::InvalidTimeLiteral { line: 0 }
    );
    assert_eq!(
        parse_anchor(&chars("#xx:10_20:extra"), 0).unwrap_err(),
        CycleError::UnknownSolarShortcut { line: 0 }
    );
    assert_eq!(
        parse_anchor(&chars("#s"), 9).unwrap_err(),
        CycleError::UnknownSolarShortcut { line: 9 }
    );
    assert_eq!(
        parse_anchor(&chars(""), 2).unwrap_err(),
        CycleError::InvalidTimeLiteral { line: 2 }
    );
}

#[test]
fn line_carries_its_number_into_the_error() {
    assert_eq!(
        parse_line(&chars("06_00"), 17).unwrap_err(),
        CycleError::MalformedSchedule { line: 17 }
    );
    let entry = parse_line(&chars("06_00=x"), 17).unwrap();
    assert_eq!(entry.paths(), &vec!["x".to_string()]);
}

#[test]
fn symbolic_anchor_with_table_ignores_its_fallback() {
    let table = SolarTimeTable::new(None, Some(hm(5, 12)), Some(hm(13, 1)), None, None);
    let one = TimeAnchor::Symbolic { event: SolarEvent::Sunrise, fallback: hm(7, 0) };
    let other = TimeAnchor::Symbolic { event: SolarEvent::Sunrise, fallback: hm(9, 45) };
    assert_eq!(one.resolved_time(Some(&table)), hm(5, 12));
    assert_eq!(other.resolved_time(Some(&table)), hm(5, 12));
    assert_eq!(resolve_anchor(&one, Some(&table)).literal(), hm(5, 12));
    assert!(matches!(resolve_anchor(&one, Some(&table)), TimeAnchor::Explicit { .. }));
    let midnight = TimeAnchor::Symbolic { event: SolarEvent::SolarMidnight, fallback: hm(0, 0) };
    assert_eq!(midnight.resolved_time(Some(&table)), hm(1, 1));
}

#[test]
fn symbolic_anchor_without_table_uses_its_fallback() {
    let one = TimeAnchor::Symbolic { event: SolarEvent::Sunrise, fallback: hm(7, 0) };
    assert_eq!(one.resolved_time(None), hm(7, 0));
    assert_eq!(resolve_anchor(&one, None).literal(), hm(7, 0));
    let table = SolarTimeTable::new(None, None, Some(hm(13, 1)), None, None);
    assert_eq!(one.resolved_time(Some(&table)), hm(7, 0));
}

#[test]
fn explicit_anchor_passes_through() {
    let table = SolarTimeTable::new(Some(hm(4, 0)), Some(hm(5, 0)), Some(hm(13, 0)), Some(hm(21, 0)), Some(hm(22, 0)));
    let anchor = TimeAnchor::Explicit { time: hm(15, 15) };
    assert_eq!(anchor.resolved_time(Some(&table)), hm(15, 15));
    assert_eq!(anchor.resolved_time(None), hm(15, 15));
    assert_eq!(anchor.literal(), hm(15, 15));
}

#[test]
fn entry_needs_a_path() {
    assert!(ScheduleEntry::new(TimeAnchor::Explicit { time: hm(1, 0) }, Vec::new()).is_none());
    let entry = ScheduleEntry::new(TimeAnchor::Explicit { time: hm(1, 0) }, vec!["p".to_string()]).unwrap();
    assert_eq!(entry.anchor().literal(), hm(1, 0));
    assert_eq!(entry.paths().len(), 1);
}

#[test]
fn faulty_line_can_be_shown() {
    let text = "06_00 = a.jpg\n\n 25_00 = c.jpg \r\nrest";
    assert_eq!(schedule_line(text, 0), Some("06_00=a.jpg".to_string()));
    assert_eq!(schedule_line(text, 1), Some(String::new()));
    assert_eq!(schedule_line(text, 2), Some("25_00=c.jpg".to_string()));
    assert_eq!(schedule_line(text, 3), Some("rest".to_string()));
    assert_eq!(schedule_line(text, 4), None);
    assert_eq!(schedule_line("", 0), Some(String::new()));
    assert_eq!(schedule_line("", 1), None);
    match parse_schedule(text) {
        Err(CycleError::InvalidTimeLiteral { line }) => {
            assert_eq!(schedule_line(text, line), Some("25_00=c.jpg".to_string()))
        }
        _ => panic!("the third line has no time"),
    }
}
