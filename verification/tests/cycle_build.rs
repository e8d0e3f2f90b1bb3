use chrono::{Duration, NaiveTime, Timelike};
use daycycle::config::{parse_cycle_offline, parse_cycle_online};
use daycycle::cycle::{active_point_at, Cycle, InterpolatedPoint};
use daycycle::error::CycleError;
use daycycle::layout::build;
use daycycle::order::order_by_time;
use daycycle::schedule::{parse_schedule, ScheduleEntry, TimeAnchor};
use daycycle::solar::{SolarEvent, SolarTimeTable};
use daycycle::time::TimeOfDay;

fn hm(hour: u32, minute: u32) -> TimeOfDay {
    TimeOfDay::from_hms(hour, minute, 0).unwrap()
}

fn listing(cycle: &Cycle) -> Vec<(u64, String)> {
    cycle.points().iter().map(|p| (p.time().nanos(), p.path().to_string())).collect()
}

fn at(hour: u32, minute: u32, path: &str) -> (u64, String) {
    (hm(hour, minute).nanos(), path.to_string())
}

fn of_chrono(t: NaiveTime) -> u64 {
    t.num_seconds_from_midnight() as u64 * 1_000_000_000 + t.nanosecond() as u64
}

#[test]
fn two_entries_are_laid_out_in_steps_of_six_hours() {
    let cycle = parse_cycle_offline("00_00=a.jpg,b.jpg\n12_00=c.jpg").unwrap();
    assert_eq!(
        listing(&cycle),
        vec![at(0, 0, "a.jpg"), at(6, 0, "b.jpg"), at(12, 0, "c.jpg")]
    );
    assert_eq!(active_point_at(&cycle, hm(7, 0)), "b.jpg");
    assert_eq!(active_point_at(&cycle, hm(23, 0)), "c.jpg");
    assert_eq!(active_point_at(&cycle, hm(0, 0)), "a.jpg");
}

#[test]
fn lines_are_ordered_by_time_not_by_position() {
    let cycle = parse_cycle_offline("18_30=evening.png\n06_15=morning.png\n12_00=noon.png").unwrap();
    assert_eq!(
        listing(&cycle),
        vec![at(6, 15, "morning.png"), at(12, 0, "noon.png"), at(18, 30, "evening.png")]
    );
}

#[test]
fn point_count_is_the_sum_of_path_counts() {
    let cycle = parse_cycle_offline("01_00=a,b,c\n09_00=d\n17_00=e,f").unwrap();
    assert_eq!(cycle.len(), 6);
    let times: Vec<u64> = cycle.points().iter().map(|p| p.time().nanos()).collect();
    let mut sorted = times.clone();
    sorted.sort();
    assert_eq!(times, sorted);
}

#[test]
fn step_is_the_gap_divided_by_the_number_of_entries() {
    // three entries: the gap of 9 h after 03:00 gives steps of 3 h
    let cycle = parse_cycle_offline("03_00=a,b,c\n12_00=d\n20_00=e").unwrap();
    assert_eq!(
        listing(&cycle),
        vec![
            at(3, 0, "a"),
            at(6, 0, "b"),
            at(9, 0, "c"),
            at(12, 0, "d"),
            at(20, 0, "e"),
        ]
    );
}

#[test]
fn single_entry_spans_the_whole_day() {
    let cycle = parse_cycle_offline("08_00=a,b,c").unwrap();
    // one entry: the step is the whole day, so every image lands on 08:00
    assert_eq!(listing(&cycle), vec![at(8, 0, "a"), at(8, 0, "b"), at(8, 0, "c")]);
    assert_eq!(active_point_at(&cycle, hm(7, 59)), "c");
    assert_eq!(active_point_at(&cycle, hm(8, 0)), "c");
}

#[test]
fn long_path_list_runs_past_the_next_anchor() {
    // two entries, four images on the first: steps of 6 h reach 18:00,
    // beyond the second entry at 12:00
    let cycle = parse_cycle_offline("00_00=a,b,c,d\n12_00=e").unwrap();
    assert_eq!(
        listing(&cycle),
        vec![at(0, 0, "a"), at(6, 0, "b"), at(12, 0, "c"), at(18, 0, "d"), at(12, 0, "e")]
    );
    // the lookup stops before the first point that is later than the time asked for
    assert_eq!(active_point_at(&cycle, hm(13, 0)), "c");
    assert_eq!(active_point_at(&cycle, hm(19, 0)), "e");
}

#[test]
fn last_entry_wraps_past_midnight() {
    let cycle = parse_cycle_offline("06_00=a\n18_00=b,c").unwrap();
    assert_eq!(listing(&cycle), vec![at(6, 0, "a"), at(18, 0, "b"), at(0, 0, "c")]);
}

#[test]
fn uneven_gap_is_cut_to_the_nanosecond() {
    let cycle = parse_cycle_offline("00_00=a,b,c\n00_01=d\n10_00=e").unwrap();
    let step = 60_000_000_000u64 / 3;
    assert_eq!(
        listing(&cycle)[..3],
        [
            (0, "a".to_string()),
            (step, "b".to_string()),
            (2 * step, "c".to_string())
        ]
    );
    let cycle = parse_cycle_offline("00_00=a,b\n00_01=c\n00_03=d\n01_00=e\n02_00=f\n03_00=g\n04_00=h").unwrap();
    assert_eq!(listing(&cycle)[1], (60_000_000_000u64 / 7, "b".to_string()));
}

#[test]
fn layout_agrees_with_chrono_arithmetic() {
    let text = "22_15=a,b,c,d,e\n01_00=f\n05_07=g,h,i\n11_11=j\n13_00=k\n16_45=l\n19_59=m";
    let anchors = [(1, 0, 1), (5, 7, 3), (11, 11, 1), (13, 0, 1), (16, 45, 1), (19, 59, 1), (22, 15, 5)];
    let mut expected: Vec<u64> = Vec::new();
    for i in 0..anchors.len() {
        let (h, m, k) = anchors[i];
        let this = NaiveTime::from_hms_opt(h, m, 0).unwrap();
        let gap = if i + 1 < anchors.len() {
            let (nh, nm, _) = anchors[i + 1];
            NaiveTime::from_hms_opt(nh, nm, 0).unwrap() - this
        } else {
            (NaiveTime::from_hms_opt(anchors[0].0, anchors[0].1, 0).unwrap() - this)
                + Duration::minutes(1440)
        };
        let step = gap / anchors.len() as i32;
        for j in 0..k {
            expected.push(of_chrono(this + step * j));
        }
    }
    let cycle = parse_cycle_offline(text).unwrap();
    let times: Vec<u64> = cycle.points().iter().map(|p| p.time().nanos()).collect();
    assert_eq!(times, expected);
}

#[test]
fn empty_text_is_an_empty_schedule() {
    assert_eq!(parse_cycle_offline("").unwrap_err(), CycleError::EmptySchedule);
    assert_eq!(parse_cycle_offline(" \n\t\r\n\n").unwrap_err(), CycleError::EmptySchedule);
    assert_eq!(build(&Vec::new(), None).unwrap_err(), CycleError::EmptySchedule);
}

#[test]
fn equal_times_make_a_degenerate_cycle() {
    assert_eq!(
        parse_cycle_offline("07_00=a\n07_00=b").unwrap_err(),
        CycleError::DegenerateCycle
    );
    assert_eq!(
        parse_cycle_offline("07_00=a\n12_00=b\n7_0=c").unwrap_err(),
        CycleError::DegenerateCycle
    );
}

#[test]
fn text_fault_comes_before_cycle_fault() {
    assert_eq!(
        parse_cycle_offline("07_00=a\n07_00=b\nnonsense").unwrap_err(),
        CycleError::MalformedSchedule { line: 2 }
    );
}

#[test]
fn online_cycle_takes_table_times() {
    let table = SolarTimeTable::new(None, Some(hm(5, 30)), Some(hm(13, 0)), Some(hm(21, 10)), None);
    let text = "#sr:07_00=dawn.jpg\n#ss:19_00=dusk.jpg\n#sm:00_00=night.jpg\n#sn:12_00=noon.jpg";
    let online = parse_cycle_online(text, &table).unwrap();
    assert_eq!(
        listing(&online),
        vec![
            at(1, 0, "night.jpg"),
            at(5, 30, "dawn.jpg"),
            at(13, 0, "noon.jpg"),
            at(21, 10, "dusk.jpg"),
        ]
    );
    let offline = parse_cycle_offline(text).unwrap();
    assert_eq!(
        listing(&offline),
        vec![
            at(0, 0, "night.jpg"),
            at(7, 0, "dawn.jpg"),
            at(12, 0, "noon.jpg"),
            at(19, 0, "dusk.jpg"),
        ]
    );
}

#[test]
fn event_missing_from_table_falls_back() {
    let table = SolarTimeTable::new(None, None, Some(hm(13, 0)), None, None);
    let cycle = parse_cycle_online("#tb:04_45=a\n#sn:12_00=b", &table).unwrap();
    assert_eq!(listing(&cycle), vec![at(4, 45, "a"), at(13, 0, "b")]);
}

#[test]
fn build_takes_entries_in_any_order() {
    let entries = vec![
        ScheduleEntry::new(TimeAnchor::Explicit { time: hm(20, 0) }, vec!["z".to_string()]).unwrap(),
        ScheduleEntry::new(
            TimeAnchor::Symbolic { event: SolarEvent::Sunrise, fallback: hm(6, 0) },
            vec!["x".to_string(), "y".to_string()],
        )
        .unwrap(),
    ];
    let cycle = build(&entries, None).unwrap();
    assert_eq!(listing(&cycle), vec![at(6, 0, "x"), at(13, 0, "y"), at(20, 0, "z")]);
    let table = SolarTimeTable::new(None, Some(hm(8, 0)), None, None, None);
    let cycle = build(&entries, Some(&table)).unwrap();
    assert_eq!(listing(&cycle), vec![at(8, 0, "x"), at(14, 0, "y"), at(20, 0, "z")]);
}

#[test]
fn order_by_time_is_stable() {
    let times = vec![hm(9, 0), hm(3, 0), hm(9, 0), hm(1, 0), hm(3, 0)];
    assert_eq!(order_by_time(&times), vec![3, 1, 4, 0, 2]);
    assert_eq!(order_by_time(&Vec::new()), Vec::<usize>::new());
}

#[test]
fn lookup_wraps_to_the_last_point_before_the_first() {
    let cycle = parse_cycle_offline("06_00=a\n12_00=b\n18_00=c").unwrap();
    assert_eq!(active_point_at(&cycle, hm(0, 0)), "c");
    assert_eq!(active_point_at(&cycle, hm(5, 59)), "c");
    assert_eq!(active_point_at(&cycle, hm(6, 0)), "a");
    assert_eq!(active_point_at(&cycle, hm(11, 59)), "a");
    assert_eq!(active_point_at(&cycle, hm(12, 0)), "b");
    assert_eq!(active_point_at(&cycle, hm(18, 0)), "c");
    assert_eq!(active_point_at(&cycle, TimeOfDay::from_nanos(86_399_999_999_999).unwrap()), "c");
}

#[test]
fn lookup_is_total_over_the_day() {
    let cycle = parse_cycle_offline("00_30=a,b\n08_00=c\n16_00=d,e,f").unwrap();
    let mut seen: Vec<usize> = Vec::new();
    for minute in 0..1440u32 {
        let t = hm(minute / 60, minute % 60);
        let index = cycle.active_index(t);
        assert!(index < cycle.len());
        assert_eq!(cycle.active_index(t), index);
        let point = cycle.point(index).unwrap();
        assert_eq!(active_point_at(&cycle, t), point.path());
        if seen.last() != Some(&index) {
            seen.push(index);
        }
    }
    // last night's final point, then every point once, in order
    assert_eq!(seen, vec![5, 0, 1, 2, 3, 4, 5]);
}

#[test]
fn cycle_needs_a_point() {
    assert!(Cycle::new(Vec::new()).is_none());
    let cycle = Cycle::new(vec![InterpolatedPoint::new(hm(4, 0), "only.jpg".to_string())]).unwrap();
    assert_eq!(cycle.len(), 1);
    assert_eq!(active_point_at(&cycle, hm(3, 0)), "only.jpg");
    assert_eq!(active_point_at(&cycle, hm(5, 0)), "only.jpg");
    assert!(cycle.point(1).is_none());
}

#[test]
fn parsed_entries_keep_their_order_and_paths() {
    let entries = parse_schedule("12_00 = b.jpg , c.jpg\n\n#sr:06_30=a.jpg").unwrap();
    assert_eq!(entries.len(), 2);
    assert_eq!(entries[0].paths(), &vec!["b.jpg".to_string(), "c.jpg".to_string()]);
    assert_eq!(entries[0].anchor().literal(), hm(12, 0));
    assert_eq!(entries[1].paths(), &vec!["a.jpg".to_string()]);
    match entries[1].anchor() {
        TimeAnchor::Symbolic { event, fallback } => {
            assert_eq!(event, SolarEvent::Sunrise);
            assert_eq!(fallback, hm(6, 30));
        }
        TimeAnchor::Explicit { .. } => panic!("the anchor is symbolic"),
    }
}

#[test]
fn ascending_order_is_told_apart() {
    assert!(parse_cycle_offline("00_00=a,b\n12_00=c").unwrap().is_ascending());
    assert!(parse_cycle_offline("08_00=a,b,c").unwrap().is_ascending());
    assert!(parse_cycle_offline("00_00=a,b,c\n12_00=d").unwrap().is_ascending());
    assert!(!parse_cycle_offline("00_00=a,b,c,d\n12_00=e").unwrap().is_ascending());
    assert!(!parse_cycle_offline("06_00=a\n18_00=b,c").unwrap().is_ascending());
}

#[test]
fn entries_with_few_images_stay_in_order() {
    // no entry has more images than there are entries, and the last entry has one
    let cycle = parse_cycle_offline("05_00=a,b,c\n05_01=d,e\n23_59=f").unwrap();
    assert!(cycle.is_ascending());
    assert_eq!(cycle.len(), 6);
    assert_eq!(listing(&cycle)[2], (hm(5, 0).nanos() + 40_000_000_000, "c".to_string()));
}

#[test]
fn first_point_is_active_at_its_own_time() {
    for (text, earliest, path) in [
        ("00_00=a.jpg,b.jpg\n12_00=c.jpg", hm(0, 0), "a.jpg"),
        ("18_30=x\n06_15=m,n,o\n12_00=p", hm(6, 15), "m"),
        ("10_00=a\n22_00=b,c", hm(10, 0), "a"),
        ("10_00=a\n11_00=b\n22_00=c,d,e", hm(10, 0), "a"),
        ("23_59=z\n23_58=y,x", hm(23, 58), "y"),
        ("07_00=only", hm(7, 0), "only"),
    ] {
        let cycle = parse_cycle_offline(text).unwrap();
        let first = cycle.point(0).unwrap();
        assert_eq!(first.time(), earliest, "{}", text);
        assert_eq!(first.path(), path, "{}", text);
        assert_eq!(cycle.active_index(first.time()), 0, "{}", text);
        assert_eq!(active_point_at(&cycle, first.time()), path, "{}", text);
    }
    // more images than entries: the second image comes round to the time of the first
    let cycle = parse_cycle_offline("08_00=a,b").unwrap();
    assert_eq!(cycle.active_index(hm(8, 0)), 1);
}

#[test]
fn steps_between_images_are_positive() {
    // the closest two entries can be is a minute, and 1440 entries fill the day
    let mut text = String::new();
    for minute in 0..1440u32 {
        text.push_str(&format!("{:02}_{:02}=a{},b{}\n", minute / 60, minute % 60, minute, minute));
    }
    let cycle = parse_cycle_offline(&text).unwrap();
    assert_eq!(cycle.len(), 2880);
    let step = 60_000_000_000u64 / 1440;
    for minute in 0..1440usize {
        let start = cycle.point(2 * minute).unwrap().time().nanos();
        let next = cycle.point(2 * minute + 1).unwrap().time().nanos();
        assert_eq!(start, minute as u64 * 60_000_000_000);
        assert_eq!(next, start + step);
    }
    assert!(cycle.is_ascending());
}
