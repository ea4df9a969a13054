use cczuni::calendar::{OddOrEven, ParsedCourse, Schedule, ScheduleElement};
use cczuni::dates::{add_days, next_day, parse_date8, Date};
use cczuni::events::{generate_icalendar_from_classlist, icalendar_text, render_events, DEFAULT_TERM_WEEKS};
use cczuni::timetable::CalendarError;

fn elem(name: &str, start: &str, end: &str) -> ScheduleElement {
    ScheduleElement {
        name: name.to_string(),
        start_time: start.to_string(),
        end_time: end.to_string(),
    }
}

fn two_period_schedule() -> Schedule {
    Schedule { classtime: vec![elem("1", "0800", "0940"), elem("2", "0950", "1130")] }
}

fn course(periods: Vec<usize>, weeks: Vec<&str>) -> ParsedCourse {
    ParsedCourse::new(
        "数据结构".to_string(),
        OddOrEven::Each,
        1,
        weeks.into_iter().map(|w| w.to_string()).collect(),
        periods,
        "W101".to_string(),
        "王老师".to_string(),
    )
}

#[test]
fn event_window_spans_first_to_last_period() {
    // Periods [1, 2] on one date: the event runs 08:00 to 11:30.
    let schedule = two_period_schedule();
    let classlist = vec![course(vec![1, 2], vec!["1-1"])];
    let evs = render_events(classlist, "20250303", &schedule, 19).unwrap();
    // one course event plus nineteen week markers
    assert_eq!(evs.len(), 1 + 19);
    let e = &evs[0];
    assert!(!e.all_day);
    assert_eq!(e.summary, "数据结构");
    assert_eq!(e.location, "W101");
    assert_eq!(e.description, "王老师");
    assert_eq!(e.weeks, "1-1");
    assert_eq!((e.date.year, e.date.month, e.date.day), (2025, 3, 3));
    assert_eq!((e.start_hour, e.start_minute), (8, 0));
    assert_eq!((e.end_hour, e.end_minute), (11, 30));
}

#[test]
fn week_markers_cover_the_term() {
    let schedule = two_period_schedule();
    let evs = render_events(Vec::new(), "20250303", &schedule, DEFAULT_TERM_WEEKS).unwrap();
    assert_eq!(evs.len(), 19);
    let first = &evs[0];
    assert!(first.all_day);
    assert_eq!(first.summary, "学期第 1 周");
    assert_eq!((first.date.year, first.date.month, first.date.day), (2025, 3, 3));
    assert_eq!(
        (first.end_date.year, first.end_date.month, first.end_date.day),
        (2025, 3, 10)
    );
    let last = &evs[18];
    assert_eq!(last.summary, "学期第 19 周");
    assert_eq!((last.date.year, last.date.month, last.date.day), (2025, 7, 7));
}

#[test]
fn missing_period_mapping_is_fatal() {
    let schedule = two_period_schedule();
    let classlist = vec![course(vec![3], vec!["1-1"])];
    let r = render_events(classlist, "20250303", &schedule, 19);
    assert!(matches!(r, Err(CalendarError::ScheduleMappingMissing)));
}

#[test]
fn empty_period_list_is_fatal() {
    let schedule = two_period_schedule();
    let classlist = vec![course(Vec::new(), vec!["1-1"])];
    let r = render_events(classlist, "20250303", &schedule, 19);
    assert!(matches!(r, Err(CalendarError::ScheduleMappingMissing)));
}

#[test]
fn icalendar_output_holds_the_window() {
    let schedule = two_period_schedule();
    let classlist = vec![course(vec![1, 2], vec!["1-1"])];
    let cal = generate_icalendar_from_classlist(classlist, "20250303", &schedule, Some(15), 19)
        .unwrap();
    let ics = icalendar_text(&cal);
    assert!(ics.contains("BEGIN:VCALENDAR"));
    assert!(ics.contains("X-WR-TIMEZONE:Asia/Shanghai"));
    assert!(ics.contains("SUMMARY:数据结构"));
    assert!(ics.contains("LOCATION:W101"));
    assert!(ics.contains("20250303T080000"));
    assert!(ics.contains("20250303T113000"));
    assert!(ics.contains("BEGIN:VALARM"));
    assert!(ics.contains("TRANSP:OPAQUE"));
    assert!(ics.contains("学期第 1 周"));
}

#[test]
fn schedule_copy_with_replaces_by_name() {
    let s = two_period_schedule();
    let s2 = s.copy_with(elem("1", "0810", "0950"));
    assert_eq!(s2.classtime.len(), 2);
    // the replaced element moves to the end, the other keeps its place
    assert_eq!(s2.classtime[0].name, "2");
    assert_eq!(s2.classtime[1].name, "1");
    assert_eq!(s2.classtime[1].start_time, "0810");
}

#[test]
fn schedule_copy_withs_appends_new_names() {
    let mut s = two_period_schedule();
    s.copy_withs_mut(vec![elem("3", "1330", "1510"), elem("1", "0805", "0945")]);
    assert_eq!(s.classtime.len(), 3);
    assert_eq!(s.classtime[0].name, "2");
    assert_eq!(s.classtime[1].name, "3");
    assert_eq!(s.classtime[2].name, "1");
    assert_eq!(s.classtime[2].start_time, "0805");
}

#[test]
fn date_parsing_and_arithmetic() {
    let d = parse_date8(&"20240229".chars().collect()).unwrap();
    assert_eq!((d.year, d.month, d.day), (2024, 2, 29));
    assert!(parse_date8(&"20230229".chars().collect()).is_none());
    assert!(parse_date8(&"2023022".chars().collect()).is_none());
    assert!(parse_date8(&"20231301".chars().collect()).is_none());
    let nd = next_day(Date { year: 2024, month: 2, day: 29 });
    assert_eq!((nd.year, nd.month, nd.day), (2024, 3, 1));
    let ny = next_day(Date { year: 2024, month: 12, day: 31 });
    assert_eq!((ny.year, ny.month, ny.day), (2025, 1, 1));
    let wk = add_days(Date { year: 2025, month: 3, day: 3 }, 28);
    assert_eq!((wk.year, wk.month, wk.day), (2025, 3, 31));
}
