use cczuni::calendar::{OddOrEven, ParsedCourse, RawCourse};
use cczuni::timetable::{parse_week_matrix, CalendarError};

fn cell(course: &str, teacher: &str) -> RawCourse {
    RawCourse { course: course.to_string(), teacher: teacher.to_string() }
}

fn empty_row() -> Vec<RawCourse> {
    (0..7).map(|_| cell("", "")).collect()
}

fn row_with(day: usize, course: &str, teacher: &str) -> Vec<RawCourse> {
    let mut row = empty_row();
    row[day] = cell(course, teacher);
    row
}

#[test]
fn single_cell_roundtrip_parse() {
    // One non-empty cell on day 0, period 0: an odd-week course.
    let matrix = vec![row_with(0, "数据结构 W101 单 3-5", "王老师")];
    let courses = parse_week_matrix(matrix).unwrap();
    assert_eq!(courses.len(), 1);
    let c = &courses[0];
    assert_eq!(c.name, "数据结构");
    assert_eq!(c.classroom, "W101");
    assert!(matches!(c.odd_or_even, OddOrEven::Odd));
    assert_eq!(c.day, 1);
    assert_eq!(c.classtime, vec![1]);
    assert_eq!(c.week, vec!["3-5".to_string()]);
    assert_eq!(c.teacher, "王老师");
}

#[test]
fn single_cell_roundtrip_expand() {
    // Term starts on Monday 2025-03-03; weeks 3 and 5 meet, week 4 is even.
    let matrix = vec![row_with(0, "数据结构 W101 单 3-5", "王老师")];
    let mut courses = parse_week_matrix(matrix).unwrap();
    let c = &mut courses[0];
    c.with_startdate("20250303");
    assert_eq!(c.daylist, vec!["20250317".to_string(), "20250331".to_string()]);
}

#[test]
fn merge_two_periods_same_day() {
    // The same section text in periods 1 and 2 of one day merges into one
    // record holding both periods.
    let matrix = vec![
        row_with(2, "高等数学 A203 1-16", "李老师"),
        row_with(2, "高等数学 A203 1-16", "李老师"),
    ];
    let courses = parse_week_matrix(matrix).unwrap();
    assert_eq!(courses.len(), 1);
    assert_eq!(courses[0].classtime, vec![1, 2]);
    assert_eq!(courses[0].day, 3);
}

#[test]
fn malformed_matrix_missing_day_column() {
    // A row with six cells cannot cover the seven weekdays.
    let short_row: Vec<RawCourse> = (0..6).map(|_| cell("", "")).collect();
    let r = parse_week_matrix(vec![short_row]);
    assert!(matches!(r, Err(CalendarError::MalformedTimetable)));
}

#[test]
fn boundary_single_week_each_parity() {
    // A "1-1" range with no parity marker expands to exactly one date.
    let matrix = vec![row_with(0, "实验课 B101 1-1", "")];
    let mut courses = parse_week_matrix(matrix).unwrap();
    assert!(matches!(courses[0].odd_or_even, OddOrEven::Each));
    courses[0].with_startdate("20250303");
    assert_eq!(courses[0].daylist, vec!["20250303".to_string()]);
}

#[test]
fn two_token_degraded_section() {
    let matrix = vec![row_with(1, "体育 2-9", "")];
    let courses = parse_week_matrix(matrix).unwrap();
    assert_eq!(courses[0].name, "体育");
    assert_eq!(courses[0].classroom, "");
    assert!(matches!(courses[0].odd_or_even, OddOrEven::Each));
    assert_eq!(courses[0].week, vec!["2-9".to_string()]);
}

#[test]
fn four_token_even_parity_section() {
    let matrix = vec![row_with(4, "大学物理 C302 双 2-18", "")];
    let courses = parse_week_matrix(matrix).unwrap();
    assert_eq!(courses[0].name, "大学物理");
    assert_eq!(courses[0].classroom, "C302");
    assert!(matches!(courses[0].odd_or_even, OddOrEven::Even));
}

#[test]
fn level_marker_joins_course_name() {
    let matrix = vec![row_with(0, "大学英语2 A级 W2204 双 3-18", "")];
    let courses = parse_week_matrix(matrix).unwrap();
    assert_eq!(courses[0].name, "大学英语2 A级");
    assert_eq!(courses[0].classroom, "W2204");
    assert!(matches!(courses[0].odd_or_even, OddOrEven::Even));
    assert_eq!(courses[0].week, vec!["3-18".to_string()]);
}

#[test]
fn slash_separated_sections_share_slot() {
    let matrix = vec![row_with(0, "数学 A101 1-8 / 物理 B202 9-16", "张老师,/赵老师")];
    let courses = parse_week_matrix(matrix).unwrap();
    assert_eq!(courses.len(), 2);
    assert_eq!(courses[0].name, "数学");
    assert_eq!(courses[0].teacher, "张老师");
    assert_eq!(courses[1].name, "物理");
    assert_eq!(courses[1].teacher, "赵老师");
}

#[test]
fn nbsp_cells_are_skipped() {
    let matrix = vec![row_with(0, "&nbsp;", "")];
    let courses = parse_week_matrix(matrix).unwrap();
    assert_eq!(courses.len(), 0);
}

#[test]
fn missing_teacher_gets_placeholder() {
    let matrix = vec![row_with(0, "化学 D401 1-4", "")];
    let courses = parse_week_matrix(matrix).unwrap();
    assert_eq!(courses[0].teacher, "未知教师");
}

#[test]
fn comma_separated_week_ranges() {
    let matrix = vec![row_with(0, "历史 E101 1-4,9-12", "")];
    let mut courses = parse_week_matrix(matrix).unwrap();
    assert_eq!(
        courses[0].week,
        vec!["1-4".to_string(), "9-12".to_string()]
    );
    courses[0].with_startdate("20250303");
    assert_eq!(courses[0].daylist.len(), 8);
    assert_eq!(courses[0].daylist[0], "20250303");
    assert_eq!(courses[0].daylist[4], "20250428");
}

#[test]
fn merge_method_skips_known_ranges() {
    let mut a = ParsedCourse::new(
        "数学".to_string(),
        OddOrEven::Each,
        1,
        vec!["1-4".to_string()],
        vec![1],
        "A101".to_string(),
        "张老师".to_string(),
    );
    let b = ParsedCourse::new(
        "数学".to_string(),
        OddOrEven::Each,
        1,
        vec!["1-4".to_string(), "9-12".to_string()],
        vec![2],
        "A101".to_string(),
        "张老师".to_string(),
    );
    a.merge(&b);
    assert_eq!(a.week, vec!["1-4".to_string(), "9-12".to_string()]);
}

#[test]
fn identify_is_stable_and_not_the_key_itself() {
    let a = ParsedCourse::new(
        "数学".to_string(),
        OddOrEven::Each,
        1,
        vec![],
        vec![1],
        "A101".to_string(),
        "".to_string(),
    );
    let b = ParsedCourse::new(
        "数学".to_string(),
        OddOrEven::Each,
        1,
        vec!["9-12".to_string()],
        vec![2],
        "A101".to_string(),
        "李老师".to_string(),
    );
    let ia = a.identify();
    let ib = b.identify();
    // the identity key ignores weeks, periods and teacher
    assert_eq!(ia, ib);
    // hyphenated UUID shape, not the raw key
    assert_eq!(ia.len(), 36);
    assert!(!ia.contains("数学"));
    let c = ParsedCourse::new(
        "数学".to_string(),
        OddOrEven::Odd,
        1,
        vec![],
        vec![1],
        "A101".to_string(),
        "".to_string(),
    );
    assert_ne!(a.identify(), c.identify());
}

#[test]
fn merge_by_identity_key_ignores_weeks() {
    // Same name, parity and classroom on one day: one meeting, both
    // periods, the first occurrence's week ranges.
    let matrix = vec![
        row_with(1, "高等数学 A203 1-8", "李老师"),
        row_with(1, "高等数学 A203 9-16", "李老师"),
    ];
    let courses = parse_week_matrix(matrix).unwrap();
    assert_eq!(courses.len(), 1);
    assert_eq!(courses[0].classtime, vec![1, 2]);
    assert_eq!(courses[0].week, vec!["1-8".to_string()]);
}

#[test]
fn different_parity_stays_separate() {
    let matrix = vec![
        row_with(1, "高等数学 A203 单 1-8", ""),
        row_with(1, "高等数学 A203 双 1-8", ""),
    ];
    let courses = parse_week_matrix(matrix).unwrap();
    assert_eq!(courses.len(), 2);
    assert_eq!(courses[0].classtime, vec![1]);
    assert_eq!(courses[1].classtime, vec![2]);
}

#[test]
fn one_token_section_is_malformed() {
    let matrix = vec![row_with(0, "单独", "")];
    let r = parse_week_matrix(matrix);
    assert!(matches!(r, Err(CalendarError::MalformedTimetable)));
}
