use cczuni::login::LoginError;
use cczuni::matrix_source::{classinfo_matrix_from_html, row_courses_from_json};
use cczuni::timetable::parse_week_matrix;

#[test]
fn json_row_resolves_courses_and_teachers() {
    let json = r#"{
        "xh": "20250001",
        "kc1": "数学 A101 1-8",
        "kc3": "物理 B202 双 2-16",
        "kcmc1": "数学",
        "skjs1": "张老师",
        "kcmc2": "物理",
        "skjs2": "赵老师",
        "zc": 3
    }"#;
    let row = row_courses_from_json(json).unwrap();
    assert_eq!(row.len(), 7);
    assert_eq!(row[0].course, "数学 A101 1-8");
    assert_eq!(row[0].teacher, "张老师");
    assert_eq!(row[1].course, "");
    assert_eq!(row[2].course, "物理 B202 双 2-16");
    assert_eq!(row[2].teacher, "赵老师");
}

#[test]
fn json_row_joins_section_teachers() {
    let json = r#"{
        "kc1": "数学 A101 1-8/物理 B202 9-16",
        "kcmc1": "数学",
        "skjs1": "张老师",
        "kcmc2": "物理",
        "skjs2": "赵老师"
    }"#;
    let row = row_courses_from_json(json).unwrap();
    assert_eq!(row[0].teacher, "张老师,/赵老师");
}

#[test]
fn json_non_object_is_a_protocol_violation() {
    assert!(matches!(
        row_courses_from_json("[1,2,3]"),
        Err(LoginError::ProtocolViolation)
    ));
    assert!(matches!(
        row_courses_from_json("not json"),
        Err(LoginError::ProtocolViolation)
    ));
}

fn course_td(text: &str) -> String {
    format!("<td>{}</td>", text)
}

fn sample_page() -> String {
    let teacher_table = r#"<table id="GVxkall">
        <tr class="dg1-item"><td>1</td><td> 数学 </td><td>x</td><td>x</td><td>x</td><td> 张老师 </td></tr>
    </table>"#;
    let mut course_row = String::new();
    course_row.push_str("<tr class=\"dg1-item\">");
    course_row.push_str(&course_td("1"));
    course_row.push_str(&course_td("数学 A101 1-8"));
    for _ in 0..6 {
        course_row.push_str(&course_td("&nbsp;"));
    }
    course_row.push_str("</tr>");
    format!(
        "<html><body>{}<table id=\"GVxkkb\">{}</table></body></html>",
        teacher_table, course_row
    )
}

#[test]
fn html_tables_funnel_into_the_matrix() {
    let page = sample_page();
    let matrix = classinfo_matrix_from_html(&page).unwrap();
    assert_eq!(matrix.len(), 1);
    assert_eq!(matrix[0].len(), 7);
    assert_eq!(matrix[0][0].course, "数学 A101 1-8");
    assert_eq!(matrix[0][0].teacher, "张老师");
    assert_eq!(matrix[0][1].course, "&nbsp;");
    // and the funneled matrix parses
    let courses = parse_week_matrix(matrix).unwrap();
    assert_eq!(courses.len(), 1);
    assert_eq!(courses[0].name, "数学");
    assert_eq!(courses[0].teacher, "张老师");
}

#[test]
fn missing_course_table_is_a_protocol_violation() {
    let page = r#"<html><body><table id="GVxkall"></table></body></html>"#;
    assert!(matches!(
        classinfo_matrix_from_html(page),
        Err(LoginError::ProtocolViolation)
    ));
}

#[test]
fn narrow_teacher_row_is_a_protocol_violation() {
    let page = r#"<html><body>
        <table id="GVxkall"><tr class="dg1-item"><td>1</td><td>x</td></tr></table>
        <table id="GVxkkb"></table>
    </body></html>"#;
    assert!(matches!(
        classinfo_matrix_from_html(page),
        Err(LoginError::ProtocolViolation)
    ));
}
