//! The data shapes of the WeChat-facing JSON API.

use vstd::prelude::*;

verus! {

/// The API's uniform response envelope.
#[derive(Debug)]
pub struct Message<T> {
    pub status: i32,
    pub message: Vec<T>,
    pub token: Option<String>,
}

/// The user record the login endpoint returns.
#[derive(Debug)]
pub struct LoginUserData {
    pub userid: String,
    pub username: String,
    pub userident: String,
    pub term: String,
    pub current_value: i32,
    pub position: i32,
    pub employee_number: String,
    pub smscode: String,
    pub gender: String,
    pub permission: String,
    pub id: String,
}

/// One academic term.
#[derive(Debug)]
pub struct Term {
    pub term: String,
}

/// One exam sitting.
#[derive(Debug)]
pub struct Exam {
    pub category: String,
    pub term: String,
    pub student_number: String,
    pub class_full_name: String,
    pub student_id: String,
    pub student_name: String,
    pub class_code: String,
    pub course_code: String,
    pub course_serial: String,
    pub course_name: String,
    pub course_category: String,
    pub active_flag: i32,
    pub id: i32,
    pub start_week: Option<i32>,
    pub week: Option<i32>,
    pub lesson_start: Option<i32>,
    pub lesson_end: Option<i32>,
    pub classroom: Option<String>,
    pub time_range: Option<String>,
    pub invigilator_one: Option<String>,
    pub invigilator_two: Option<String>,
    pub remark: Option<String>,
    pub campus: String,
    pub exam_time: Option<String>,
    pub class_name: String,
    pub schedule_details: Option<String>,
    pub classroom_id: i32,
}

/// One class open for teaching evaluation.
#[derive(Debug)]
pub struct EvaluatableClass {
    pub class_id: String,
    pub course_code: String,
    pub course_name: String,
    pub course_serial: String,
    pub category_code: String,
    pub teacher_code: String,
    pub teacher_name: String,
    pub evaluation_status: Option<String>,
    pub evaluation_id: i32,
    pub teacher_id: String,
}

} // verus!
