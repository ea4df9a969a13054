//! Rows scraped from the grade and teaching-plan tables.

use vstd::prelude::*;

verus! {

/// One row of the grade table.
#[derive(Debug)]
pub struct GradeData {
    pub name: String,
    pub point: String,
    pub grade: String,
}

/// One row of the teaching-plan table.
#[derive(Debug)]
pub struct TechPlanData {
    pub term: String,
    pub code: String,
    pub name: String,
    pub category: String,
    pub period: String,
    pub credit: String,
    pub exam: String,
    pub exp_period: String,
    pub exp_credit: String,
    pub practice_period: String,
    pub specialization: String,
    pub faculty: String,
}

} // verus!
