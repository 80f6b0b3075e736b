//! Picking the row of an engraving's feature data that applies to its grade and level.

use vstd::prelude::*;
use crate::profile::same_text;

verus! {

/// A feature row, by its stage; `row` names the full row, whose values are fractional
/// and kept by the caller.
#[derive(Clone, Copy, Debug)]
pub struct FeatureRowRef {
    pub stage: u32,
    pub row: usize,
}

/// The rows of one grade.
pub struct FeatureGradeRef {
    pub grade: u32,
    pub stages: Vec<FeatureRowRef>,
}

/// The feature data of an engraving: rows by level, and rows by grade and stage.
pub struct FeatureDataRef {
    pub base_levels: Vec<FeatureRowRef>,
    pub grades: Vec<FeatureGradeRef>,
}

/// What row selection reads of an engraving.
pub struct EngravingInput {
    pub name: String,
    pub icon: String,
    pub grade: String,
    pub level: u32,
    pub ability_level: u32,
    pub feature_data: Option<FeatureDataRef>,
}

/// The number of a grade name: rare 2, epic 3, legendary 4, relic 5.
pub open spec fn grade_number(grade: Seq<char>) -> Option<u32> {
    if grade == "희귀"@ { Some(2) }
    else if grade == "영웅"@ { Some(3) }
    else if grade == "전설"@ { Some(4) }
    else if grade == "유물"@ { Some(5) }
    else { None }
}

/// The number of a grade name.
pub fn raw_grade(grade: &str) -> (g: Option<u32>)
    ensures
        g == grade_number(grade@),
{
    if same_text(grade, "희귀") { Some(2) }
    else if same_text(grade, "영웅") { Some(3) }
    else if same_text(grade, "전설") { Some(4) }
    else if same_text(grade, "유물") { Some(5) }
    else { None }
}

/// `i` is the first index whose grade is `g`.
pub open spec fn first_grade(grades: Seq<FeatureGradeRef>, g: u32, i: int) -> bool {
    0 <= i < grades.len() && grades[i].grade == g && forall|j: int| 0 <= j < i ==> #[trigger] grades[j].grade != g
}

/// `i` is the first index whose stage is `s`.
pub open spec fn first_stage(rows: Seq<FeatureRowRef>, s: u32, i: int) -> bool {
    0 <= i < rows.len() && rows[i].stage == s && forall|j: int| 0 <= j < i ==> #[trigger] rows[j].stage != s
}

/// `level + ability`, held at `u32::MAX`.
pub open spec fn stage_of(level: u32, ability: u32) -> u32 {
    if level + ability > u32::MAX { u32::MAX } else { (level + ability) as u32 }
}

/// The selected row: by grade and stage (level plus ability level) when the grade has a
/// number, else by level among the base rows.
pub open spec fn selected_row(e: EngravingInput, r: Option<usize>) -> bool {
    match e.feature_data {
        None => r is None,
        Some(data) => match grade_number(e.grade@) {
            Some(g) => {
                let grades = data.grades@;
                let s = stage_of(e.level, e.ability_level);
                match r {
                    Some(row) => exists|i: int, j: int| first_grade(grades, g, i)
                        && #[trigger] first_stage(grades[i].stages@, s, j) && grades[i].stages@[j].row == row,
                    None => (forall|i: int| 0 <= i < grades.len() ==> #[trigger] grades[i].grade != g)
                        || exists|i: int| #[trigger] first_grade(grades, g, i)
                            && forall|j: int| 0 <= j < grades[i].stages@.len() ==> #[trigger] grades[i].stages@[j].stage != s,
                }
            },
            None => {
                let idx = if e.level == 0 { 0 } else { e.level - 1 };
                r == (if idx < data.base_levels@.len() { Some(data.base_levels@[idx].row) } else { None::<usize> })
            },
        },
    }
}

fn find_stage(rows: &Vec<FeatureRowRef>, stage: u32) -> (i: Option<usize>)
    ensures
        i matches Some(i) ==> first_stage(rows@, stage, i as int),
        i is None ==> forall|j: int| 0 <= j < rows@.len() ==> #[trigger] rows@[j].stage != stage,
{
    let mut k: usize = 0;
    while k < rows.len()
        invariant
            0 <= k <= rows@.len(),
            forall|j: int| 0 <= j < k ==> #[trigger] rows@[j].stage != stage,
        decreases rows@.len() - k,
    {
        if rows[k].stage == stage {
            return Some(k);
        }
        k += 1;
    }
    None
}

fn find_grade(grades: &Vec<FeatureGradeRef>, grade: u32) -> (i: Option<usize>)
    ensures
        i matches Some(i) ==> first_grade(grades@, grade, i as int),
        i is None ==> forall|j: int| 0 <= j < grades@.len() ==> #[trigger] grades@[j].grade != grade,
{
    let mut k: usize = 0;
    while k < grades.len()
        invariant
            0 <= k <= grades@.len(),
            forall|j: int| 0 <= j < k ==> #[trigger] grades@[j].grade != grade,
        decreases grades@.len() - k,
    {
        if grades[k].grade == grade {
            return Some(k);
        }
        k += 1;
    }
    None
}

/// The feature row that applies to the engraving, by the name under which it is kept.
pub fn selected_feature(engraving: &EngravingInput) -> (r: Option<usize>)
    ensures
        selected_row(*engraving, r),
{
    let data = match &engraving.feature_data {
        Some(d) => d,
        None => return None,
    };
    match raw_grade(engraving.grade.as_str()) {
        Some(g) => {
            let i = match find_grade(&data.grades, g) {
                Some(i) => i,
                None => return None,
            };
            let stage = engraving.level.saturating_add(engraving.ability_level);
            assert(stage == stage_of(engraving.level, engraving.ability_level));
            match find_stage(&data.grades[i].stages, stage) {
                Some(j) => {
                    assert(first_stage(data.grades@[i as int].stages@, stage, j as int));
                    Some(data.grades[i].stages[j].row)
                },
                None => None,
            }
        },
        None => {
            let idx = engraving.level.saturating_sub(1) as usize;
            assert(idx == (if engraving.level == 0 { 0 } else { engraving.level - 1 }));
            if idx < data.base_levels.len() {
                Some(data.base_levels[idx].row)
            } else {
                None
            }
        },
    }
}

} // verus!
