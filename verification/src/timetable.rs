//! Parsing a week-indexed matrix of raw timetable cells into normalized
//! course records.
//!
//! The matrix is row-major by period; each of the seven day columns is
//! walked period by period, each cell's course text is split into sections,
//! each section's tokens are dispatched on their count, and sections that
//! denote the same meeting — the identity key of name, parity, classroom
//! and day — are merged into one record that collects all their periods.

use vstd::prelude::*;
use crate::calendar::{CourseModel, OddOrEven, ParsedCourse, RawCourse, RawModel};
use crate::strutil::{
    chars_eq_str, clean_pieces, clean_pieces_exec, clone_chars, from_chars,
    nonempty_pieces, nonempty_pieces_exec, split2_chars, split2_chars_exec, split_chars,
    split_chars_exec, to_chars, trim_chars, trim_spec,
};

verus! {

/// How the schedule extraction engine fails.
#[derive(Debug, Clone, Copy, PartialEq, Eq, Structural)]
pub enum CalendarError {
    /// A timetable row does not cover the seven weekdays; no partial result
    /// is produced.
    MalformedTimetable,
    /// A course names a period the schedule lookup does not map.
    ScheduleMappingMissing,
}

/// The models of a raw matrix: rows of cells.
pub open spec fn matrix_models(rows: Seq<Vec<RawCourse>>) -> Seq<Seq<RawModel>> {
    rows.map_values(|row: Vec<RawCourse>| row@.map_values(|c: RawCourse| c@))
}

/// Every row covers the seven weekdays.
pub open spec fn matrix_ok(m: Seq<Seq<RawModel>>) -> bool {
    forall|i: int| 0 <= i < m.len() ==> (#[trigger] m[i]).len() >= 7
}

/// The sections of one cell's course text: slash-separated, trimmed,
/// non-empty.
pub open spec fn cell_sections(course: Seq<char>) -> Seq<Seq<char>> {
    clean_pieces(split_chars(course, '/'))
}

/// The teachers of one cell: separated by the two characters `,/`, trimmed,
/// non-empty.
pub open spec fn cell_teachers(teacher: Seq<char>) -> Seq<Seq<char>> {
    clean_pieces(split2_chars(teacher, ',', '/'))
}

/// A section that stands for a course (a bare non-breaking-space entity
/// marks an empty slot).
pub open spec fn section_kept(sec: Seq<char>) -> bool {
    sec != "&nbsp;"@
}

/// The teacher for the section at the given index: positional, with a fixed
/// placeholder where the cell names fewer teachers than sections.
pub open spec fn teacher_at(ts: Seq<Seq<char>>, idx: int) -> Seq<char> {
    if 0 <= idx < ts.len() {
        ts[idx]
    } else {
        "未知教师"@
    }
}

/// One section occurrence: a section text met in one cell, with its day
/// column, period row, and resolved teacher.
pub struct Occ {
    pub day: int,
    pub time: int,
    pub sec: Seq<char>,
    pub teacher: Seq<char>,
}

/// The occurrences of the kept sections of one cell, in section order.
pub open spec fn occs_of_sections(
    day: int,
    time: int,
    secs: Seq<Seq<char>>,
    ts: Seq<Seq<char>>,
    idx: int,
) -> Seq<Occ>
    decreases secs.len(),
{
    if secs.len() == 0 {
        Seq::empty()
    } else {
        let rest = occs_of_sections(day, time, secs.drop_first(), ts, idx + 1);
        if section_kept(secs.first()) {
            seq![Occ { day, time, sec: secs.first(), teacher: teacher_at(ts, idx) }] + rest
        } else {
            rest
        }
    }
}

/// The occurrences of one cell.
pub open spec fn cell_occs(day: int, time: int, cell: RawModel) -> Seq<Occ> {
    occs_of_sections(day, time, cell_sections(cell.course), cell_teachers(cell.teacher), 0)
}

/// The occurrences of one day column, walked period by period from `t`.
pub open spec fn occs_of_col(day: int, col: Seq<RawModel>, t: int) -> Seq<Occ>
    decreases col.len(),
{
    if col.len() == 0 {
        Seq::empty()
    } else {
        cell_occs(day, t, col.first()) + occs_of_col(day, col.drop_first(), t + 1)
    }
}

/// Day column `day` of the matrix.
pub open spec fn col_of(m: Seq<Seq<RawModel>>, day: int) -> Seq<RawModel> {
    m.map_values(|row: Seq<RawModel>| row[day])
}

/// The occurrences of day columns `day .. 7`, day-major.
pub open spec fn occs_of_days(m: Seq<Seq<RawModel>>, day: int) -> Seq<Occ>
    decreases 7 - day,
{
    if day >= 7 {
        Seq::empty()
    } else {
        occs_of_col(day, col_of(m, day), 0) + occs_of_days(m, day + 1)
    }
}

/// Every section occurrence of the matrix in processing order.
pub open spec fn all_occs(m: Seq<Seq<RawModel>>) -> Seq<Occ> {
    occs_of_days(m, 0)
}

/// The tokens of a section: split on single spaces, empty pieces dropped,
/// each token trimmed.
pub open spec fn tokens_of(sec: Seq<char>) -> Seq<Seq<char>> {
    nonempty_pieces(split_chars(sec, ' ')).map_values(|t: Seq<char>| trim_spec(t))
}

/// A kept section the token dispatch can handle: at least two tokens.
pub open spec fn section_wf(sec: Seq<char>) -> bool {
    tokens_of(sec).len() >= 2
}

/// Every kept section of the matrix is well formed.
pub open spec fn matrix_sections_wf(m: Seq<Seq<RawModel>>) -> bool {
    forall|k: int|
        0 <= k < all_occs(m).len() ==> section_wf((#[trigger] all_occs(m)[k]).sec)
}

/// A level-marker token: the second token of some course names.
pub open spec fn is_level(tok: Seq<char>) -> bool {
    tok == "A级"@ || tok == "B级"@
}

/// The fields a section's tokens resolve to.
pub struct SecFields {
    pub name: Seq<char>,
    pub place: Seq<char>,
    pub oe: Seq<char>,
    pub week: Seq<char>,
}

/// Token-count-driven dispatch: a closed set of shapes tied to the portal's
/// formatting. Three tokens are `name place weeks`; two are the degraded
/// `name weeks`; a level marker as second token joins it into the name and
/// shifts the rest; four or more are `name place parity weeks`.
pub open spec fn section_fields(toks: Seq<Seq<char>>) -> SecFields
    recommends
        toks.len() >= 2,
{
    if toks.len() == 3 {
        SecFields { name: toks[0], place: toks[1], oe: Seq::empty(), week: toks[2] }
    } else if toks.len() == 2 {
        SecFields { name: toks[0], place: Seq::empty(), oe: Seq::empty(), week: toks[1] }
    } else if is_level(toks[1]) {
        let name = toks[0] + " "@ + toks[1];
        if toks.len() == 5 {
            SecFields { name, place: toks[2], oe: toks[3], week: toks[4] }
        } else {
            SecFields { name, place: toks[2], oe: Seq::empty(), week: toks[3] }
        }
    } else {
        SecFields { name: toks[0], place: toks[1], oe: toks[2], week: toks[3] }
    }
}

/// The parity a parity token denotes; any unknown token means every week.
pub open spec fn parity_of(oe: Seq<char>) -> OddOrEven {
    if oe == "单"@ {
        OddOrEven::Odd
    } else if oe == "双"@ {
        OddOrEven::Even
    } else {
        OddOrEven::Each
    }
}

/// The course record one occurrence creates when its key is new.
pub open spec fn course_of_occ(o: Occ) -> CourseModel {
    let f = section_fields(tokens_of(o.sec));
    CourseModel {
        name: f.name,
        odd_or_even: parity_of(f.oe),
        day: o.day + 1,
        week: nonempty_pieces(split_chars(f.week, ',')),
        classtime: seq![o.time + 1],
        classroom: f.place,
        daylist: Seq::empty(),
        teacher: o.teacher,
    }
}

/// Two records or occurrences denote the same meeting: spec key
/// (name, parity, day, classroom). Week ranges and periods play no part.
pub open spec fn same_meeting(a: CourseModel, b: CourseModel) -> bool {
    &&& a.name == b.name
    &&& a.odd_or_even == b.odd_or_even
    &&& a.classroom == b.classroom
    &&& a.day == b.day
}

/// A value that carries just an identity key, for lookups.
pub open spec fn meeting_key(name: Seq<char>, oe: OddOrEven, room: Seq<char>, day1: int) -> CourseModel {
    CourseModel {
        name,
        odd_or_even: oe,
        day: day1,
        week: Seq::empty(),
        classtime: Seq::empty(),
        classroom: room,
        daylist: Seq::empty(),
        teacher: Seq::empty(),
    }
}

/// Index of the first record for the same meeting, or -1.
pub open spec fn key_idx(acc: Seq<CourseModel>, key: CourseModel) -> int
    decreases acc.len(),
{
    if acc.len() == 0 {
        -1
    } else if same_meeting(acc.first(), key) {
        0
    } else {
        let r = key_idx(acc.drop_first(), key);
        if r < 0 {
            -1
        } else {
            r + 1
        }
    }
}

/// Fold one occurrence into the records: append the period to the record
/// of the same meeting, or start a new record.
pub open spec fn insert_occ(acc: Seq<CourseModel>, o: Occ) -> Seq<CourseModel> {
    let c = course_of_occ(o);
    let j = key_idx(acc, c);
    if j >= 0 {
        acc.update(j, CourseModel { classtime: acc[j].classtime.push(o.time + 1), ..acc[j] })
    } else {
        acc.push(c)
    }
}

/// Fold a list of occurrences into records, in order.
pub open spec fn fold_occs(acc: Seq<CourseModel>, occs: Seq<Occ>) -> Seq<CourseModel>
    decreases occs.len(),
{
    if occs.len() == 0 {
        acc
    } else {
        fold_occs(insert_occ(acc, occs.first()), occs.drop_first())
    }
}

/// The records of a whole matrix.
pub open spec fn parse_spec(m: Seq<Seq<RawModel>>) -> Seq<CourseModel> {
    fold_occs(Seq::empty(), all_occs(m))
}

/// The models of a list of parsed courses.
pub open spec fn course_models(s: Seq<ParsedCourse>) -> Seq<CourseModel> {
    s.map_values(|c: ParsedCourse| c@)
}

/// No two records denote the same meeting.
pub open spec fn keys_unique(acc: Seq<CourseModel>) -> bool {
    forall|i: int, j: int|
        0 <= i < j < acc.len() ==> !same_meeting(#[trigger] acc[i], #[trigger] acc[j])
}

/// The 1-based periods of the occurrences of one meeting, in order.
pub open spec fn times_for(occs: Seq<Occ>, key: CourseModel) -> Seq<int>
    decreases occs.len(),
{
    if occs.len() == 0 {
        Seq::empty()
    } else {
        let rest = times_for(occs.drop_first(), key);
        if same_meeting(course_of_occ(occs.first()), key) {
            seq![occs.first().time + 1] + rest
        } else {
            rest
        }
    }
}

/// The first occurrence of one meeting.
pub open spec fn first_occ(occs: Seq<Occ>, key: CourseModel) -> Occ
    decreases occs.len(),
{
    if occs.len() == 0 {
        arbitrary()
    } else if same_meeting(course_of_occ(occs.first()), key) {
        occs.first()
    } else {
        first_occ(occs.drop_first(), key)
    }
}

proof fn lemma_key_idx_props(acc: Seq<CourseModel>, key: CourseModel)
    ensures
        key_idx(acc, key) == -1 <==> (forall|j: int|
            0 <= j < acc.len() ==> !same_meeting(#[trigger] acc[j], key)),
        key_idx(acc, key) != -1 ==> {
            let f = key_idx(acc, key);
            &&& 0 <= f < acc.len()
            &&& same_meeting(acc[f], key)
            &&& forall|j: int| 0 <= j < f ==> !same_meeting(#[trigger] acc[j], key)
        },
    decreases acc.len(),
{
    if acc.len() > 0 {
        lemma_key_idx_props(acc.drop_first(), key);
        if !same_meeting(acc[0], key) {
            assert(forall|j: int|
                1 <= j < acc.len() ==> acc.drop_first()[j - 1] == #[trigger] acc[j]);
        }
    }
}

/// The lookup reads only the key fields of its argument.
proof fn lemma_key_idx_same_key_arg(acc: Seq<CourseModel>, c1: CourseModel, c2: CourseModel)
    requires
        same_meeting(c1, c2),
    ensures
        key_idx(acc, c1) == key_idx(acc, c2),
    decreases acc.len(),
{
    if acc.len() > 0 {
        lemma_key_idx_same_key_arg(acc.drop_first(), c1, c2);
    }
}

proof fn lemma_key_idx_same_keys(a: Seq<CourseModel>, b: Seq<CourseModel>, key: CourseModel)
    requires
        a.len() == b.len(),
        forall|i: int| 0 <= i < a.len() ==> same_meeting(#[trigger] a[i], b[i]),
    ensures
        key_idx(a, key) == key_idx(b, key),
    decreases a.len(),
{
    if a.len() > 0 {
        assert(forall|i: int|
            0 <= i < a.len() - 1 ==> #[trigger] a.drop_first()[i] == a[i + 1]
                && b.drop_first()[i] == b[i + 1]);
        lemma_key_idx_same_keys(a.drop_first(), b.drop_first(), key);
    }
}

proof fn lemma_key_idx_push(acc: Seq<CourseModel>, e: CourseModel, key: CourseModel)
    ensures
        key_idx(acc, key) >= 0 ==> key_idx(acc.push(e), key) == key_idx(acc, key),
        key_idx(acc, key) == -1 && same_meeting(e, key) ==> key_idx(acc.push(e), key)
            == acc.len(),
        key_idx(acc, key) == -1 && !same_meeting(e, key) ==> key_idx(acc.push(e), key) == -1,
    decreases acc.len(),
{
    let t = acc.push(e);
    if acc.len() == 0 {
        assert(t.drop_first() =~~= Seq::<CourseModel>::empty());
        assert(key_idx(Seq::<CourseModel>::empty(), key) == -1);
    } else {
        assert(t[0] == acc[0]);
        assert(t.drop_first() =~~= acc.drop_first().push(e));
        lemma_key_idx_push(acc.drop_first(), e, key);
    }
}

/// What folding one occurrence does to the records, seen from any one key.
proof fn lemma_insert_occ(acc: Seq<CourseModel>, o: Occ, key: CourseModel)
    requires
        keys_unique(acc),
    ensures
        keys_unique(insert_occ(acc, o)),
        insert_occ(acc, o).len() >= acc.len(),
        same_meeting(course_of_occ(o), key) ==> {
            let j = key_idx(acc, key);
            let r = insert_occ(acc, o);
            if j >= 0 {
                &&& key_idx(r, key) == j
                &&& r[j] == (CourseModel { classtime: acc[j].classtime.push(o.time + 1), ..acc[j] })
            } else {
                &&& key_idx(r, key) == acc.len()
                &&& r[acc.len() as int] == course_of_occ(o)
            }
        },
        !same_meeting(course_of_occ(o), key) ==> {
            let j = key_idx(acc, key);
            let r = insert_occ(acc, o);
            &&& key_idx(r, key) == j
            &&& (j >= 0 ==> r[j] == acc[j])
        },
{
    let c = course_of_occ(o);
    lemma_key_idx_props(acc, c);
    lemma_key_idx_props(acc, key);
    let jo = key_idx(acc, c);
    let r = insert_occ(acc, o);
    if same_meeting(c, key) {
        lemma_key_idx_same_key_arg(acc, c, key);
    }
    if jo >= 0 {
        let e2 = CourseModel { classtime: acc[jo].classtime.push(o.time + 1), ..acc[jo] };
        assert(r =~~= acc.update(jo, e2));
        assert(forall|i: int| 0 <= i < acc.len() ==> same_meeting(#[trigger] r[i], acc[i]));
        lemma_key_idx_same_keys(r, acc, key);
        assert(keys_unique(r)) by {
            assert forall|i: int, j: int| 0 <= i < j < r.len() implies !same_meeting(
                #[trigger] r[i],
                #[trigger] r[j],
            ) by {
                assert(!same_meeting(acc[i], acc[j]));
            }
        }
    } else {
        assert(r =~~= acc.push(c));
        lemma_key_idx_push(acc, c, key);
        assert forall|i: int, j: int| 0 <= i < j < r.len() implies !same_meeting(
            #[trigger] r[i],
            #[trigger] r[j],
        ) by {
            if j == acc.len() {
                assert(!same_meeting(acc[i], c));
            }
        }
    }
}

/// What folding a list of occurrences does to the records, seen from any
/// one meeting: the record for that meeting collects exactly the periods of
/// its occurrences, in order, and no second record for it appears.
proof fn lemma_fold_accumulates(acc: Seq<CourseModel>, occs: Seq<Occ>, key: CourseModel)
    requires
        keys_unique(acc),
    ensures
        keys_unique(fold_occs(acc, occs)),
        fold_occs(acc, occs).len() >= acc.len(),
        ({
            let r = fold_occs(acc, occs);
            let j = key_idx(acc, key);
            let ts = times_for(occs, key);
            &&& (j >= 0 ==> key_idx(r, key) == j && r[j] == (CourseModel {
                classtime: acc[j].classtime + ts,
                ..acc[j]
            }))
            &&& (j == -1 && ts.len() == 0 ==> key_idx(r, key) == -1)
            &&& (j == -1 && ts.len() > 0 ==> {
                let j2 = key_idx(r, key);
                &&& 0 <= j2 < r.len()
                &&& r[j2] == (CourseModel {
                    classtime: ts,
                    ..course_of_occ(first_occ(occs, key))
                })
            })
        }),
    decreases occs.len(),
{
    let j = key_idx(acc, key);
    let ts = times_for(occs, key);
    lemma_key_idx_props(acc, key);
    if occs.len() == 0 {
        assert(ts =~~= Seq::<int>::empty());
        if j >= 0 {
            assert(acc[j].classtime + ts =~~= acc[j].classtime);
            assert(acc[j] =~~= (CourseModel { classtime: acc[j].classtime + ts, ..acc[j] }));
        }
    } else {
        let o = occs.first();
        let acc1 = insert_occ(acc, o);
        lemma_insert_occ(acc, o, key);
        lemma_fold_accumulates(acc1, occs.drop_first(), key);
        let r = fold_occs(acc, occs);
        assert(r == fold_occs(acc1, occs.drop_first()));
        let tsr = times_for(occs.drop_first(), key);
        if same_meeting(course_of_occ(o), key) {
            assert(ts == seq![o.time + 1] + tsr);
            if j >= 0 {
                assert(key_idx(acc1, key) == j);
                assert(acc1[j].classtime == acc[j].classtime.push(o.time + 1));
                assert(acc1[j].classtime + tsr =~~= acc[j].classtime + ts);
                assert(r[j].classtime =~~= acc[j].classtime + ts);
                assert(r[j] =~~= (CourseModel { classtime: acc[j].classtime + ts, ..acc[j] }));
            } else {
                let jn = acc.len() as int;
                assert(key_idx(acc1, key) == jn);
                assert(jn < acc1.len()) by {
                    lemma_key_idx_props(acc1, key);
                }
                assert(acc1[jn] == course_of_occ(o));
                assert(first_occ(occs, key) == o);
                assert(course_of_occ(o).classtime == seq![o.time + 1]);
                let j2 = key_idx(r, key);
                assert(j2 == jn);
                assert(course_of_occ(o).classtime + tsr =~~= ts);
                assert(r[j2].classtime =~~= seq![o.time + 1] + tsr);
                assert(r[j2] =~~= (CourseModel {
                    classtime: ts,
                    ..course_of_occ(first_occ(occs, key))
                }));
            }
        } else {
            assert(ts == tsr);
            assert(first_occ(occs, key) == first_occ(occs.drop_first(), key));
            assert(key_idx(acc1, key) == j);
            if j >= 0 {
                assert(acc1[j] == acc[j]);
            }
        }
    }
}

/// LAW (merge correctness): among the records that parsing a matrix yields
/// there is never a second record for the same meeting — the identity key
/// (name, parity, day, classroom) — and the one record for a meeting
/// collects exactly the 1-based periods of all its occurrences, in order.
/// Two raw cells of one day whose sections resolve to the same key
/// therefore end up as one record holding both periods, never as two
/// records.
pub proof fn lemma_parse_merges(m: Seq<Seq<RawModel>>, key: CourseModel)
    requires
        times_for(all_occs(m), key).len() > 0,
    ensures
        ({
            let recs = fold_occs(Seq::empty(), all_occs(m));
            &&& keys_unique(recs)
            &&& exists|j: int|
                0 <= j < recs.len() && same_meeting(#[trigger] recs[j], key) && recs[j].classtime
                    == times_for(all_occs(m), key)
        }),
{
    let empty = Seq::<CourseModel>::empty();
    lemma_fold_accumulates(empty, all_occs(m), key);
    let recs = fold_occs(empty, all_occs(m));
    let j2 = key_idx(recs, key);
    lemma_key_idx_props(recs, key);
    assert(same_meeting(recs[j2], key)) by {
        lemma_first_occ_key(all_occs(m), key);
    }
}

proof fn lemma_first_occ_key(occs: Seq<Occ>, key: CourseModel)
    requires
        times_for(occs, key).len() > 0,
    ensures
        same_meeting(course_of_occ(first_occ(occs, key)), key),
    decreases occs.len(),
{
    if occs.len() > 0 {
        let o = occs.first();
        if !same_meeting(course_of_occ(o), key) {
            lemma_first_occ_key(occs.drop_first(), key);
        }
    }
}

/// The tokens of a section, executable form.
fn tokens_exec(sec: &Vec<char>) -> (r: Vec<Vec<char>>)
    ensures
        r.deep_view() == tokens_of(sec@),
{
    let parts = split_chars_exec(sec, ' ');
    let ne = nonempty_pieces_exec(parts);
    let ghost nedv = ne.deep_view();
    let mut out: Vec<Vec<char>> = Vec::new();
    let mut i: usize = 0;
    while i < ne.len()
        invariant
            i <= ne@.len(),
            nedv == ne.deep_view(),
            nedv.len() == ne@.len(),
            out@.len() == i,
            forall|j: int| 0 <= j < ne@.len() ==> #[trigger] nedv[j] == ne@[j]@,
            forall|j: int| 0 <= j < i ==> (#[trigger] out@[j])@ == trim_spec(nedv[j]),
        decreases ne@.len() - i,
    {
        let t = trim_chars(&ne[i]);
        out.push(t);
        i = i + 1;
    }
    proof {
        assert(out.deep_view() =~~= nedv.map_values(|t: Seq<char>| trim_spec(t)));
    }
    out
}

/// Executable mirror of `parity_of`.
fn parity_exec(oe: &Vec<char>) -> (r: OddOrEven)
    ensures
        r == parity_of(oe@),
{
    if chars_eq_str(oe, "单") {
        OddOrEven::Odd
    } else if chars_eq_str(oe, "双") {
        OddOrEven::Even
    } else {
        OddOrEven::Each
    }
}

/// The resolved fields of a section, executable form.
struct SecFieldsExec {
    name: Vec<char>,
    place: Vec<char>,
    oe: Vec<char>,
    week: Vec<char>,
}

/// Executable mirror of `section_fields`.
fn section_fields_exec(toks: &Vec<Vec<char>>) -> (r: SecFieldsExec)
    requires
        toks.deep_view().len() >= 2,
    ensures
        ({
            let f = section_fields(toks.deep_view());
            r.name@ == f.name && r.place@ == f.place && r.oe@ == f.oe && r.week@ == f.week
        }),
{
    let ghost dv = toks.deep_view();
    proof {
        assert(forall|j: int| 0 <= j < toks@.len() ==> #[trigger] dv[j] == toks@[j]@);
    }
    if toks.len() == 3 {
        SecFieldsExec {
            name: clone_chars(&toks[0]),
            place: clone_chars(&toks[1]),
            oe: Vec::new(),
            week: clone_chars(&toks[2]),
        }
    } else if toks.len() == 2 {
        SecFieldsExec {
            name: clone_chars(&toks[0]),
            place: Vec::new(),
            oe: Vec::new(),
            week: clone_chars(&toks[1]),
        }
    } else if chars_eq_str(&toks[1], "A级") || chars_eq_str(&toks[1], "B级") {
        let mut name = clone_chars(&toks[0]);
        name.push(' ');
        let mut second = clone_chars(&toks[1]);
        name.append(&mut second);
        proof {
            assert(name@ =~= dv[0] + " "@ + dv[1]) by {
                reveal_strlit(" ");
            }
        }
        if toks.len() == 5 {
            SecFieldsExec {
                name,
                place: clone_chars(&toks[2]),
                oe: clone_chars(&toks[3]),
                week: clone_chars(&toks[4]),
            }
        } else {
            SecFieldsExec {
                name,
                place: clone_chars(&toks[2]),
                oe: Vec::new(),
                week: clone_chars(&toks[3]),
            }
        }
    } else {
        SecFieldsExec {
            name: clone_chars(&toks[0]),
            place: clone_chars(&toks[1]),
            oe: clone_chars(&toks[2]),
            week: clone_chars(&toks[3]),
        }
    }
}

/// One occurrence, executable form.
pub struct RawOccurrence {
    pub day: usize,
    pub time: usize,
    pub sec: Vec<char>,
    pub teacher: Vec<char>,
}

impl View for RawOccurrence {
    type V = Occ;

    open spec fn view(&self) -> Occ {
        Occ { day: self.day as int, time: self.time as int, sec: self.sec@, teacher: self.teacher@ }
    }
}

/// The models of a list of occurrences.
pub open spec fn occ_views(s: Seq<RawOccurrence>) -> Seq<Occ> {
    s.map_values(|o: RawOccurrence| o@)
}

/// The occurrences of one cell, executable form.
fn occs_of_cell_exec(day: usize, time: usize, cell: &RawCourse) -> (r: Vec<RawOccurrence>)
    ensures
        occ_views(r@) == cell_occs(day as int, time as int, cell@),
        forall|x: int| 0 <= x < r@.len() ==> (#[trigger] r@[x]).day == day && r@[x].time == time,
{
    let course_chars = to_chars(cell.course.as_str());
    let teacher_chars = to_chars(cell.teacher.as_str());
    let secs = clean_pieces_exec(&split_chars_exec(&course_chars, '/'));
    let ts = clean_pieces_exec(&split2_chars_exec(&teacher_chars, ',', '/'));
    let ghost sdv = secs.deep_view();
    let ghost tdv = ts.deep_view();
    proof {
        assert(sdv == cell_sections(cell@.course));
        assert(tdv == cell_teachers(cell@.teacher));
    }
    let mut out: Vec<RawOccurrence> = Vec::new();
    let mut idx: usize = 0;
    proof {
        assert(sdv.skip(0) =~~= sdv);
        assert(occ_views(out@) + occs_of_sections(day as int, time as int, sdv, tdv, 0)
            =~~= occs_of_sections(day as int, time as int, sdv, tdv, 0));
    }
    while idx < secs.len()
        invariant
            idx <= secs@.len(),
            sdv == secs.deep_view(),
            tdv == ts.deep_view(),
            sdv.len() == secs@.len(),
            tdv.len() == ts@.len(),
            forall|j: int| 0 <= j < secs@.len() ==> #[trigger] sdv[j] == secs@[j]@,
            forall|j: int| 0 <= j < ts@.len() ==> #[trigger] tdv[j] == ts@[j]@,
            forall|x: int|
                0 <= x < out@.len() ==> (#[trigger] out@[x]).day == day && out@[x].time == time,
            cell_occs(day as int, time as int, cell@) == occ_views(out@) + occs_of_sections(
                day as int,
                time as int,
                sdv.skip(idx as int),
                tdv,
                idx as int,
            ),
        decreases secs@.len() - idx,
    {
        let ghost pre = sdv.skip(idx as int);
        assert(pre[0] == sdv[idx as int]);
        assert(pre.drop_first() =~~= sdv.skip(idx + 1));
        if !chars_eq_str(&secs[idx], "&nbsp;") {
            assert(section_kept(pre.first()));
            let teacher: Vec<char> = if idx < ts.len() {
                clone_chars(&ts[idx])
            } else {
                to_chars("未知教师")
            };
            assert(teacher@ == teacher_at(tdv, idx as int));
            let ghost om = occ_views(out@);
            let o = RawOccurrence { day, time, sec: clone_chars(&secs[idx]), teacher };
            let ghost ov = o@;
            out.push(o);
            proof {
                assert(occ_views(out@) =~~= om.push(ov));
                assert(occ_views(out@) + occs_of_sections(
                    day as int,
                    time as int,
                    sdv.skip(idx + 1),
                    tdv,
                    idx + 1,
                ) =~~= om + (seq![ov] + occs_of_sections(
                    day as int,
                    time as int,
                    sdv.skip(idx + 1),
                    tdv,
                    idx + 1,
                )));
            }
        } else {
            assert(!section_kept(pre.first()));
        }
        idx = idx + 1;
    }
    assert(sdv.skip(secs@.len() as int) =~~= Seq::<Seq<char>>::empty());
    assert(occ_views(out@) + occs_of_sections(
        day as int,
        time as int,
        Seq::empty(),
        tdv,
        secs@.len() as int,
    ) =~~= occ_views(out@));
    out
}

/// Every occurrence of the matrix, day-major then period then section.
fn collect_occs(row_matrix: &Vec<Vec<RawCourse>>) -> (r: Vec<RawOccurrence>)
    requires
        matrix_ok(matrix_models(row_matrix@)),
    ensures
        occ_views(r@) == all_occs(matrix_models(row_matrix@)),
        forall|x: int|
            0 <= x < r@.len() ==> (#[trigger] r@[x]).day < 7 && r@[x].time < row_matrix@.len(),
{
    let ghost mm = matrix_models(row_matrix@);
    let rows = row_matrix.len();
    let mut out: Vec<RawOccurrence> = Vec::new();
    let mut day: usize = 0;
    proof {
        assert(occ_views(out@) + occs_of_days(mm, 0) =~~= occs_of_days(mm, 0));
    }
    while day < 7
        invariant
            day <= 7,
            mm == matrix_models(row_matrix@),
            matrix_ok(mm),
            rows == row_matrix@.len(),
            mm.len() == rows,
            forall|x: int|
                0 <= x < out@.len() ==> (#[trigger] out@[x]).day < 7 && out@[x].time < rows,
            all_occs(mm) == occ_views(out@) + occs_of_days(mm, day as int),
        decreases 7 - day,
    {
        let ghost col = col_of(mm, day as int);
        proof {
            assert(occs_of_days(mm, day as int) == occs_of_col(day as int, col, 0)
                + occs_of_days(mm, day + 1));
            assert(col.skip(0) =~~= col);
        }
        let mut time: usize = 0;
        while time < rows
            invariant
                time <= rows,
                day < 7,
                mm == matrix_models(row_matrix@),
                matrix_ok(mm),
                rows == row_matrix@.len(),
                mm.len() == rows,
                col == col_of(mm, day as int),
                col.len() == rows,
                forall|x: int|
                    0 <= x < out@.len() ==> (#[trigger] out@[x]).day < 7 && out@[x].time < rows,
                all_occs(mm) == occ_views(out@) + occs_of_col(
                    day as int,
                    col.skip(time as int),
                    time as int,
                ) + occs_of_days(mm, day + 1),
            decreases rows - time,
        {
            let ghost pre = col.skip(time as int);
            proof {
                assert(pre[0] == col[time as int]);
                assert(pre.drop_first() =~~= col.skip(time + 1));
                assert(col[time as int] == mm[time as int][day as int]);
                assert(mm[time as int].len() >= 7);
                assert(mm[time as int][day as int] == row_matrix@[time as int]@[day as int]@);
            }
            assert(day < row_matrix@[time as int]@.len());
            let mut cell_occs_v = occs_of_cell_exec(day, time, &row_matrix[time][day]);
            let ghost before = occ_views(out@);
            let ghost chunk = occ_views(cell_occs_v@);
            out.append(&mut cell_occs_v);
            proof {
                assert(occ_views(out@) =~~= before + chunk);
                assert(occ_views(out@) + (occs_of_col(day as int, col.skip(time + 1), time + 1)
                    + occs_of_days(mm, day + 1)) =~~= before + (occs_of_col(
                    day as int,
                    col.skip(time as int),
                    time as int,
                ) + occs_of_days(mm, day + 1)));
            }
            time = time + 1;
        }
        proof {
            assert(col.skip(rows as int) =~~= Seq::<RawModel>::empty());
            assert(occs_of_col(day as int, Seq::empty(), rows as int)
                =~~= Seq::<Occ>::empty());
            assert(occ_views(out@) + occs_of_days(mm, day + 1) =~~= occ_views(out@)
                + (occs_of_col(day as int, col.skip(rows as int), rows as int) + occs_of_days(
                mm,
                day + 1,
            )));
        }
        day = day + 1;
    }
    assert(occs_of_days(mm, 7) =~~= Seq::<Occ>::empty());
    assert(occ_views(out@) + occs_of_days(mm, 7) =~~= occ_views(out@));
    out
}

/// Position of the record for the given meeting among those built so far.
fn find_key(
    courses: &Vec<ParsedCourse>,
    name: &String,
    parity: &OddOrEven,
    classroom: &String,
    day1: usize,
) -> (r: Option<usize>)
    ensures
        ({
            let acc = course_models(courses@);
            let key = meeting_key(name@, *parity, classroom@, day1 as int);
            match r {
                Some(j) => j < acc.len() && j == key_idx(acc, key),
                None => key_idx(acc, key) == -1,
            }
        }),
{
    let ghost acc = course_models(courses@);
    let ghost key = meeting_key(name@, *parity, classroom@, day1 as int);
    let n = courses.len();
    let mut j: usize = 0;
    while j < n
        invariant
            j <= n,
            n == courses@.len(),
            acc == course_models(courses@),
            key == meeting_key(name@, *parity, classroom@, day1 as int),
            acc.len() == n,
            forall|i: int| 0 <= i < j ==> !same_meeting(#[trigger] acc[i], key),
        decreases n - j,
    {
        if courses[j].name == *name && courses[j].odd_or_even == *parity && courses[j].classroom
            == *classroom && courses[j].day == day1 {
            proof {
                assert(same_meeting(acc[j as int], key));
                lemma_key_idx_props(acc, key);
            }
            return Some(j);
        }
        assert(!same_meeting(acc[j as int], key));
        j = j + 1;
    }
    proof {
        lemma_key_idx_props(acc, key);
    }
    None
}

/// Turn a week-indexed, row-major matrix of raw cells into normalized course
/// records.
///
/// Every row must cover the seven weekdays, and every kept section must
/// carry at least the two tokens the dispatch reads; otherwise the whole
/// matrix is rejected as malformed and no partial record list is produced.
/// Sections that resolve to the same meeting — the identity key of name,
/// parity, classroom and day — merge into one record that collects each
/// occurrence's period in order.
pub fn parse_week_matrix(row_matrix: Vec<Vec<RawCourse>>) -> (r: Result<
    Vec<ParsedCourse>,
    CalendarError,
>)
    ensures
        match r {
            Err(e) => e == CalendarError::MalformedTimetable && (!matrix_ok(
                matrix_models(row_matrix@),
            ) || !matrix_sections_wf(matrix_models(row_matrix@))),
            Ok(courses) => matrix_ok(matrix_models(row_matrix@)) && matrix_sections_wf(
                matrix_models(row_matrix@),
            ) && course_models(courses@) == parse_spec(matrix_models(row_matrix@)),
        },
{
    let ghost mm = matrix_models(row_matrix@);
    let rows = row_matrix.len();
    let mut i: usize = 0;
    while i < rows
        invariant
            i <= rows,
            mm == matrix_models(row_matrix@),
            rows == row_matrix@.len(),
            mm.len() == rows,
            forall|j: int| 0 <= j < i ==> (#[trigger] mm[j]).len() >= 7,
        decreases rows - i,
    {
        if row_matrix[i].len() < 7 {
            assert(mm[i as int].len() < 7);
            return Err(CalendarError::MalformedTimetable);
        }
        assert(mm[i as int].len() >= 7);
        i = i + 1;
    }
    assert(matrix_ok(mm));
    let occs = collect_occs(&row_matrix);
    let ghost ov = occ_views(occs@);
    let n = occs.len();
    // a kept section the dispatch cannot read rejects the whole matrix
    let mut w: usize = 0;
    while w < n
        invariant
            w <= n,
            mm == matrix_models(row_matrix@),
            ov == occ_views(occs@),
            ov == all_occs(mm),
            n == occs@.len(),
            ov.len() == n,
            forall|j: int| 0 <= j < w ==> section_wf((#[trigger] ov[j]).sec),
        decreases n - w,
    {
        let toks = tokens_exec(&occs[w].sec);
        proof {
            assert(ov[w as int] == occs@[w as int]@);
        }
        if toks.len() < 2 {
            proof {
                assert(!section_wf(ov[w as int].sec));
            }
            return Err(CalendarError::MalformedTimetable);
        }
        assert(section_wf(ov[w as int].sec));
        w = w + 1;
    }
    assert(matrix_sections_wf(mm));
    let mut courses: Vec<ParsedCourse> = Vec::new();
    let mut k: usize = 0;
    proof {
        assert(course_models(courses@) =~~= Seq::<CourseModel>::empty());
        assert(ov.skip(0) =~~= ov);
    }
    while k < n
        invariant
            k <= n,
            mm == matrix_models(row_matrix@),
            matrix_ok(mm),
            matrix_sections_wf(mm),
            ov == occ_views(occs@),
            ov == all_occs(mm),
            n == occs@.len(),
            ov.len() == n,
            rows == row_matrix@.len(),
            forall|x: int|
                0 <= x < occs@.len() ==> (#[trigger] occs@[x]).day < 7 && occs@[x].time < rows,
            fold_occs(Seq::empty(), ov) == fold_occs(
                course_models(courses@),
                ov.skip(k as int),
            ),
        decreases n - k,
    {
        let ghost acc = course_models(courses@);
        let ghost pre = ov.skip(k as int);
        proof {
            assert(pre[0] == ov[k as int]);
            assert(pre.drop_first() =~~= ov.skip(k + 1));
            assert(ov[k as int] == occs@[k as int]@);
            assert(section_wf(ov[k as int].sec));
        }
        let day1 = occs[k].day + 1;
        let time1 = occs[k].time + 1;
        let toks = tokens_exec(&occs[k].sec);
        assert(toks.deep_view().len() >= 2);
        let f = section_fields_exec(&toks);
        let parity = parity_exec(&f.oe);
        let name = from_chars(&f.name);
        let place = from_chars(&f.place);
        let ghost c = course_of_occ(pre.first());
        proof {
            assert(c.name == name@ && c.odd_or_even == parity && c.classroom == place@ && c.day
                == day1 as int);
            assert(same_meeting(c, meeting_key(name@, parity, place@, day1 as int)));
        }
        match find_key(&courses, &name, &parity, &place, day1) {
            Some(j) => {
                proof {
                    lemma_key_idx_same_key_arg(
                        acc,
                        meeting_key(name@, parity, place@, day1 as int),
                        c,
                    );
                }
                let cr = &mut courses[j];
                cr.add_classtime(time1);
                proof {
                    let acc2 = course_models(courses@);
                    assert(acc2 =~~= acc.update(
                        j as int,
                        CourseModel {
                            classtime: acc[j as int].classtime.push(time1 as int),
                            ..acc[j as int]
                        },
                    ));
                    assert(acc2 == insert_occ(acc, pre.first()));
                }
            },
            None => {
                proof {
                    lemma_key_idx_same_key_arg(
                        acc,
                        meeting_key(name@, parity, place@, day1 as int),
                        c,
                    );
                }
                let wparts = nonempty_pieces_exec(split_chars_exec(&f.week, ','));
                let ghost wdv = wparts.deep_view();
                let mut weeks: Vec<String> = Vec::new();
                let mut wi: usize = 0;
                while wi < wparts.len()
                    invariant
                        wi <= wparts@.len(),
                        wdv == wparts.deep_view(),
                        wdv.len() == wparts@.len(),
                        weeks@.len() == wi,
                        forall|x: int|
                            0 <= x < wparts@.len() ==> #[trigger] wdv[x] == wparts@[x]@,
                        forall|x: int| 0 <= x < wi ==> (#[trigger] weeks@[x])@ == wdv[x],
                    decreases wparts@.len() - wi,
                {
                    weeks.push(from_chars(&wparts[wi]));
                    wi = wi + 1;
                }
                let teacher = from_chars(&occs[k].teacher);
                let times = vec![time1];
                proof {
                    assert(times@.map_values(|t: usize| t as int) =~~= seq![time1 as int]);
                }
                let course = ParsedCourse::new(name, parity, day1, weeks, times, place, teacher);
                proof {
                    assert(course@ =~~= c) by {
                        assert(weeks@.map_values(|ws: String| ws@) =~~= nonempty_pieces(
                            split_chars(section_fields(tokens_of(pre.first().sec)).week, ','),
                        ));
                    }
                }
                courses.push(course);
                proof {
                    let acc2 = course_models(courses@);
                    assert(acc2 =~~= acc.push(c));
                    assert(acc2 == insert_occ(acc, pre.first()));
                }
            },
        }
        k = k + 1;
    }
    proof {
        assert(ov.skip(n as int) =~~= Seq::<Occ>::empty());
    }
    Ok(courses)
}

} // verus!
