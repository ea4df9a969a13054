//! Funnels from the two timetable sources — a scraped HTML document and a
//! positionally-named JSON object — into the one raw cell matrix the
//! schedule extraction engine consumes.

use vstd::prelude::*;
use crate::calendar::{RawCourse, RawModel};
use crate::login::LoginError;
use crate::strutil::{
    dec_of, dec_of_exec, from_chars, split_chars, split_chars_exec, to_chars, trim_chars,
    trim_spec,
};

verus! {

/// One JSON string field: its key and its string value.
pub struct JsonField {
    pub name: String,
    pub value: String,
}

/// The fields as pairs of character sequences.
pub open spec fn json_field_models(s: Seq<JsonField>) -> Seq<(Seq<char>, Seq<char>)> {
    s.map_values(|f: JsonField| (f.name@, f.value@))
}

/// The string-valued fields of a JSON object, each key once, in the parsed
/// object's iteration order; `None` when the text is not a JSON object.
pub uninterp spec fn json_string_fields_of(s: Seq<char>) -> Option<Seq<(Seq<char>, Seq<char>)>>;

/// Relies on `serde_json`: parses the text as a JSON object and collects
/// its string-valued fields, skipping fields of any other type. An object
/// holds each key once, so lookups do not depend on the field order.
#[verifier::external_body]
pub(crate) fn json_string_fields(s: &str) -> (r: Option<Vec<JsonField>>)
    ensures
        match json_string_fields_of(s@) {
            Some(fs) => r matches Some(v) && json_field_models(v@) == fs,
            None => r is None,
        },
{
    let value: serde_json::Value = serde_json::from_str(s).ok()?;
    let obj = value.as_object()?;
    let mut out: Vec<JsonField> = Vec::new();
    for (k, v) in obj {
        if let serde_json::Value::String(text) = v {
            out.push(JsonField { name: k.clone(), value: text.clone() });
        }
    }
    Some(out)
}

/// The value of the first field with the given name.
pub open spec fn field_lookup(fs: Seq<(Seq<char>, Seq<char>)>, name: Seq<char>) -> Option<
    Seq<char>,
>
    decreases fs.len(),
{
    if fs.len() == 0 {
        None
    } else if fs.first().0 == name {
        Some(fs.first().1)
    } else {
        field_lookup(fs.drop_first(), name)
    }
}

/// A positional key: a fixed prefix followed by a decimal index.
pub open spec fn indexed_key(prefix: Seq<char>, i: int) -> Seq<char> {
    prefix + dec_of(i)
}

/// The course text of day `i` (1-based): the `kc<i>` field, or empty.
pub open spec fn course_text_of(fs: Seq<(Seq<char>, Seq<char>)>, i: int) -> Seq<char> {
    match field_lookup(fs, indexed_key("kc"@, i)) {
        Some(v) => v,
        None => Seq::empty(),
    }
}

/// The teacher recorded under a course name: pairs `kcmc<i>`/`skjs<i>` for
/// `i` up to 20, later pairs shadowing earlier ones.
pub open spec fn teacher_map_get(
    fs: Seq<(Seq<char>, Seq<char>)>,
    name: Seq<char>,
    i: int,
) -> Option<Seq<char>>
    decreases i,
{
    if i < 1 {
        None
    } else {
        let n = field_lookup(fs, indexed_key("kcmc"@, i));
        let t = field_lookup(fs, indexed_key("skjs"@, i));
        if n is Some && t is Some && n->Some_0 == name {
            t
        } else {
            teacher_map_get(fs, name, i - 1)
        }
    }
}

/// The first space-separated piece of a text (possibly empty).
pub open spec fn first_token(s: Seq<char>) -> Seq<char> {
    split_chars(s, ' ')[0]
}

/// The teacher of one slash-separated course section, or empty.
pub open spec fn section_teacher(fs: Seq<(Seq<char>, Seq<char>)>, sec: Seq<char>) -> Seq<char> {
    match teacher_map_get(fs, first_token(sec), 20) {
        Some(t) => t,
        None => Seq::empty(),
    }
}

/// Teachers of all sections joined with `,/`, skipping empty entries on the
/// right of the join.
pub open spec fn join_teachers(ts: Seq<Seq<char>>) -> Seq<char>
    decreases ts.len(),
{
    if ts.len() == 0 {
        Seq::empty()
    } else if ts.len() == 1 {
        ts[0]
    } else {
        let a = join_teachers(ts.drop_last());
        if ts.last().len() == 0 {
            a
        } else {
            a + ",/"@ + ts.last()
        }
    }
}

/// The raw cell of day `i`: the course text and its teachers.
pub open spec fn row_course_of(fs: Seq<(Seq<char>, Seq<char>)>, i: int) -> RawModel {
    let text = course_text_of(fs, i);
    let ts = split_chars(text, '/').map_values(|sec: Seq<char>| section_teacher(fs, sec));
    RawModel { course: text, teacher: join_teachers(ts) }
}

/// One timetable row from a JSON object: the seven day cells `kc1` .. `kc7`.
pub open spec fn row_courses_of(fs: Seq<(Seq<char>, Seq<char>)>) -> Seq<RawModel> {
    Seq::new(7, |i: int| row_course_of(fs, i + 1))
}

/// Build one positional key, such as `kc3` or `skjs12`.
fn indexed_key_exec(prefix: &str, i: u32) -> (r: String)
    requires
        1 <= i <= 99,
    ensures
        r@ == indexed_key(prefix@, i as int),
{
    let mut r: String = prefix.to_owned();
    let digits = from_chars(&dec_of_exec(i as u64));
    r.append(digits.as_str());
    r
}

/// Look up the first field with the given name.
fn field_lookup_exec(fields: &Vec<JsonField>, name: &String) -> (r: Option<String>)
    ensures
        match field_lookup(json_field_models(fields@), name@) {
            Some(v) => r matches Some(u) && u@ == v,
            None => r is None,
        },
{
    let ghost fm = json_field_models(fields@);
    let n = fields.len();
    let mut i: usize = 0;
    while i < n
        invariant
            i <= n,
            n == fields@.len(),
            fm == json_field_models(fields@),
            fm.len() == n,
            forall|j: int| 0 <= j < i ==> (#[trigger] fm[j]).0 != name@,
        decreases n - i,
    {
        if fields[i].name == *name {
            proof {
                assert(fm[i as int].0 == name@);
                lemma_field_lookup_at(fm, i as int, name@);
            }
            return Some(fields[i].value.clone());
        }
        assert(fm[i as int].0 != name@);
        i = i + 1;
    }
    proof {
        lemma_field_lookup_none(fm, name@);
    }
    None
}

proof fn lemma_field_lookup_at(fs: Seq<(Seq<char>, Seq<char>)>, i: int, name: Seq<char>)
    requires
        0 <= i < fs.len(),
        fs[i].0 == name,
        forall|j: int| 0 <= j < i ==> (#[trigger] fs[j]).0 != name,
    ensures
        field_lookup(fs, name) == Some(fs[i].1),
    decreases i,
{
    if i > 0 {
        assert(forall|j: int|
            0 <= j < i - 1 ==> (#[trigger] fs.drop_first()[j]) == fs[j + 1]);
        lemma_field_lookup_at(fs.drop_first(), i - 1, name);
    }
}

proof fn lemma_field_lookup_none(fs: Seq<(Seq<char>, Seq<char>)>, name: Seq<char>)
    requires
        forall|j: int| 0 <= j < fs.len() ==> (#[trigger] fs[j]).0 != name,
    ensures
        field_lookup(fs, name) is None,
    decreases fs.len(),
{
    if fs.len() > 0 {
        lemma_field_lookup_none(fs.drop_first(), name);
    }
}

/// Resolve a teacher by course name through the positional pairs.
fn teacher_map_get_exec(fields: &Vec<JsonField>, name: &String, i: u32) -> (r: Option<String>)
    requires
        i <= 99,
    ensures
        match teacher_map_get(json_field_models(fields@), name@, i as int) {
            Some(t) => r matches Some(u) && u@ == t,
            None => r is None,
        },
    decreases i,
{
    if i < 1 {
        return None;
    }
    let nk = indexed_key_exec("kcmc", i);
    let tk = indexed_key_exec("skjs", i);
    let n = field_lookup_exec(fields, &nk);
    let t = field_lookup_exec(fields, &tk);
    match (n, t) {
        (Some(nv), Some(tv)) => {
            if nv == *name {
                Some(tv)
            } else {
                teacher_map_get_exec(fields, name, i - 1)
            }
        },
        _ => teacher_map_get_exec(fields, name, i - 1),
    }
}

/// One timetable row from the string fields of a JSON object: day cells
/// `kc1` to `kc7`, each section's teacher resolved through the positional
/// `kcmc`/`skjs` pairs and joined with `,/`.
pub fn row_courses_from_fields(fields: &Vec<JsonField>) -> (r: Vec<RawCourse>)
    ensures
        r@.map_values(|c: RawCourse| c@) == row_courses_of(json_field_models(fields@)),
{
    let ghost fm = json_field_models(fields@);
    let ghost target = row_courses_of(fm);
    let mut out: Vec<RawCourse> = Vec::new();
    let mut i: u32 = 1;
    while i <= 7
        invariant
            1 <= i <= 8,
            fm == json_field_models(fields@),
            target == row_courses_of(fm),
            out@.len() == i - 1,
            forall|j: int| 0 <= j < i - 1 ==> (#[trigger] out@[j])@ == target[j],
        decreases 8 - i,
    {
        let key = indexed_key_exec("kc", i);
        let text: String = match field_lookup_exec(fields, &key) {
            Some(v) => v,
            None => String::new(),
        };
        let tchars = to_chars(text.as_str());
        let secs = split_chars_exec(&tchars, '/');
        let ghost sdv = secs.deep_view();
        proof {
            assert(sdv == split_chars(text@, '/'));
        }
        let ghost ts = sdv.map_values(|sec: Seq<char>| section_teacher(fm, sec));
        let mut teacher = String::new();
        let mut s: usize = 0;
        proof {
            assert(ts.take(0) =~~= Seq::<Seq<char>>::empty());
        }
        while s < secs.len()
            invariant
                s <= secs@.len(),
                fm == json_field_models(fields@),
                sdv == secs.deep_view(),
                sdv.len() == secs@.len(),
                forall|j: int| 0 <= j < secs@.len() ==> #[trigger] sdv[j] == secs@[j]@,
                ts == sdv.map_values(|sec: Seq<char>| section_teacher(fm, sec)),
                ts.len() == secs@.len(),
                teacher@ == join_teachers(ts.take(s as int)),
            decreases secs@.len() - s,
        {
            let sec_chars = &secs[s];
            let first_tok = first_token_exec(sec_chars);
            let t: String = match teacher_map_get_exec(fields, &first_tok, 20) {
                Some(t) => t,
                None => String::new(),
            };
            proof {
                assert(first_tok@ == first_token(sdv[s as int]));
                assert(t@ == section_teacher(fm, sdv[s as int]));
                assert(ts[s as int] == t@);
            }
            if s == 0 {
                teacher = t;
                proof {
                    assert(ts.take(1) =~~= seq![ts[0]]);
                }
            } else if t.as_str().is_empty() {
                proof {
                    assert(ts.take(s + 1).drop_last() =~~= ts.take(s as int));
                    assert(ts.take(s + 1).last() == ts[s as int]);
                }
            } else {
                teacher.append(",/");
                teacher.append(t.as_str());
                proof {
                    assert(ts.take(s + 1).drop_last() =~~= ts.take(s as int));
                    assert(ts.take(s + 1).last() == ts[s as int]);
                }
            }
            s = s + 1;
        }
        proof {
            assert(ts.take(ts.len() as int) =~~= ts);
        }
        let cell = RawCourse { course: text, teacher };
        proof {
            assert(cell@ == target[i - 1]);
        }
        out.push(cell);
        i = i + 1;
    }
    proof {
        assert(out@.map_values(|c: RawCourse| c@) =~~= target);
    }
    out
}

/// The first space-separated piece of a text.
fn first_token_exec(v: &Vec<char>) -> (r: String)
    ensures
        r@ == first_token(v@),
{
    let parts = split_chars_exec(v, ' ');
    proof {
        lemma_split_nonempty(v@, ' ');
        assert(parts.deep_view()[0] == parts@[0]@);
    }
    from_chars(&parts[0])
}

proof fn lemma_split_nonempty(s: Seq<char>, sep: char)
    ensures
        split_chars(s, sep).len() >= 1,
{
    lemma_split_acc_nonempty(s, sep, Seq::empty());
}

proof fn lemma_split_acc_nonempty(s: Seq<char>, sep: char, cur: Seq<char>)
    ensures
        crate::strutil::split_acc(s, sep, cur).len() >= 1,
    decreases s.len(),
{
    if s.len() > 0 {
        if s[0] == sep {
        } else {
            lemma_split_acc_nonempty(s.drop_first(), sep, cur.push(s[0]));
        }
    }
}

/// One timetable row straight from a JSON document, or a protocol violation
/// where the text is not a JSON object.
pub fn row_courses_from_json(s: &str) -> (r: Result<Vec<RawCourse>, LoginError>)
    ensures
        match json_string_fields_of(s@) {
            Some(fs) => r matches Ok(row) && row@.map_values(|c: RawCourse| c@)
                == row_courses_of(fs),
            None => r == Result::<Vec<RawCourse>, LoginError>::Err(LoginError::ProtocolViolation),
        },
{
    match json_string_fields(s) {
        Some(fields) => Ok(row_courses_from_fields(&fields)),
        None => Err(LoginError::ProtocolViolation),
    }
}

/// One scraped table row: the inner text of its `td > font` cells and of
/// its plain `td` cells, both untrimmed and in document order.
pub struct RowCells {
    pub font_cells: Vec<String>,
    pub td_cells: Vec<String>,
}

/// The models of one scraped row.
pub open spec fn row_cells_model(r: &RowCells) -> (Seq<Seq<char>>, Seq<Seq<char>>) {
    (
        r.font_cells@.map_values(|s: String| s@),
        r.td_cells@.map_values(|s: String| s@),
    )
}

/// The models of a list of scraped rows.
pub open spec fn row_models(rows: Seq<RowCells>) -> Seq<(Seq<Seq<char>>, Seq<Seq<char>>)> {
    rows.map_values(
        |r: RowCells|
            (
                r.font_cells@.map_values(|s: String| s@),
                r.td_cells@.map_values(|s: String| s@),
            ),
    )
}

/// The item rows of the table with the given id in an HTML document, each
/// row's `td > font` and `td` cell texts; `None` when the table is absent.
pub uninterp spec fn table_rows_of(html: Seq<char>, table_id: Seq<char>) -> Option<
    Seq<(Seq<Seq<char>>, Seq<Seq<char>>)>,
>;

/// Relies on `scraper`: selects `table[id=<table_id>]`, takes its
/// `tr[class="dg1-item"]` rows, and for each row collects the inner HTML of
/// its `td > font` cells and of its `td` cells, in document order.
#[verifier::external_body]
pub(crate) fn table_rows(html: &str, table_id: &str) -> (r: Option<Vec<RowCells>>)
    ensures
        match table_rows_of(html@, table_id@) {
            Some(rs) => r matches Some(v) && row_models(v@) == rs,
            None => r is None,
        },
{
    let dom = scraper::Html::parse_document(html);
    let table_sel = scraper::Selector::parse(&format!(r#"table[id="{}"]"#, table_id)).ok()?;
    let row_sel = scraper::Selector::parse(r#"tr[class="dg1-item"]"#).unwrap();
    let font_sel = scraper::Selector::parse("td > font").unwrap();
    let td_sel = scraper::Selector::parse("td").unwrap();
    let table = dom.select(&table_sel).next()?;
    let mut out: Vec<RowCells> = Vec::new();
    for row in table.select(&row_sel) {
        out.push(RowCells {
            font_cells: row.select(&font_sel).map(|c| c.inner_html()).collect(),
            td_cells: row.select(&td_sel).map(|c| c.inner_html()).collect(),
        });
    }
    Some(out)
}

/// The cell list a row contributes: its `td > font` cells when it has any,
/// else its plain `td` cells.
pub open spec fn chosen_cells(r: (Seq<Seq<char>>, Seq<Seq<char>>)) -> Seq<Seq<char>> {
    if r.0.len() > 0 {
        r.0
    } else {
        r.1
    }
}

/// Every teacher row carries at least the six cells the lookup reads.
pub open spec fn teacher_rows_wf(rows: Seq<(Seq<Seq<char>>, Seq<Seq<char>>)>) -> bool {
    forall|i: int| 0 <= i < rows.len() ==> chosen_cells(#[trigger] rows[i]).len() >= 6
}

/// Every course row carries at least the leading cell that is dropped.
pub open spec fn course_rows_wf(rows: Seq<(Seq<Seq<char>>, Seq<Seq<char>>)>) -> bool {
    forall|i: int| 0 <= i < rows.len() ==> chosen_cells(#[trigger] rows[i]).len() >= 1
}

/// The teacher of a course name: teacher rows map their second cell to
/// their sixth, both trimmed, later rows shadowing earlier ones.
pub open spec fn jwcas_teacher_get(
    rows: Seq<(Seq<Seq<char>>, Seq<Seq<char>>)>,
    name: Seq<char>,
) -> Option<Seq<char>>
    decreases rows.len(),
{
    if rows.len() == 0 {
        None
    } else {
        let c = chosen_cells(rows.last());
        if trim_spec(c[1]) == name {
            Some(trim_spec(c[5]))
        } else {
            jwcas_teacher_get(rows.drop_last(), name)
        }
    }
}

/// One raw cell of the scraped timetable: the cell text, with the teacher
/// resolved by the text's first space-separated piece.
pub open spec fn jwcas_cell(
    text: Seq<char>,
    teacher_rows: Seq<(Seq<Seq<char>>, Seq<Seq<char>>)>,
) -> RawModel {
    let teacher = match jwcas_teacher_get(teacher_rows, first_token(text)) {
        Some(t) => t,
        None => Seq::empty(),
    };
    RawModel { course: text, teacher }
}

/// One matrix row: the row's chosen cells with the leading cell dropped.
pub open spec fn jwcas_row(
    course_row: (Seq<Seq<char>>, Seq<Seq<char>>),
    teacher_rows: Seq<(Seq<Seq<char>>, Seq<Seq<char>>)>,
) -> Seq<RawModel> {
    chosen_cells(course_row).drop_first().map_values(
        |text: Seq<char>| jwcas_cell(text, teacher_rows),
    )
}

/// The whole scraped matrix, row-major by period.
pub open spec fn jwcas_matrix(
    course_rows: Seq<(Seq<Seq<char>>, Seq<Seq<char>>)>,
    teacher_rows: Seq<(Seq<Seq<char>>, Seq<Seq<char>>)>,
) -> Seq<Seq<RawModel>> {
    course_rows.map_values(|r: (Seq<Seq<char>>, Seq<Seq<char>>)| jwcas_row(r, teacher_rows))
}

/// The chosen cells of one scraped row, as owned strings.
fn chosen_cells_exec(r: &RowCells) -> (out: Vec<String>)
    ensures
        out@.map_values(|s: String| s@) == chosen_cells(row_cells_model(r)),
{
    let src: &Vec<String> = if r.font_cells.len() > 0 {
        &r.font_cells
    } else {
        &r.td_cells
    };
    let mut out: Vec<String> = Vec::new();
    let mut i: usize = 0;
    while i < src.len()
        invariant
            i <= src@.len(),
            out@.len() == i,
            forall|j: int| 0 <= j < i ==> (#[trigger] out@[j])@ == src@[j]@,
        decreases src@.len() - i,
    {
        out.push(src[i].clone());
        i = i + 1;
    }
    proof {
        assert(out@.map_values(|s: String| s@) =~~= src@.map_values(|s: String| s@));
    }
    out
}

/// Resolve a teacher name against the scraped teacher rows.
fn jwcas_teacher_get_exec(rows: &Vec<RowCells>, name: &String, upto: usize) -> (r: Option<String>)
    requires
        upto <= rows@.len(),
        teacher_rows_wf(row_models(rows@)),
    ensures
        ({
            let rm = row_models(rows@).take(upto as int);
            match jwcas_teacher_get(rm, name@) {
                Some(t) => r matches Some(u) && u@ == t,
                None => r is None,
            }
        }),
    decreases upto,
{
    let ghost rm = row_models(rows@).take(upto as int);
    if upto == 0 {
        return None;
    }
    let cells = chosen_cells_exec(&rows[upto - 1]);
    proof {
        assert(rm.last() == row_models(rows@)[upto - 1]);
        assert(chosen_cells(rm.last()) == cells@.map_values(|s: String| s@));
        assert(chosen_cells(row_models(rows@)[upto - 1]).len() >= 6);
    }
    let second = from_chars(&trim_chars(&to_chars(cells[1].as_str())));
    proof {
        assert(second@ == trim_spec(chosen_cells(rm.last())[1]));
    }
    if second == *name {
        let sixth = from_chars(&trim_chars(&to_chars(cells[5].as_str())));
        proof {
            assert(sixth@ == trim_spec(chosen_cells(rm.last())[5]));
        }
        Some(sixth)
    } else {
        let r = jwcas_teacher_get_exec(rows, name, upto - 1);
        proof {
            assert(rm.drop_last() =~~= row_models(rows@).take(upto - 1));
        }
        r
    }
}

/// Assemble the raw matrix from scraped course and teacher rows.
pub fn build_raw_matrix(course_rows: &Vec<RowCells>, teacher_rows: &Vec<RowCells>) -> (r: Vec<
    Vec<RawCourse>,
>)
    requires
        teacher_rows_wf(row_models(teacher_rows@)),
        course_rows_wf(row_models(course_rows@)),
    ensures
        crate::timetable::matrix_models(r@) == jwcas_matrix(
            row_models(course_rows@),
            row_models(teacher_rows@),
        ),
{
    let ghost cm = row_models(course_rows@);
    let ghost tm = row_models(teacher_rows@);
    let ghost target = jwcas_matrix(cm, tm);
    let mut out: Vec<Vec<RawCourse>> = Vec::new();
    let n = course_rows.len();
    let mut i: usize = 0;
    while i < n
        invariant
            i <= n,
            n == course_rows@.len(),
            cm == row_models(course_rows@),
            tm == row_models(teacher_rows@),
            teacher_rows_wf(tm),
            course_rows_wf(cm),
            cm.len() == n,
            target == jwcas_matrix(cm, tm),
            target.len() == n,
            out@.len() == i,
            forall|j: int|
                0 <= j < i ==> (#[trigger] out@[j])@.map_values(|c: RawCourse| c@) == target[j],
        decreases n - i,
    {
        let cells = chosen_cells_exec(&course_rows[i]);
        let ghost cc = chosen_cells(cm[i as int]);
        proof {
            assert(row_cells_model(&course_rows@[i as int]) == cm[i as int]);
            assert(cells@.map_values(|s: String| s@) == cc);
            assert(cc.len() >= 1);
        }
        let mut row: Vec<RawCourse> = Vec::new();
        let mut x: usize = 1;
        while x < cells.len()
            invariant
                1 <= x <= cells@.len(),
                cm == row_models(course_rows@),
                tm == row_models(teacher_rows@),
                teacher_rows_wf(tm),
                cc == cells@.map_values(|s: String| s@),
                cc.len() == cells@.len(),
                i < cm.len(),
                cc == chosen_cells(cm[i as int]),
                row@.len() == x - 1,
                forall|j: int|
                    0 <= j < x - 1 ==> (#[trigger] row@[j])@ == jwcas_cell(cc[j + 1], tm),
            decreases cells@.len() - x,
        {
            let text = cells[x].clone();
            let ftok = first_token_exec(&to_chars(text.as_str()));
            let teacher: String = match jwcas_teacher_get_exec(
                teacher_rows,
                &ftok,
                teacher_rows.len(),
            ) {
                Some(t) => t,
                None => String::new(),
            };
            proof {
                assert(tm.take(tm.len() as int) =~~= tm);
                assert(ftok@ == first_token(cc[x as int]));
            }
            let cell = RawCourse { course: text, teacher };
            proof {
                assert(cell@ == jwcas_cell(cc[x as int], tm));
            }
            row.push(cell);
            x = x + 1;
        }
        proof {
            assert(row@.map_values(|c: RawCourse| c@) =~~= jwcas_row(cm[i as int], tm)) by {
                assert(forall|j: int|
                    0 <= j < cc.len() - 1 ==> #[trigger] cc.drop_first()[j] == cc[j + 1]);
            }
        }
        out.push(row);
        i = i + 1;
    }
    proof {
        assert(crate::timetable::matrix_models(out@) =~~= target);
    }
    out
}

/// The scraped timetable of a portal page: the course table's rows funneled
/// into the raw matrix, with teachers resolved from the companion table.
/// A page without both tables, or with rows narrower than the lookups read,
/// is a protocol violation.
pub fn classinfo_matrix_from_html(html: &str) -> (r: Result<Vec<Vec<RawCourse>>, LoginError>)
    ensures
        ({
            let tr = table_rows_of(html@, "GVxkall"@);
            let cr = table_rows_of(html@, "GVxkkb"@);
            match r {
                Ok(m) => {
                    &&& tr is Some
                    &&& cr is Some
                    &&& teacher_rows_wf(tr->Some_0)
                    &&& course_rows_wf(cr->Some_0)
                    &&& crate::timetable::matrix_models(m@) == jwcas_matrix(
                        cr->Some_0,
                        tr->Some_0,
                    )
                },
                Err(e) => e == LoginError::ProtocolViolation && (tr is None || cr is None
                    || !teacher_rows_wf(tr->Some_0) || !course_rows_wf(cr->Some_0)),
            }
        }),
{
    let teacher_rows = match table_rows(html, "GVxkall") {
        Some(rs) => rs,
        None => {
            return Err(LoginError::ProtocolViolation);
        },
    };
    let course_rows = match table_rows(html, "GVxkkb") {
        Some(rs) => rs,
        None => {
            return Err(LoginError::ProtocolViolation);
        },
    };
    let mut i: usize = 0;
    while i < teacher_rows.len()
        invariant
            i <= teacher_rows@.len(),
            table_rows_of(html@, "GVxkall"@) == Some(row_models(teacher_rows@)),
            forall|j: int|
                0 <= j < i ==> chosen_cells(#[trigger] row_models(teacher_rows@)[j]).len() >= 6,
        decreases teacher_rows@.len() - i,
    {
        let cells = chosen_cells_exec(&teacher_rows[i]);
        if cells.len() < 6 {
            proof {
                assert(chosen_cells(row_models(teacher_rows@)[i as int]).len() < 6);
            }
            return Err(LoginError::ProtocolViolation);
        }
        proof {
            assert(chosen_cells(row_models(teacher_rows@)[i as int]).len() >= 6);
        }
        i = i + 1;
    }
    let mut k: usize = 0;
    while k < course_rows.len()
        invariant
            k <= course_rows@.len(),
            table_rows_of(html@, "GVxkall"@) == Some(row_models(teacher_rows@)),
            table_rows_of(html@, "GVxkkb"@) == Some(row_models(course_rows@)),
            teacher_rows_wf(row_models(teacher_rows@)),
            forall|j: int|
                0 <= j < k ==> chosen_cells(#[trigger] row_models(course_rows@)[j]).len() >= 1,
        decreases course_rows@.len() - k,
    {
        let cells = chosen_cells_exec(&course_rows[k]);
        if cells.len() < 1 {
            proof {
                assert(chosen_cells(row_models(course_rows@)[k as int]).len() < 1);
            }
            return Err(LoginError::ProtocolViolation);
        }
        proof {
            assert(chosen_cells(row_models(course_rows@)[k as int]).len() >= 1);
        }
        k = k + 1;
    }
    Ok(build_raw_matrix(&course_rows, &teacher_rows))
}

} // verus!
