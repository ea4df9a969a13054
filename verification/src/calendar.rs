//! The course model of the schedule extraction engine: the per-period time
//! table, raw cells, parsed courses, and the week-by-week expansion of a
//! course into concrete calendar dates.

use vstd::prelude::*;
use crate::dates::{
    add_days, date8, date8_exec, date8_value, date8_wf, date_plus, date_wf, mrank, parse_date8, Date,
};
use crate::ical::{uuid_v3_of, uuid_v3_string};
use crate::strutil::{
    dec_of, dec_of_exec, dec_val, digits_wf, from_chars, parse_small_u32,
    split_chars, split_chars_exec, to_chars,
};

verus! {

/// The wall-clock window of one period: times are `hhmm` strings.
#[derive(Debug)]
pub struct ScheduleElement {
    pub name: String,
    pub start_time: String,
    pub end_time: String,
}

/// The mathematical image of one schedule element.
pub struct ElemModel {
    pub name: Seq<char>,
    pub start_time: Seq<char>,
    pub end_time: Seq<char>,
}

impl View for ScheduleElement {
    type V = ElemModel;

    open spec fn view(&self) -> ElemModel {
        ElemModel { name: self.name@, start_time: self.start_time@, end_time: self.end_time@ }
    }
}

impl ScheduleElement {
    /// Copy of this element.
    pub fn duplicate(&self) -> (r: ScheduleElement)
        ensures
            r@ == self@,
    {
        ScheduleElement {
            name: self.name.clone(),
            start_time: self.start_time.clone(),
            end_time: self.end_time.clone(),
        }
    }
}

/// The lookup table from period index (1-based) to its time window.
#[derive(Debug)]
pub struct Schedule {
    pub classtime: Vec<ScheduleElement>,
}

/// The models of a sequence of schedule elements.
pub open spec fn elem_models(s: Seq<ScheduleElement>) -> Seq<ElemModel> {
    s.map_values(|e: ScheduleElement| e@)
}

/// The elements whose name differs from every name in `names`.
pub open spec fn elems_without(s: Seq<ElemModel>, names: Seq<Seq<char>>) -> Seq<ElemModel>
    decreases s.len(),
{
    if s.len() == 0 {
        Seq::empty()
    } else {
        let rest = elems_without(s.drop_first(), names);
        if names.contains(s.first().name) {
            rest
        } else {
            seq![s.first()] + rest
        }
    }
}

impl View for Schedule {
    type V = Seq<ElemModel>;

    open spec fn view(&self) -> Seq<ElemModel> {
        elem_models(self.classtime@)
    }
}

impl Schedule {
    /// The schedule with one period's window replaced (matched by name) or
    /// appended; every other element is kept in order.
    pub fn copy_with(&self, element: ScheduleElement) -> (r: Schedule)
        ensures
            r@ == elems_without(self@, seq![element@.name]) + seq![element@],
    {
        let names = vec![element.name.clone()];
        proof {
            assert(names_seq(names@) =~= seq![element@.name]);
        }
        let mut out = self.without_names_exec(&names);
        let ghost before = elem_models(out@);
        out.push(element);
        proof {
            assert(elem_models(out@) =~= before + seq![out@.last()@]);
        }
        Schedule { classtime: out }
    }

    /// The schedule with several periods' windows replaced or appended.
    pub fn copy_withs(&self, elements: Vec<ScheduleElement>) -> (r: Schedule)
        ensures
            r@ == elems_without(self@, names_of(elem_models(elements@))) + elem_models(elements@),
    {
        let mut names: Vec<String> = Vec::new();
        let mut i: usize = 0;
        while i < elements.len()
            invariant
                i <= elements@.len(),
                names@.len() == i,
                forall|j: int| 0 <= j < i ==> (#[trigger] names@[j])@ == elements@[j]@.name,
            decreases elements@.len() - i,
        {
            names.push(elements[i].name.clone());
            i = i + 1;
        }
        proof {
            assert(names_seq(names@) =~= names_of(elem_models(elements@)));
        }
        let mut out = self.without_names_exec(&names);
        let ghost before = elem_models(out@);
        let ghost em = elem_models(elements@);
        let mut k: usize = 0;
        while k < elements.len()
            invariant
                k <= elements@.len(),
                em == elem_models(elements@),
                em.len() == elements@.len(),
                elem_models(out@) == before + em.take(k as int),
            decreases elements@.len() - k,
        {
            let ghost om = elem_models(out@);
            let e = elements[k].duplicate();
            out.push(e);
            k = k + 1;
            proof {
                assert(elem_models(out@) =~= om.push(em[k - 1]));
                assert(em.take(k as int) =~= em.take(k - 1).push(em[k - 1]));
            }
        }
        proof {
            assert(em.take(em.len() as int) =~= em);
        }
        Schedule { classtime: out }
    }

    /// In-place form of `copy_with`.
    pub fn copy_with_mut(&mut self, element: ScheduleElement)
        ensures
            final(self)@ == elems_without(old(self)@, seq![element@.name]) + seq![element@],
    {
        let r = self.copy_with(element);
        self.classtime = r.classtime;
    }

    /// In-place form of `copy_withs`.
    pub fn copy_withs_mut(&mut self, elements: Vec<ScheduleElement>)
        ensures
            final(self)@ == elems_without(old(self)@, names_of(elem_models(elements@)))
                + elem_models(elements@),
    {
        let r = self.copy_withs(elements);
        self.classtime = r.classtime;
    }

    /// The elements whose name is not in the given list, in order.
    fn without_names_exec(&self, names: &Vec<String>) -> (r: Vec<ScheduleElement>)
        ensures
            elem_models(r@) == elems_without(self@, names_seq(names@)),
    {
        let ghost sm = self@;
        let ghost ns = names_seq(names@);
        let mut out: Vec<ScheduleElement> = Vec::new();
        let mut i: usize = 0;
        proof {
            assert(sm.skip(0) =~= sm);
            assert(elem_models(out@) + elems_without(sm, ns) =~= elems_without(sm, ns));
        }
        while i < self.classtime.len()
            invariant
                i <= self.classtime@.len(),
                sm == self@,
                ns == names_seq(names@),
                sm.len() == self.classtime@.len(),
                elems_without(sm, ns) == elem_models(out@) + elems_without(sm.skip(i as int), ns),
            decreases self.classtime@.len() - i,
        {
            let ghost pre = sm.skip(i as int);
            assert(pre[0] == sm[i as int]);
            assert(pre.drop_first() =~= sm.skip(i + 1));
            if !contains_string(names, &self.classtime[i].name) {
                assert(!ns.contains(pre.first().name));
                let ghost om = elem_models(out@);
                let e = self.classtime[i].duplicate();
                let ghost em = e@;
                out.push(e);
                proof {
                    assert(elem_models(out@) =~= om.push(em));
                    assert(elem_models(out@) + elems_without(sm.skip(i + 1), ns) =~= om + (
                    seq![em] + elems_without(sm.skip(i + 1), ns)));
                }
            } else {
                assert(ns.contains(pre.first().name));
            }
            i = i + 1;
        }
        assert(sm.skip(sm.len() as int) =~= Seq::<ElemModel>::empty());
        assert(elem_models(out@) + elems_without(Seq::empty(), ns) =~= elem_models(out@));
        out
    }
}

/// The views of a list of strings.
pub open spec fn names_seq(s: Seq<String>) -> Seq<Seq<char>> {
    s.map_values(|n: String| n@)
}

/// The names of a list of schedule elements.
pub open spec fn names_of(s: Seq<ElemModel>) -> Seq<Seq<char>> {
    s.map_values(|e: ElemModel| e.name)
}

/// Whether a weekly class occurs every week, or only the odd or only the
/// even weeks of the term.
#[derive(Clone, Copy, Debug, PartialEq, Eq, Structural)]
pub enum OddOrEven {
    Odd,
    Even,
    Each,
}

/// One timetable cell before parsing: the course text (zero or more
/// slash-separated sections) and the teacher text.
#[derive(Debug)]
pub struct RawCourse {
    pub course: String,
    pub teacher: String,
}

/// The mathematical image of one raw cell.
pub struct RawModel {
    pub course: Seq<char>,
    pub teacher: Seq<char>,
}

impl View for RawCourse {
    type V = RawModel;

    open spec fn view(&self) -> RawModel {
        RawModel { course: self.course@, teacher: self.teacher@ }
    }
}

/// One normalized course meeting.
#[derive(Debug)]
pub struct ParsedCourse {
    pub name: String,
    pub odd_or_even: OddOrEven,
    pub day: usize,
    pub week: Vec<String>,
    pub classtime: Vec<usize>,
    pub classroom: String,
    pub daylist: Vec<String>,
    pub teacher: String,
}

/// The mathematical image of one parsed course.
#[verifier::ext_equal]
pub struct CourseModel {
    pub name: Seq<char>,
    pub odd_or_even: OddOrEven,
    pub day: int,
    pub week: Seq<Seq<char>>,
    pub classtime: Seq<int>,
    pub classroom: Seq<char>,
    pub daylist: Seq<Seq<char>>,
    pub teacher: Seq<char>,
}

impl View for ParsedCourse {
    type V = CourseModel;

    open spec fn view(&self) -> CourseModel {
        CourseModel {
            name: self.name@,
            odd_or_even: self.odd_or_even,
            day: self.day as int,
            week: self.week@.map_values(|w: String| w@),
            classtime: self.classtime@.map_values(|t: usize| t as int),
            classroom: self.classroom@,
            daylist: self.daylist@.map_values(|d: String| d@),
            teacher: self.teacher@,
        }
    }
}

impl ParsedCourse {
    /// A new course meeting with no expanded dates yet.
    pub fn new(
        name: String,
        oe: OddOrEven,
        day: usize,
        week: Vec<String>,
        classtime: Vec<usize>,
        classroom: String,
        teacher: String,
    ) -> (r: ParsedCourse)
        ensures
            r@ == (CourseModel {
                name: name@,
                odd_or_even: oe,
                day: day as int,
                week: week@.map_values(|w: String| w@),
                classtime: classtime@.map_values(|t: usize| t as int),
                classroom: classroom@,
                daylist: Seq::empty(),
                teacher: teacher@,
            }),
    {
        let r = ParsedCourse {
            name,
            odd_or_even: oe,
            day,
            week,
            classtime,
            classroom,
            teacher,
            daylist: Vec::new(),
        };
        proof {
            assert(r@.daylist =~= Seq::<Seq<char>>::empty());
        }
        r
    }

    /// Append one period index.
    pub fn add_classtime(&mut self, value: usize)
        ensures
            final(self)@ == (CourseModel {
                classtime: old(self)@.classtime.push(value as int),
                ..old(self)@
            }),
    {
        self.classtime.push(value);
        proof {
            assert(self@.classtime =~= old(self)@.classtime.push(value as int));
            assert(self@.week =~= old(self)@.week);
            assert(self@.daylist =~= old(self)@.daylist);
        }
    }

    /// Append one week-range string.
    pub fn add_week(&mut self, value: String)
        ensures
            final(self)@ == (CourseModel { week: old(self)@.week.push(value@), ..old(self)@ }),
    {
        let ghost v = value@;
        self.week.push(value);
        proof {
            assert(self@.week =~= old(self)@.week.push(v));
            assert(self@.classtime =~= old(self)@.classtime);
            assert(self@.daylist =~= old(self)@.daylist);
        }
    }

    /// Take over the week ranges of another record for the same meeting,
    /// skipping ranges already present.
    pub fn merge(&mut self, rhs: &ParsedCourse)
        ensures
            final(self)@ == (CourseModel {
                week: merge_weeks(old(self)@.week, rhs@.week),
                ..old(self)@
            }),
    {
        let ghost rw = rhs@.week;
        let n = rhs.week.len();
        let mut i: usize = 0;
        proof {
            assert(rw.skip(0) =~= rw);
        }
        while i < n
            invariant
                i <= n,
                n == rhs.week@.len(),
                rw == rhs@.week,
                rw.len() == n,
                self.odd_or_even == old(self).odd_or_even,
                self.day == old(self).day,
                self.name == old(self).name,
                self.classroom == old(self).classroom,
                self.teacher == old(self).teacher,
                self.classtime == old(self).classtime,
                self.daylist == old(self).daylist,
                merge_weeks(old(self)@.week, rw) == merge_weeks(self@.week, rw.skip(i as int)),
            decreases n - i,
        {
            let ghost pre = rw.skip(i as int);
            assert(pre[0] == rw[i as int]);
            assert(pre.drop_first() =~= rw.skip(i + 1));
            assert(rw[i as int] == rhs.week@[i as int]@);
            if !contains_string(&self.week, &rhs.week[i]) {
                assert(!names_seq(self.week@).contains(pre.first()));
                assert(!self@.week.contains(pre.first())) by {
                    assert(self@.week =~= names_seq(self.week@));
                }
                let ghost before = self@.week;
                self.week.push(rhs.week[i].clone());
                proof {
                    assert(self@.week =~= before.push(rw[i as int]));
                    assert(self@.classtime =~= old(self)@.classtime);
                    assert(self@.daylist =~= old(self)@.daylist);
                }
            } else {
                assert(names_seq(self.week@).contains(pre.first()));
                assert(self@.week.contains(pre.first())) by {
                    assert(self@.week =~= names_seq(self.week@));
                }
            }
            i = i + 1;
        }
        assert(rw.skip(n as int) =~= Seq::<Seq<char>>::empty());
        proof {
            assert(self@ =~~= (CourseModel {
                week: merge_weeks(old(self)@.week, rhs@.week),
                ..old(self)@
            }));
        }
    }
}

/// A well-formed week range: at least two dash-separated pieces, the first
/// two small decimal numbers between 1 and 1000.
pub open spec fn week_range_wf(w: Seq<char>) -> bool {
    let ps = split_chars(w, '-');
    &&& ps.len() >= 2
    &&& digits_wf(ps[0])
    &&& digits_wf(ps[1])
    &&& 1 <= dec_val(ps[0]) <= 1000
    &&& 1 <= dec_val(ps[1]) <= 1000
}

/// Whether a class with this parity meets in week `w`.
pub open spec fn parity_keeps(p: OddOrEven, w: int) -> bool {
    p is Each || (p is Odd && w % 2 == 1) || (p is Even && w % 2 == 0)
}

/// How many weeks a range covers; a backwards range still covers its first
/// week, since expansion always looks at the start week once.
pub open spec fn range_count(s: int, e: int) -> nat {
    if e < s {
        1nat
    } else {
        (e - s + 1) as nat
    }
}

/// The dates (as `yyyymmdd` strings) of the meetings in weeks `w`,
/// `w + 1`, ... (`rem` many), on the course's weekday, keeping only the
/// weeks the parity admits. Week 1, day 1 is the term start itself.
pub open spec fn range_dates(p: OddOrEven, day: int, w: int, rem: nat, start: Date) -> Seq<
    Seq<char>,
>
    decreases rem,
{
    if rem == 0 {
        Seq::empty()
    } else {
        let rest = range_dates(p, day, w + 1, (rem - 1) as nat, start);
        if parity_keeps(p, w) {
            seq![date8(date_plus(start, ((w - 1) * 7 + day - 1) as nat))] + rest
        } else {
            rest
        }
    }
}

/// All dates of a course: each week range expanded in order.
pub open spec fn expand_ranges(
    p: OddOrEven,
    day: int,
    weeks: Seq<Seq<char>>,
    start: Date,
) -> Seq<Seq<char>>
    decreases weeks.len(),
{
    if weeks.len() == 0 {
        Seq::empty()
    } else {
        let ps = split_chars(weeks.first(), '-');
        let s = dec_val(ps[0]);
        let e = dec_val(ps[1]);
        range_dates(p, day, s, range_count(s, e), start) + expand_ranges(
            p,
            day,
            weeks.drop_first(),
            start,
        )
    }
}

/// What date expansion needs of a course and a term start string: the start
/// is an eight-digit date early enough to print every expanded date with a
/// four-digit year, the weekday is real, and every week range is well
/// formed.
pub open spec fn course_expand_wf(c: CourseModel, start: Seq<char>) -> bool {
    &&& date8_wf(start)
    &&& date8_value(start).year <= 9300
    &&& 1 <= c.day <= 7
    &&& forall|k: int| 0 <= k < c.week.len() ==> week_range_wf(#[trigger] c.week[k])
}

impl ParsedCourse {
    /// Expand the course's week ranges into concrete dates, walking each
    /// range week by week from its start to its end (at least one week) and
    /// keeping the weeks the parity admits. The dates are appended to the
    /// expanded-date list in range order.
    pub fn with_startdate(&mut self, start_date: &str)
        requires
            course_expand_wf(old(self)@, start_date@),
        ensures
            final(self)@ == (CourseModel {
                daylist: old(self)@.daylist + expand_ranges(
                    old(self)@.odd_or_even,
                    old(self)@.day,
                    old(self)@.week,
                    date8_value(start_date@),
                ),
                ..old(self)@
            }),
    {
        let sd = to_chars(start_date);
        let start: Date = match parse_date8(&sd) {
            Some(d) => d,
            None => {
                proof {
                    assert(false);
                }
                unreached()
            },
        };
        let ghost p = self@.odd_or_even;
        let ghost day = self@.day;
        let ghost wk = self@.week;
        let ghost target = old(self)@.daylist + expand_ranges(p, day, wk, start);
        let n = self.week.len();
        let mut i: usize = 0;
        proof {
            assert(wk.skip(0) =~= wk);
        }
        while i < n
            invariant
                i <= n,
                n == self.week@.len(),
                date_wf(start),
                start.year <= 9300,
                1 <= self.day <= 7,
                p == self@.odd_or_even,
                day == self@.day as int,
                wk == self@.week,
                forall|k: int| 0 <= k < wk.len() ==> week_range_wf(#[trigger] wk[k]),
                self.odd_or_even == old(self).odd_or_even,
                self.day == old(self).day,
                self.name == old(self).name,
                self.classroom == old(self).classroom,
                self.teacher == old(self).teacher,
                self.classtime == old(self).classtime,
                self.week == old(self).week,
                target == self@.daylist + expand_ranges(p, day, wk.skip(i as int), start),
            decreases n - i,
        {
            let ghost pre = wk.skip(i as int);
            assert(pre[0] == wk[i as int]);
            assert(pre.drop_first() =~= wk.skip(i + 1));
            assert(wk[i as int] == self.week@[i as int]@);
            let wci = to_chars(self.week[i].as_str());
            let ps = split_chars_exec(&wci, '-');
            let ghost psm = split_chars(wk[i as int], '-');
            assert(ps.deep_view() == psm && week_range_wf(wk[i as int]));
            assert(ps@[0]@ == psm[0] && ps@[1]@ == psm[1]);
            let s_val: u32 = match parse_small_u32(&ps[0]) {
                Some(v) => v,
                None => {
                    proof {
                        assert(false);
                    }
                    unreached()
                },
            };
            let e_val: u32 = match parse_small_u32(&ps[1]) {
                Some(v) => v,
                None => {
                    proof {
                        assert(false);
                    }
                    unreached()
                },
            };
            assert(1 <= s_val <= 1000 && 1 <= e_val <= 1000);
            let count: u32 = if e_val < s_val {
                1
            } else {
                e_val - s_val + 1
            };
            assert(count == range_count(s_val as int, e_val as int));
            let ghost dl_range = self@.daylist;
            let mut k: u32 = 0;
            while k < count
                invariant
                    k <= count,
                    count == range_count(s_val as int, e_val as int),
                    1 <= s_val <= 1000,
                    s_val + count <= 1001,
                    date_wf(start),
                    start.year <= 9300,
                    1 <= self.day <= 7,
                    p == self@.odd_or_even,
                    day == self@.day as int,
                    wk == self@.week,
                    self.odd_or_even == old(self).odd_or_even,
                    self.day == old(self).day,
                    self.name == old(self).name,
                    self.classroom == old(self).classroom,
                    self.teacher == old(self).teacher,
                    self.classtime == old(self).classtime,
                    self.week == old(self).week,
                    dl_range + range_dates(p, day, s_val as int, count as nat, start)
                        == self@.daylist + range_dates(
                        p,
                        day,
                        s_val + k,
                        (count - k) as nat,
                        start,
                    ),
                decreases count - k,
            {
                let w: u32 = s_val + k;
                let keep: bool = self.odd_or_even == OddOrEven::Each || (self.odd_or_even
                    == OddOrEven::Odd && w % 2 == 1) || (self.odd_or_even == OddOrEven::Even && w
                    % 2 == 0);
                assert(keep == parity_keeps(p, w as int));
                if keep {
                    let offset: u32 = (w - 1) * 7 + (self.day as u32) - 1;
                    assert(offset <= 7006);
                    assert(mrank(start) + offset < 120000);
                    let d = add_days(start, offset);
                    let ds = from_chars(&date8_exec(d));
                    let ghost before = self@.daylist;
                    self.daylist.push(ds);
                    proof {
                        assert(self@.daylist =~= before.push(
                            date8(date_plus(start, offset as nat)),
                        ));
                        assert(self@.week =~= wk);
                        assert(self@.classtime =~= old(self)@.classtime);
                    }
                } else {
                    proof {
                        assert(self@.week =~= wk);
                    }
                }
                k = k + 1;
            }
            proof {
                assert(range_dates(p, day, (s_val + count) as int, 0nat, start)
                    =~= Seq::<Seq<char>>::empty());
                assert(dl_range + range_dates(p, day, s_val as int, count as nat, start)
                    =~= self@.daylist);
            }
            i = i + 1;
        }
        assert(wk.skip(n as int) =~= Seq::<Seq<char>>::empty());
        proof {
            assert(self@ =~~= (CourseModel {
                daylist: old(self)@.daylist + expand_ranges(p, day, wk, start),
                ..old(self)@
            }));
        }
    }
}

/// The code the identity key uses for a parity.
pub open spec fn parity_code(p: OddOrEven) -> Seq<char> {
    match p {
        OddOrEven::Odd => "0"@,
        OddOrEven::Even => "1"@,
        OddOrEven::Each => "2"@,
    }
}

/// The identity key of a course meeting: name, parity, weekday and
/// classroom, dash-separated. Two records with the same key are the same
/// meeting.
pub open spec fn identity_key(c: CourseModel) -> Seq<char> {
    c.name + "-"@ + parity_code(c.odd_or_even) + "-"@ + dec_of(c.day) + "-"@ + c.classroom
}

impl ParsedCourse {
    /// A stable identifier of this meeting: the name-based UUID of its
    /// identity key.
    pub fn identify(&self) -> (r: String)
        ensures
            r@ == uuid_v3_of(identity_key(self@)),
    {
        let mut key = self.name.clone();
        key.append("-");
        key.append(
            match self.odd_or_even {
                OddOrEven::Odd => "0",
                OddOrEven::Even => "1",
                OddOrEven::Each => "2",
            },
        );
        key.append("-");
        let day_digits = from_chars(&dec_of_exec(self.day as u64));
        key.append(day_digits.as_str());
        key.append("-");
        key.append(self.classroom.as_str());
        assert(key@ == identity_key(self@));
        uuid_v3_string(key.as_str())
    }
}

/// The week ranges of `cur` followed by those of `rhs` not yet present, in
/// order, each added only once it is absent.
pub open spec fn merge_weeks(cur: Seq<Seq<char>>, rhs: Seq<Seq<char>>) -> Seq<Seq<char>>
    decreases rhs.len(),
{
    if rhs.len() == 0 {
        cur
    } else {
        let next = if cur.contains(rhs.first()) {
            cur
        } else {
            cur.push(rhs.first())
        };
        merge_weeks(next, rhs.drop_first())
    }
}

/// Whether some string of the list has exactly this text.
pub fn contains_string(v: &Vec<String>, s: &String) -> (r: bool)
    ensures
        r == names_seq(v@).contains(s@),
{
    let n = v.len();
    let mut i: usize = 0;
    while i < n
        invariant
            i <= n,
            n == v@.len(),
            forall|j: int| 0 <= j < i ==> (#[trigger] v@[j])@ != s@,
        decreases n - i,
    {
        if v[i] == *s {
            assert(names_seq(v@)[i as int] == s@);
            return true;
        }
        i = i + 1;
    }
    proof {
        if names_seq(v@).contains(s@) {
            let j = choose|j: int| 0 <= j < v@.len() && names_seq(v@)[j] == s@;
            assert(v@[j]@ == s@);
        }
    }
    false
}

} // verus!
