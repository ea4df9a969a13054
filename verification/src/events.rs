//! Rendering expanded courses into calendar events.
//!
//! Every event's content — summary, location, teacher, week label, date and
//! time window — is computed and specified here on plain values; the opaque
//! iCalendar value is only assembled afterwards, through the trusted
//! builder boundary.

use vstd::prelude::*;
use crate::calendar::{
    course_expand_wf, expand_ranges, parity_keeps, range_count, range_dates, CourseModel,
    ElemModel, OddOrEven, ParsedCourse, Schedule,
};
use crate::dates::{
    add_days, date8, date8_value, date8_wf, date_plus, date_wf, hhmm_wf, lemma_date8_roundtrip,
    lemma_plus_wf, mrank, parse_date8, parse_hhmm, Date,
};
use crate::strutil::{dec_of, dec_of_exec, dec_val, from_chars, join_comma, join_comma_exec, to_chars};
use crate::timetable::CalendarError;

verus! {

/// One calendar event, as plain values.
#[derive(Debug)]
pub struct EventSpec {
    pub summary: String,
    pub location: String,
    pub description: String,
    pub weeks: String,
    pub all_day: bool,
    pub date: Date,
    pub end_date: Date,
    pub start_hour: u32,
    pub start_minute: u32,
    pub end_hour: u32,
    pub end_minute: u32,
}

/// The mathematical image of one event.
#[verifier::ext_equal]
pub struct EventModel {
    pub summary: Seq<char>,
    pub location: Seq<char>,
    pub description: Seq<char>,
    pub weeks: Seq<char>,
    pub all_day: bool,
    pub date: Date,
    pub end_date: Date,
    pub start_hour: int,
    pub start_minute: int,
    pub end_hour: int,
    pub end_minute: int,
}

impl View for EventSpec {
    type V = EventModel;

    open spec fn view(&self) -> EventModel {
        EventModel {
            summary: self.summary@,
            location: self.location@,
            description: self.description@,
            weeks: self.weeks@,
            all_day: self.all_day,
            date: self.date,
            end_date: self.end_date,
            start_hour: self.start_hour as int,
            start_minute: self.start_minute as int,
            end_hour: self.end_hour as int,
            end_minute: self.end_minute as int,
        }
    }
}

/// The models of a list of events.
pub open spec fn event_models(s: Seq<EventSpec>) -> Seq<EventModel> {
    s.map_values(|e: EventSpec| e@)
}

/// An event whose dates and clock values are presentable.
pub open spec fn event_wf(e: EventModel) -> bool {
    &&& date_wf(e.date)
    &&& date_wf(e.end_date)
    &&& 0 <= e.start_hour < 24
    &&& 0 <= e.start_minute < 60
    &&& 0 <= e.end_hour < 24
    &&& 0 <= e.end_minute < 60
}

/// An all-day week marker carries no location, teacher, week label or
/// clock values.
pub open spec fn marker_blank(e: EventModel) -> bool {
    e.all_day ==> {
        &&& e.location == Seq::<char>::empty()
        &&& e.description == Seq::<char>::empty()
        &&& e.weeks == Seq::<char>::empty()
        &&& e.start_hour == 0
        &&& e.start_minute == 0
        &&& e.end_hour == 0
        &&& e.end_minute == 0
    }
}

/// Every period window of the schedule is a four-digit wall-clock time.
pub open spec fn schedule_wf(sched: Seq<ElemModel>) -> bool {
    forall|i: int|
        0 <= i < sched.len() ==> hhmm_wf((#[trigger] sched[i]).start_time) && hhmm_wf(
            sched[i].end_time,
        )
}

/// What rendering needs of one course: it can be expanded, and any dates it
/// already carries are eight-digit dates.
pub open spec fn course_render_wf(c: CourseModel, start: Seq<char>) -> bool {
    &&& course_expand_wf(c, start)
    &&& forall|x: int| 0 <= x < c.daylist.len() ==> date8_wf(#[trigger] c.daylist[x])
}

/// A course with its expanded dates filled in.
pub open spec fn expanded_course(c: CourseModel, start: Date) -> CourseModel {
    CourseModel {
        daylist: c.daylist + expand_ranges(c.odd_or_even, c.day, c.week, start),
        ..c
    }
}

/// The schedule lookup covers the course's first and last period.
pub open spec fn course_events_ok(c: CourseModel, sched: Seq<ElemModel>) -> bool {
    &&& c.classtime.len() > 0
    &&& 1 <= c.classtime.first() <= sched.len()
    &&& 1 <= c.classtime.last() <= sched.len()
}

/// The event of one course on one expanded date: the window runs from the
/// start of the course's first period to the end of its last.
pub open spec fn event_of(c: CourseModel, d: Seq<char>, sched: Seq<ElemModel>) -> EventModel {
    let first = sched[c.classtime.first() - 1];
    let last = sched[c.classtime.last() - 1];
    EventModel {
        summary: c.name,
        location: c.classroom,
        description: c.teacher,
        weeks: join_comma(c.week),
        all_day: false,
        date: date8_value(d),
        end_date: date8_value(d),
        start_hour: dec_val(first.start_time.subrange(0, 2)),
        start_minute: dec_val(first.start_time.subrange(2, 4)),
        end_hour: dec_val(last.end_time.subrange(0, 2)),
        end_minute: dec_val(last.end_time.subrange(2, 4)),
    }
}

/// The events of one course: one per expanded date, in date order.
pub open spec fn course_events(c: CourseModel, sched: Seq<ElemModel>) -> Seq<EventModel> {
    Seq::new(c.daylist.len(), |i: int| event_of(c, c.daylist[i], sched))
}

/// The events of all courses, in course order; the first course whose
/// period the schedule does not map fails the whole rendering.
pub open spec fn events_of_courses(cs: Seq<CourseModel>, sched: Seq<ElemModel>) -> Result<
    Seq<EventModel>,
    CalendarError,
>
    decreases cs.len(),
{
    if cs.len() == 0 {
        Ok(Seq::empty())
    } else if !course_events_ok(cs.first(), sched) {
        Err(CalendarError::ScheduleMappingMissing)
    } else {
        match events_of_courses(cs.drop_first(), sched) {
            Err(e) => Err(e),
            Ok(rest) => Ok(course_events(cs.first(), sched) + rest),
        }
    }
}

/// The all-day marker of term week `wn`: it spans that week's seven days.
pub open spec fn week_marker(start: Date, wn: int) -> EventModel {
    EventModel {
        summary: "学期第 "@ + dec_of(wn) + " 周"@,
        location: Seq::empty(),
        description: Seq::empty(),
        weeks: Seq::empty(),
        all_day: true,
        date: date_plus(start, ((wn - 1) * 7) as nat),
        end_date: date_plus(start, ((wn - 1) * 7 + 7) as nat),
        start_hour: 0,
        start_minute: 0,
        end_hour: 0,
        end_minute: 0,
    }
}

/// The markers of `rem` term weeks starting at week `wn`.
pub open spec fn week_markers(start: Date, wn: int, rem: nat) -> Seq<EventModel>
    decreases rem,
{
    if rem == 0 {
        Seq::empty()
    } else {
        seq![week_marker(start, wn)] + week_markers(start, wn + 1, (rem - 1) as nat)
    }
}

/// Everything rendering produces: the courses' events after expansion, then
/// one all-day marker per term week.
pub open spec fn render_spec(
    cs: Seq<CourseModel>,
    sched: Seq<ElemModel>,
    start: Seq<char>,
    weeks: int,
) -> Result<Seq<EventModel>, CalendarError> {
    let sd = date8_value(start);
    match events_of_courses(cs.map_values(|c: CourseModel| expanded_course(c, sd)), sched) {
        Err(e) => Err(e),
        Ok(evs) => Ok(evs + week_markers(sd, 1, weeks as nat)),
    }
}

proof fn lemma_range_dates_wf(p: OddOrEven, day: int, w: int, rem: nat, start: Date)
    requires
        date_wf(start),
        start.year <= 9300,
        1 <= day <= 7,
        1 <= w,
        w + rem <= 1001,
    ensures
        forall|x: int|
            0 <= x < range_dates(p, day, w, rem, start).len() ==> date8_wf(
                #[trigger] range_dates(p, day, w, rem, start)[x],
            ),
    decreases rem,
{
    if rem > 0 {
        lemma_range_dates_wf(p, day, w + 1, (rem - 1) as nat, start);
        let whole = range_dates(p, day, w, rem, start);
        let rest = range_dates(p, day, w + 1, (rem - 1) as nat, start);
        if parity_keeps(p, w) {
            let n = ((w - 1) * 7 + day - 1) as nat;
            lemma_plus_wf(start, n);
            lemma_date8_roundtrip(date_plus(start, n));
            let d8 = date8(date_plus(start, n));
            assert(whole == seq![d8] + rest);
            assert forall|x: int| 0 <= x < whole.len() implies date8_wf(#[trigger] whole[x]) by {
                if x == 0 {
                    assert(whole[x] == d8);
                } else {
                    assert(whole[x] == rest[x - 1]);
                }
            }
        } else {
            assert(whole == rest);
        }
    }
}

proof fn lemma_expand_ranges_wf(c: CourseModel, start: Date)
    requires
        date_wf(start),
        start.year <= 9300,
        1 <= c.day <= 7,
        forall|k: int| 0 <= k < c.week.len() ==> crate::calendar::week_range_wf(#[trigger] c.week[k]),
    ensures
        forall|x: int|
            0 <= x < expand_ranges(c.odd_or_even, c.day, c.week, start).len() ==> date8_wf(
                #[trigger] expand_ranges(c.odd_or_even, c.day, c.week, start)[x],
            ),
    decreases c.week.len(),
{
    let weeks = c.week;
    if weeks.len() > 0 {
        let ps = crate::strutil::split_chars(weeks.first(), '-');
        let s = dec_val(ps[0]);
        let e = dec_val(ps[1]);
        assert(crate::calendar::week_range_wf(weeks[0]));
        assert(1 <= s <= 1000 && 1 <= e <= 1000);
        assert(s + range_count(s, e) <= 1001);
        lemma_range_dates_wf(c.odd_or_even, c.day, s, range_count(s, e), start);
        let c2 = CourseModel { week: weeks.drop_first(), ..c };
        assert(forall|k: int|
            0 <= k < c2.week.len() ==> crate::calendar::week_range_wf(#[trigger] c2.week[k]));
        lemma_expand_ranges_wf(c2, start);
        let whole = expand_ranges(c.odd_or_even, c.day, weeks, start);
        let head = range_dates(c.odd_or_even, c.day, s, range_count(s, e), start);
        let tail = expand_ranges(c.odd_or_even, c.day, weeks.drop_first(), start);
        assert(expand_ranges(c2.odd_or_even, c2.day, c2.week, start) == tail);
        assert(whole == head + tail);
        assert forall|x: int| 0 <= x < whole.len() implies date8_wf(#[trigger] whole[x]) by {
            if x < head.len() {
                assert(whole[x] == head[x]);
            } else {
                assert(whole[x] == tail[x - head.len()]);
            }
        }
    }
}

/// The default number of term weeks the calendar marks.
pub const DEFAULT_TERM_WEEKS: u32 = 19;

/// A generated calendar serialized as iCalendar text, ready for export.
/// The text also carries per-event random UIDs and creation stamps, so it
/// is not a function of the calendar's event list alone, and nothing is
/// stated of it.
pub fn icalendar_text(cal: &crate::ical::GeneratedCalendar) -> String {
    cal.to_text()
}

/// Expand every course and compute the full event list: one timed event per
/// course and expanded date, then one all-day marker per term week.
pub fn render_events(
    classlist: Vec<ParsedCourse>,
    firstweekdate: &str,
    schedule: &Schedule,
    weeks_in_term: u32,
) -> (r: Result<Vec<EventSpec>, CalendarError>)
    requires
        date8_wf(firstweekdate@),
        date8_value(firstweekdate@).year <= 9300,
        1 <= weeks_in_term <= 1000,
        schedule_wf(schedule@),
        forall|k: int|
            0 <= k < classlist@.len() ==> course_render_wf(
                (#[trigger] classlist@[k])@,
                firstweekdate@,
            ),
    ensures
        ({
            let spec_r = render_spec(
                crate::timetable::course_models(classlist@),
                schedule@,
                firstweekdate@,
                weeks_in_term as int,
            );
            match r {
                Ok(evs) => spec_r matches Ok(sevs) && event_models(evs@) == sevs && (forall|x: int|
                    0 <= x < evs@.len() ==> event_wf((#[trigger] evs@[x])@)) && (forall|x: int|
                    0 <= x < evs@.len() ==> marker_blank((#[trigger] evs@[x])@)),
                Err(e) => spec_r == Result::<Seq<EventModel>, CalendarError>::Err(e),
            }
        }),
{
    let ghost cs = crate::timetable::course_models(classlist@);
    let sdc = to_chars(firstweekdate);
    let start: Date = match parse_date8(&sdc) {
        Some(d) => d,
        None => {
            proof {
                assert(false);
            }
            unreached()
        },
    };
    // expand every course
    let mut remaining = classlist;
    let mut expanded: Vec<ParsedCourse> = Vec::new();
    let ghost exm = cs.map_values(|c: CourseModel| expanded_course(c, start));
    while remaining.len() > 0
        invariant
            date_wf(start),
            start.year <= 9300,
            start == date8_value(firstweekdate@),
            exm == cs.map_values(|c: CourseModel| expanded_course(c, start)),
            cs.len() == exm.len(),
            expanded@.len() + remaining@.len() == cs.len(),
            forall|k: int|
                0 <= k < remaining@.len() ==> (#[trigger] remaining@[k])@ == cs[expanded@.len()
                    + k],
            forall|k: int|
                0 <= k < cs.len() ==> course_render_wf(#[trigger] cs[k], firstweekdate@),
            forall|k: int| 0 <= k < expanded@.len() ==> (#[trigger] expanded@[k])@ == exm[k],
            forall|k: int|
                0 <= k < expanded@.len() ==> (forall|x: int|
                    0 <= x < (#[trigger] expanded@[k])@.daylist.len() ==> date8_wf(
                        #[trigger] expanded@[k]@.daylist[x],
                    )),
        decreases remaining@.len(),
    {
        let ghost k = expanded@.len() as int;
        let mut c = remaining.remove(0);
        proof {
            assert(c@ == cs[k]);
            assert(course_render_wf(cs[k], firstweekdate@));
            assert(forall|j: int|
                0 <= j < remaining@.len() ==> (#[trigger] remaining@[j])@ == cs[k + 1 + j]);
        }
        c.with_startdate(firstweekdate);
        proof {
            assert(c@ == expanded_course(cs[k], start));
            assert(c@ == exm[k]);
            lemma_expand_ranges_wf(cs[k], start);
            let dl = c@.daylist;
            let old_dl = cs[k].daylist;
            let new_dl = expand_ranges(cs[k].odd_or_even, cs[k].day, cs[k].week, start);
            assert(dl == old_dl + new_dl);
            assert forall|x: int| 0 <= x < dl.len() implies date8_wf(#[trigger] dl[x]) by {
                if x < old_dl.len() {
                    assert(dl[x] == old_dl[x]);
                } else {
                    assert(dl[x] == new_dl[x - old_dl.len()]);
                }
            }
        }
        expanded.push(c);
    }
    proof {
        assert(crate::timetable::course_models(expanded@) =~~= exm);
    }
    // build the course events
    let mut evs: Vec<EventSpec> = Vec::new();
    let n = expanded.len();
    let mut i: usize = 0;
    proof {
        assert(exm.skip(0) =~~= exm);
        assert(ok_prefix(event_models(evs@), events_of_courses(exm, schedule@))
            == events_of_courses(exm, schedule@));
    }
    while i < n
        invariant
            i <= n,
            n == expanded@.len(),
            exm == crate::timetable::course_models(expanded@),
            exm == crate::timetable::course_models(classlist@).map_values(
                |c: CourseModel| expanded_course(c, start),
            ),
            start == date8_value(firstweekdate@),
            date_wf(start),
            start.year <= 9300,
            exm.len() == n,
            schedule_wf(schedule@),
            forall|k: int| 0 <= k < n ==> (#[trigger] expanded@[k])@ == exm[k],
            forall|k: int|
                0 <= k < n ==> (forall|x: int|
                    0 <= x < (#[trigger] expanded@[k])@.daylist.len() ==> date8_wf(
                        #[trigger] expanded@[k]@.daylist[x],
                    )),
            forall|x: int| 0 <= x < evs@.len() ==> event_wf((#[trigger] evs@[x])@),
            forall|x: int| 0 <= x < evs@.len() ==> marker_blank((#[trigger] evs@[x])@),
            events_of_courses(exm, schedule@) == ok_prefix(
                event_models(evs@),
                events_of_courses(exm.skip(i as int), schedule@),
            ),
        decreases n - i,
    {
        let ghost pre = exm.skip(i as int);
        proof {
            assert(pre[0] == exm[i as int]);
            assert(pre.drop_first() =~~= exm.skip(i + 1));
        }
        let ct_len = expanded[i].classtime.len();
        if ct_len == 0 {
            proof {
                assert(!course_events_ok(pre.first(), schedule@));
                assert(events_of_courses(pre, schedule@)
                    == Result::<Seq<EventModel>, CalendarError>::Err(
                    CalendarError::ScheduleMappingMissing,
                ));
            }
            return Err(CalendarError::ScheduleMappingMissing);
        }
        let first_p = expanded[i].classtime[0];
        let last_p = expanded[i].classtime[ct_len - 1];
        proof {
            assert(exm[i as int].classtime.first() == first_p as int);
            assert(exm[i as int].classtime.last() == last_p as int);
        }
        if first_p < 1 || first_p > schedule.classtime.len() || last_p < 1 || last_p
            > schedule.classtime.len() {
            proof {
                assert(!course_events_ok(pre.first(), schedule@));
                assert(events_of_courses(pre, schedule@)
                    == Result::<Seq<EventModel>, CalendarError>::Err(
                    CalendarError::ScheduleMappingMissing,
                ));
            }
            return Err(CalendarError::ScheduleMappingMissing);
        }
        assert(course_events_ok(pre.first(), schedule@));
        let start_elem = &schedule.classtime[first_p - 1];
        let end_elem = &schedule.classtime[last_p - 1];
        proof {
            assert(start_elem@ == schedule@[first_p - 1]);
            assert(end_elem@ == schedule@[last_p - 1]);
        }
        let (sh, sm) = match parse_hhmm(&to_chars(start_elem.start_time.as_str())) {
            Some(t) => t,
            None => {
                proof {
                    assert(false);
                }
                unreached()
            },
        };
        let (eh, em) = match parse_hhmm(&to_chars(end_elem.end_time.as_str())) {
            Some(t) => t,
            None => {
                proof {
                    assert(false);
                }
                unreached()
            },
        };
        let weeks_label = join_comma_exec(&expanded[i].week);
        let dl_len = expanded[i].daylist.len();
        let ghost course_chunk = course_events(exm[i as int], schedule@);
        let ghost evs_before = event_models(evs@);
        let mut x: usize = 0;
        while x < dl_len
            invariant
                x <= dl_len,
                i < n,
                n == expanded@.len(),
                exm == crate::timetable::course_models(expanded@),
                exm.len() == n,
                schedule_wf(schedule@),
                forall|k: int| 0 <= k < n ==> (#[trigger] expanded@[k])@ == exm[k],
                forall|k: int|
                    0 <= k < n ==> (forall|y: int|
                        0 <= y < (#[trigger] expanded@[k])@.daylist.len() ==> date8_wf(
                            #[trigger] expanded@[k]@.daylist[y],
                        )),
                dl_len == expanded@[i as int]@.daylist.len(),
                course_chunk == course_events(exm[i as int], schedule@),
                course_chunk.len() == dl_len,
                evs_before.len() <= evs@.len(),
                sh == exm[i as int].classtime.first() - 1 >= 0 ==> true,
                course_events_ok(exm[i as int], schedule@),
                sh as int == dec_val(schedule@[exm[i as int].classtime.first() - 1].start_time.subrange(0, 2)),
                sm as int == dec_val(schedule@[exm[i as int].classtime.first() - 1].start_time.subrange(2, 4)),
                eh as int == dec_val(schedule@[exm[i as int].classtime.last() - 1].end_time.subrange(0, 2)),
                em as int == dec_val(schedule@[exm[i as int].classtime.last() - 1].end_time.subrange(2, 4)),
                sh < 24 && sm < 60 && eh < 24 && em < 60,
                weeks_label@ == join_comma(exm[i as int].week),
                forall|y: int| 0 <= y < evs@.len() ==> event_wf((#[trigger] evs@[y])@),
                forall|y: int| 0 <= y < evs@.len() ==> marker_blank((#[trigger] evs@[y])@),
                event_models(evs@) == evs_before + course_chunk.take(x as int),
            decreases dl_len - x,
        {
            let dstr = &expanded[i].daylist[x];
            proof {
                assert(expanded@[i as int]@.daylist[x as int] == dstr@);
                assert(date8_wf(dstr@));
            }
            let d: Date = match parse_date8(&to_chars(dstr.as_str())) {
                Some(d) => d,
                None => {
                    proof {
                        assert(false);
                    }
                    unreached()
                },
            };
            let ev = EventSpec {
                summary: expanded[i].name.clone(),
                location: expanded[i].classroom.clone(),
                description: expanded[i].teacher.clone(),
                weeks: weeks_label.clone(),
                all_day: false,
                date: d,
                end_date: d,
                start_hour: sh,
                start_minute: sm,
                end_hour: eh,
                end_minute: em,
            };
            proof {
                assert(ev@ =~~= event_of(
                    exm[i as int],
                    exm[i as int].daylist[x as int],
                    schedule@,
                ));
                assert(course_chunk[x as int] == ev@);
            }
            let ghost before_push = event_models(evs@);
            evs.push(ev);
            x = x + 1;
            proof {
                assert(event_models(evs@) =~~= before_push.push(course_chunk[x - 1]));
                assert(course_chunk.take(x as int) =~~= course_chunk.take(x - 1).push(
                    course_chunk[x - 1],
                ));
            }
        }
        proof {
            assert(course_chunk.take(dl_len as int) =~~= course_chunk);
            assert(event_models(evs@) == evs_before + course_chunk);
            assert(events_of_courses(pre, schedule@) == (match events_of_courses(
                exm.skip(i + 1),
                schedule@,
            ) {
                Err(e) => Err(e),
                Ok(rest) => Ok(course_chunk + rest),
            }));
            let rr = events_of_courses(exm.skip(i + 1), schedule@);
            if rr is Ok {
                let rest = rr->Ok_0;
                assert((evs_before + course_chunk) + rest =~~= evs_before + (course_chunk
                    + rest));
                assert(ok_prefix(event_models(evs@), rr) == ok_prefix(
                    evs_before,
                    events_of_courses(pre, schedule@),
                ));
            } else {
                assert(ok_prefix(event_models(evs@), rr) == ok_prefix(
                    evs_before,
                    events_of_courses(pre, schedule@),
                ));
            }
        }
        i = i + 1;
    }
    proof {
        assert(exm.skip(n as int) =~~= Seq::<CourseModel>::empty());
        assert(events_of_courses(exm, schedule@) matches Ok(sevs) && sevs == event_models(evs@))
            by {
            assert(events_of_courses(Seq::empty(), schedule@)
                == Result::<Seq<EventModel>, CalendarError>::Ok(Seq::empty()));
            assert(event_models(evs@) + Seq::<EventModel>::empty() =~~= event_models(evs@));
        }
    }
    // append the term week markers
    let ghost course_part = event_models(evs@);
    let mut wn: u32 = 1;
    proof {
        assert(week_markers(start, 1, weeks_in_term as nat).take(0) =~~= Seq::<
            EventModel,
        >::empty());
        assert(event_models(evs@) =~~= course_part + week_markers(
            start,
            1,
            weeks_in_term as nat,
        ).take(0));
    }
    while wn <= weeks_in_term
        invariant
            1 <= wn <= weeks_in_term + 1,
            weeks_in_term <= 1000,
            date_wf(start),
            start.year <= 9300,
            forall|y: int| 0 <= y < evs@.len() ==> event_wf((#[trigger] evs@[y])@),
            forall|y: int| 0 <= y < evs@.len() ==> marker_blank((#[trigger] evs@[y])@),
            event_models(evs@) == course_part + markers_prefix(
                start,
                weeks_in_term as nat,
                (wn - 1) as nat,
            ),
        decreases weeks_in_term + 1 - wn,
    {
        let mut summary: String = "学期第 ".to_owned();
        let digits = from_chars(&dec_of_exec(wn as u64));
        summary.append(digits.as_str());
        summary.append(" 周");
        let offset: u32 = (wn - 1) * 7;
        assert(mrank(start) + offset < 120000);
        let d1 = add_days(start, offset);
        assert(mrank(start) + offset + 7 < 120000);
        let d2 = add_days(start, offset + 7);
        let ev = EventSpec {
            summary,
            location: String::new(),
            description: String::new(),
            weeks: String::new(),
            all_day: true,
            date: d1,
            end_date: d2,
            start_hour: 0,
            start_minute: 0,
            end_hour: 0,
            end_minute: 0,
        };
        proof {
            assert(ev@ =~~= week_marker(start, wn as int));
        }
        let ghost before_push = event_models(evs@);
        evs.push(ev);
        wn = wn + 1;
        proof {
            assert(event_models(evs@) =~~= before_push.push(week_marker(start, wn - 1)));
            lemma_markers_prefix(start, weeks_in_term as nat, (wn - 1) as nat);
        }
    }
    proof {
        lemma_markers_whole(start, weeks_in_term as nat);
    }
    Ok(evs)
}

/// A prefix followed by the rest of an event computation, or its error.
pub open spec fn ok_prefix(
    prefix: Seq<EventModel>,
    r: Result<Seq<EventModel>, CalendarError>,
) -> Result<Seq<EventModel>, CalendarError> {
    match r {
        Err(e) => Err(e),
        Ok(rest) => Ok(prefix + rest),
    }
}

/// The first `k` week markers out of `total`.
pub open spec fn markers_prefix(start: Date, total: nat, k: nat) -> Seq<EventModel> {
    week_markers(start, 1, total).take(k as int)
}

proof fn lemma_markers_len(start: Date, wn: int, rem: nat)
    ensures
        week_markers(start, wn, rem).len() == rem,
    decreases rem,
{
    if rem > 0 {
        lemma_markers_len(start, wn + 1, (rem - 1) as nat);
    }
}

proof fn lemma_markers_index(start: Date, wn: int, rem: nat, x: int)
    requires
        0 <= x < rem,
    ensures
        week_markers(start, wn, rem)[x] == week_marker(start, wn + x),
    decreases rem,
{
    lemma_markers_len(start, wn, rem);
    if x > 0 {
        lemma_markers_index(start, wn + 1, (rem - 1) as nat, x - 1);
        lemma_markers_len(start, wn + 1, (rem - 1) as nat);
    }
}

proof fn lemma_markers_prefix(start: Date, total: nat, k: nat)
    requires
        1 <= k <= total,
    ensures
        markers_prefix(start, total, k) == markers_prefix(start, total, (k - 1) as nat).push(
            week_marker(start, k as int),
        ),
{
    lemma_markers_len(start, 1, total);
    lemma_markers_index(start, 1, total, k - 1);
    assert(week_markers(start, 1, total).take(k as int) =~~= week_markers(start, 1, total).take(
        k - 1,
    ).push(week_markers(start, 1, total)[k - 1]));
}

proof fn lemma_markers_whole(start: Date, total: nat)
    ensures
        markers_prefix(start, total, total) == week_markers(start, 1, total),
{
    lemma_markers_len(start, 1, total);
    assert(week_markers(start, 1, total).take(total as int) =~~= week_markers(start, 1, total));
}

/// LAW (boundary): a week range that covers a single week expands to
/// exactly one date when the parity admits every week.
pub proof fn lemma_single_week_range(day: int, w: int, start: Date)
    ensures
        range_dates(OddOrEven::Each, day, w, range_count(w, w), start).len() == 1,
{
    assert(range_count(w, w) == 1);
    assert(parity_keeps(OddOrEven::Each, w));
    assert(range_dates(OddOrEven::Each, day, w + 1, 0, start) =~~= Seq::<Seq<char>>::empty());
}

/// Expand every course and assemble the calendar: the verified event list
/// of `render_events` handed, one event at a time, to the modeled trusted
/// builder, with the fixed calendar metadata and an optional display
/// reminder a number of minutes before each class. The returned calendar
/// carries exactly the rendered events.
pub fn generate_icalendar_from_classlist(
    classlist: Vec<ParsedCourse>,
    firstweekdate: &str,
    schedule: &Schedule,
    reminder: Option<i32>,
    weeks_in_term: u32,
) -> (r: Result<crate::ical::GeneratedCalendar, CalendarError>)
    requires
        date8_wf(firstweekdate@),
        date8_value(firstweekdate@).year <= 9300,
        1 <= weeks_in_term <= 1000,
        schedule_wf(schedule@),
        forall|k: int|
            0 <= k < classlist@.len() ==> course_render_wf(
                (#[trigger] classlist@[k])@,
                firstweekdate@,
            ),
    ensures
        ({
            let spec_r = render_spec(
                crate::timetable::course_models(classlist@),
                schedule@,
                firstweekdate@,
                weeks_in_term as int,
            );
            match r {
                Ok(c) => (spec_r matches Ok(sevs) && c.events() == sevs),
                Err(e) => spec_r == Result::<Seq<EventModel>, CalendarError>::Err(e),
            }
        }),
{
    let evs = match render_events(classlist, firstweekdate, schedule, weeks_in_term) {
        Ok(evs) => evs,
        Err(e) => {
            return Err(e);
        },
    };
    let ghost sevs = event_models(evs@);
    let mut cal = crate::ical::GeneratedCalendar::new();
    cal.set_meta("Asia/Shanghai", "课程表");
    let n = evs.len();
    let mut i: usize = 0;
    proof {
        assert(sevs.take(0) =~~= Seq::<EventModel>::empty());
    }
    while i < n
        invariant
            i <= n,
            n == evs@.len(),
            sevs == event_models(evs@),
            sevs.len() == n,
            forall|x: int| 0 <= x < evs@.len() ==> event_wf((#[trigger] evs@[x])@),
            forall|x: int| 0 <= x < evs@.len() ==> marker_blank((#[trigger] evs@[x])@),
            cal.events() == sevs.take(i as int),
        decreases n - i,
    {
        let e = &evs[i];
        proof {
            assert(event_wf(evs@[i as int]@));
            assert(marker_blank(evs@[i as int]@));
        }
        let mut draft = crate::ical::EventDraft::new();
        draft.add_property("TRANSP", "OPAQUE");
        draft.add_property("X-APPLE-TRAVEL-ADVISORY-BEHAVIOR", "AUTOMATIC");
        draft.add_property("SEQUENCE", "0");
        let mut uid = crate::ical::uuid_v4_string();
        uid.append("@gmail.com");
        if e.all_day {
            draft.set_summary(e.summary.as_str());
            draft.set_uid_stamp(uid.as_str());
            draft.set_days(e.date, e.end_date);
        } else {
            draft.add_property("WEEK", e.weeks.as_str());
            draft.set_summary(e.summary.as_str());
            draft.set_location_description(e.location.as_str(), e.description.as_str());
            draft.set_uid_stamp(uid.as_str());
            draft.set_window(
                e.date,
                e.end_date,
                e.start_hour,
                e.start_minute,
                e.end_hour,
                e.end_minute,
            );
            match reminder {
                Some(minutes) => {
                    draft.set_reminder("课前提醒", minutes);
                },
                None => {},
            }
        }
        proof {
            assert("TRANSP"@ != "WEEK"@) by {
                reveal_strlit("TRANSP");
                reveal_strlit("WEEK");
                assert("TRANSP"@.len() == 6);
                assert("WEEK"@.len() == 4);
            }
            assert("X-APPLE-TRAVEL-ADVISORY-BEHAVIOR"@ != "WEEK"@) by {
                reveal_strlit("X-APPLE-TRAVEL-ADVISORY-BEHAVIOR");
                reveal_strlit("WEEK");
                assert("X-APPLE-TRAVEL-ADVISORY-BEHAVIOR"@.len() == 32);
                assert("WEEK"@.len() == 4);
            }
            assert("SEQUENCE"@ != "WEEK"@) by {
                reveal_strlit("SEQUENCE");
                reveal_strlit("WEEK");
                assert("SEQUENCE"@.len() == 8);
                assert("WEEK"@.len() == 4);
            }
            assert(draft.model() =~~= evs@[i as int]@);
        }
        cal.push_draft(draft);
        i = i + 1;
        proof {
            assert(sevs.take(i as int) =~~= sevs.take(i - 1).push(sevs[i - 1]));
        }
    }
    proof {
        assert(sevs.take(n as int) =~~= sevs);
    }
    Ok(cal)
}

} // verus!
