//! Trusted boundary to the calendar-exchange crates: name-based UUIDs,
//! random event UUIDs, and the iCalendar builder.
//!
//! The builder is modeled: an event under construction carries the
//! mathematical event it renders, and a generated calendar carries the list
//! of events it has been fed. The inner values stay opaque; each trusted
//! setter states exactly which model field the call fixes, so a calendar's
//! contract can speak of its whole content.

use vstd::prelude::*;
use icalendar::{Component, EventLike};
use crate::dates::{date_wf, Date};
use crate::events::EventModel;

verus! {

/// The text of the version-3 (name-based, DNS namespace) UUID of a string:
/// a function of the text alone.
pub uninterp spec fn uuid_v3_of(s: Seq<char>) -> Seq<char>;

/// Relies on `uuid::Uuid::new_v3`: the version-3 UUID of the given bytes in
/// the DNS namespace, printed in hyphenated form — deterministic in its
/// input.
#[verifier::external_body]
pub(crate) fn uuid_v3_string(s: &str) -> (r: String)
    ensures
        r@ == uuid_v3_of(s@),
{
    uuid::Uuid::new_v3(&uuid::Uuid::NAMESPACE_DNS, s.as_bytes()).to_string()
}

/// Relies on `uuid::Uuid::new_v4`: a random UUID in hyphenated form.
/// Nothing can be promised of a random value.
#[verifier::external_body]
pub(crate) fn uuid_v4_string() -> (r: String) {
    uuid::Uuid::new_v4().to_string()
}

#[verifier::external_type_specification]
#[verifier::external_body]
pub struct ExCalendar(icalendar::Calendar);

#[verifier::external_type_specification]
#[verifier::external_body]
pub struct ExCalendarComponent(icalendar::CalendarComponent);

#[verifier::external_type_specification]
#[verifier::external_body]
pub struct ExEvent(icalendar::Event);

/// Relies on `icalendar::Calendar::new`: an empty calendar.
#[verifier::external_body]
fn calendar_new() -> (r: icalendar::Calendar) {
    icalendar::Calendar::new()
}

/// Relies on `icalendar::Calendar::timezone` and `name`: sets the fixed
/// calendar metadata, adding no event.
#[verifier::external_body]
fn calendar_set_meta(c: &mut icalendar::Calendar, timezone: &str, name: &str) {
    c.timezone(timezone);
    c.name(name);
}

/// Relies on `icalendar::Calendar::push`: appends one event component.
#[verifier::external_body]
fn calendar_push(c: &mut icalendar::Calendar, e: icalendar::Event) {
    c.push(e);
}

/// Relies on `icalendar::Calendar`'s `Display`: the calendar serialized as
/// iCalendar text. The text also holds per-event random UIDs and creation
/// stamps, so nothing is a function of the model alone.
#[verifier::external_body]
fn calendar_to_ics(c: &icalendar::Calendar) -> (r: String) {
    c.to_string()
}

/// Relies on `icalendar::Event::new`: an empty event.
#[verifier::external_body]
fn event_new() -> (r: icalendar::Event) {
    icalendar::Event::new()
}

/// One calendar event under construction, carrying the mathematical event
/// it renders. The inner value is opaque; each setter's contract states the
/// model field its call fixes.
pub struct EventDraft {
    inner: icalendar::Event,
    model: Ghost<EventModel>,
}

impl EventDraft {
    /// The mathematical event this draft renders so far.
    pub closed spec fn model(&self) -> EventModel {
        self.model@
    }

    /// A fresh draft: an empty event — no texts, no week label, and a
    /// placeholder date until a window is set.
    pub(crate) fn new() -> (r: EventDraft)
        ensures
            r.model() == (EventModel {
                summary: Seq::empty(),
                location: Seq::empty(),
                description: Seq::empty(),
                weeks: Seq::empty(),
                all_day: false,
                date: Date { year: 1, month: 1, day: 1 },
                end_date: Date { year: 1, month: 1, day: 1 },
                start_hour: 0,
                start_minute: 0,
                end_hour: 0,
                end_minute: 0,
            }),
    {
        EventDraft {
            inner: event_new(),
            model: Ghost(
                EventModel {
                    summary: Seq::empty(),
                    location: Seq::empty(),
                    description: Seq::empty(),
                    weeks: Seq::empty(),
                    all_day: false,
                    date: Date { year: 1, month: 1, day: 1 },
                    end_date: Date { year: 1, month: 1, day: 1 },
                    start_hour: 0,
                    start_minute: 0,
                    end_hour: 0,
                    end_minute: 0,
                },
            ),
        }
    }

    /// Relies on `icalendar`'s `Component::add_property`, which keeps one
    /// value per property key (a repeated key replaces the value). The
    /// model's week label is the `WEEK` property; any other key leaves the
    /// model as it was.
    #[verifier::external_body]
    pub(crate) fn add_property(&mut self, key: &str, value: &str)
        ensures
            final(self).model() == (EventModel {
                weeks: if key@ == "WEEK"@ {
                    value@
                } else {
                    old(self).model().weeks
                },
                ..old(self).model()
            }),
    {
        self.inner.add_property(key, value);
    }

    /// Relies on `icalendar`'s `Component::summary`.
    #[verifier::external_body]
    pub(crate) fn set_summary(&mut self, summary: &str)
        ensures
            final(self).model() == (EventModel { summary: summary@, ..old(self).model() }),
    {
        self.inner.summary(summary);
    }

    /// Relies on `icalendar`'s `Component` setters for location and
    /// description.
    #[verifier::external_body]
    pub(crate) fn set_location_description(&mut self, location: &str, description: &str)
        ensures
            final(self).model() == (EventModel {
                location: location@,
                description: description@,
                ..old(self).model()
            }),
    {
        self.inner.location(location).description(description);
    }

    /// Relies on `icalendar`'s `Component::uid` (set verbatim) and
    /// `timestamp` with `chrono::Utc::now` — the creation stamp is the
    /// moment of the call, and nothing holds of it. The model is untouched.
    #[verifier::external_body]
    pub(crate) fn set_uid_stamp(&mut self, uid: &str)
        ensures
            final(self).model() == old(self).model(),
    {
        self.inner.uid(uid).timestamp(chrono::Utc::now());
    }

    /// Relies on `icalendar`'s `EventLike::starts`/`ends` with wall-clock
    /// date-times built by `chrono::NaiveDate::from_ymd_opt` and
    /// `and_hms_opt`; both are `Some` for the valid dates and clock values
    /// the precondition demands, so the calls cannot panic.
    #[verifier::external_body]
    pub(crate) fn set_window(
        &mut self,
        date: Date,
        end_date: Date,
        start_hour: u32,
        start_minute: u32,
        end_hour: u32,
        end_minute: u32,
    )
        requires
            date_wf(date),
            date_wf(end_date),
            start_hour < 24,
            start_minute < 60,
            end_hour < 24,
            end_minute < 60,
        ensures
            final(self).model() == (EventModel {
                all_day: false,
                date,
                end_date,
                start_hour: start_hour as int,
                start_minute: start_minute as int,
                end_hour: end_hour as int,
                end_minute: end_minute as int,
                ..old(self).model()
            }),
    {
        let d1 = chrono::NaiveDate::from_ymd_opt(date.year as i32, date.month, date.day).unwrap();
        let d2 = chrono::NaiveDate::from_ymd_opt(end_date.year as i32, end_date.month, end_date.day)
            .unwrap();
        self.inner
            .starts(d1.and_hms_opt(start_hour, start_minute, 0).unwrap())
            .ends(d2.and_hms_opt(end_hour, end_minute, 0).unwrap());
    }

    /// Relies on `icalendar`'s `EventLike::starts`/`ends` with whole dates
    /// built by `chrono::NaiveDate::from_ymd_opt` (`Some` for the valid
    /// dates the precondition demands): an all-day event.
    #[verifier::external_body]
    pub(crate) fn set_days(&mut self, date: Date, end_date: Date)
        requires
            date_wf(date),
            date_wf(end_date),
        ensures
            final(self).model() == (EventModel {
                all_day: true,
                date,
                end_date,
                start_hour: 0,
                start_minute: 0,
                end_hour: 0,
                end_minute: 0,
                ..old(self).model()
            }),
    {
        let d1 = chrono::NaiveDate::from_ymd_opt(date.year as i32, date.month, date.day).unwrap();
        let d2 = chrono::NaiveDate::from_ymd_opt(end_date.year as i32, end_date.month, end_date.day)
            .unwrap();
        self.inner.starts(d1).ends(d2);
    }

    /// Relies on `icalendar`'s `EventLike::alarm` with a display alarm a
    /// number of minutes before the start. The model is untouched.
    #[verifier::external_body]
    pub(crate) fn set_reminder(&mut self, text: &str, minutes_before: i32)
        ensures
            final(self).model() == old(self).model(),
    {
        self.inner.alarm(
            icalendar::Alarm::display(
                text,
                icalendar::Trigger::before_start(chrono::Duration::minutes(minutes_before as i64)),
            ),
        );
    }
}

/// A generated calendar together with the list of events it holds, in
/// order. The inner iCalendar value is opaque; the event list is the
/// contract's view of its content.
pub struct GeneratedCalendar {
    calendar: icalendar::Calendar,
    events: Ghost<Seq<EventModel>>,
}

impl GeneratedCalendar {
    /// The events this calendar holds, in the order they were added.
    pub closed spec fn events(&self) -> Seq<EventModel> {
        self.events@
    }

    /// An empty calendar.
    pub fn new() -> (r: GeneratedCalendar)
        ensures
            r.events() == Seq::<EventModel>::empty(),
    {
        GeneratedCalendar { calendar: calendar_new(), events: Ghost(Seq::empty()) }
    }

    /// Set the calendar's timezone and display name; no event is added.
    pub fn set_meta(&mut self, timezone: &str, name: &str)
        ensures
            final(self).events() == old(self).events(),
    {
        calendar_set_meta(&mut self.calendar, timezone, name);
    }

    /// Append one finished event.
    pub(crate) fn push_draft(&mut self, draft: EventDraft)
        ensures
            final(self).events() == old(self).events().push(draft.model()),
    {
        let ghost new_events = self.events@.push(draft.model@);
        let EventDraft { inner, model: _ } = draft;
        calendar_push(&mut self.calendar, inner);
        self.events = Ghost(new_events);
    }

    /// The calendar serialized as iCalendar text. The text also carries
    /// per-event random UIDs and creation stamps, so it is not a function
    /// of the event list alone and nothing is stated of it.
    pub fn to_text(&self) -> String {
        calendar_to_ics(&self.calendar)
    }

    /// Give up the model and hand out the bare iCalendar value.
    pub fn into_inner(self) -> icalendar::Calendar {
        self.calendar
    }
}

} // verus!
