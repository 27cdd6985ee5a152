//! Rendering compiled events as an iCalendar document in the institution's time zone.
use vstd::prelude::*;
use chrono::{Datelike, TimeZone};
use chrono_tz::Europe::Saratov;
use icalendar::{
    Calendar, CalendarComponent, CalendarDateTime, Component, Event, EventLike, Property,
};
use crate::calendar::{
    compiled_exams, compiled_lessons, event_views, CompiledEvent, EventView,
};
use crate::config::Config;
use crate::models::{ExamList, Schedule};
use crate::request::Request;
use crate::time::{CompileError, LocalDateTime};

verus! {

#[verifier::external_type_specification]
#[verifier::external_body]
pub struct ExCalendar(Calendar);

#[verifier::external_type_specification]
#[verifier::external_body]
pub struct ExCalendarComponent(CalendarComponent);

/// Whether the Europe/Saratov time zone has exactly one instant with this wall-clock time.
pub uninterp spec fn in_zone(year: i32, month: u32, day: u32, hour: u32, minute: u32) -> bool;

pub open spec fn time_in_zone(t: LocalDateTime) -> bool {
    in_zone(t.date.year, t.date.month, t.date.day, t.hour, t.minute)
}

/// Whether every start and end of `evs` has a single instant in the time zone.
pub open spec fn all_in_zone(evs: Seq<EventView>) -> bool {
    forall|i: int| 0 <= i < evs.len() ==> time_in_zone(#[trigger] evs[i].start) && time_in_zone(evs[i].end)
}

/// The `VEVENT` components of a calendar, in order, each read as its `DTSTART` and `DTEND`
/// wall-clock times in the Europe/Saratov zone, `SUMMARY`, `DESCRIPTION`, `LOCATION` and `RRULE`.
pub uninterp spec fn calendar_events(c: Calendar) -> Seq<EventView>;

/// Relies on `chrono::Utc::now` read in the Europe/Saratov zone: the current year there.
#[verifier::external_body]
fn current_year() -> (r: i32) {
    chrono::Utc::now().with_timezone(&Saratov).year()
}

/// Relies on `icalendar::Calendar::new`: a calendar with its header properties and no component.
#[verifier::external_body]
fn new_calendar() -> (r: Calendar)
    ensures
        calendar_events(r) == Seq::<EventView>::empty(),
{
    Calendar::new()
}

/// Relies on chrono-tz's `Europe::Saratov` with chrono's `TimeZone::with_ymd_and_hms` and
/// `LocalResult::single` (`Some` exactly when one instant has that wall-clock time), on
/// `icalendar::CalendarDateTime::from_date_time` (which keeps the wall-clock time and the zone
/// name), on `Event::new` with `EventLike::starts`, `EventLike::ends`, `Component::summary`,
/// `Component::description`, `EventLike::location` and `Component::append_property`, and on
/// `Calendar::push`, which appends the event as the last component. Appends the event of `ev`
/// with the recurrence rule `rule`, unless its start or end has no single instant in the zone.
#[verifier::external_body]
fn push_recurring(cal: &mut Calendar, ev: &CompiledEvent, rule: &str) -> (ok: bool)
    ensures
        ok == (in_zone(ev.start.date.year, ev.start.date.month, ev.start.date.day, ev.start.hour, ev.start.minute)
            && in_zone(ev.end.date.year, ev.end.date.month, ev.end.date.day, ev.end.hour, ev.end.minute)),
        ok ==> calendar_events(*final(cal)) == calendar_events(*old(cal)).push(
            (EventView { rrule: Some(rule@), ..ev@ }),
        ),
        !ok ==> *final(cal) == *old(cal),
{
    let at = |t: LocalDateTime| Saratov.with_ymd_and_hms(t.date.year, t.date.month, t.date.day, t.hour, t.minute, 0).single();
    let (Some(s), Some(e)) = (at(ev.start), at(ev.end)) else { return false };
    let mut event = Event::new();
    event.starts(CalendarDateTime::from_date_time(s)).ends(CalendarDateTime::from_date_time(e));
    event.summary(&ev.summary).description(&ev.description).location(&ev.location);
    event.append_property(Property::new("RRULE", rule));
    cal.push(event.done());
    true
}

/// Relies on the same calls as `push_recurring` but `append_property`: appends the event of `ev`
/// without a recurrence rule, unless its start or end has no single instant in the zone.
#[verifier::external_body]
fn push_single(cal: &mut Calendar, ev: &CompiledEvent) -> (ok: bool)
    ensures
        ok == (in_zone(ev.start.date.year, ev.start.date.month, ev.start.date.day, ev.start.hour, ev.start.minute)
            && in_zone(ev.end.date.year, ev.end.date.month, ev.end.date.day, ev.end.hour, ev.end.minute)),
        ok ==> calendar_events(*final(cal)) == calendar_events(*old(cal)).push(
            (EventView { rrule: None, ..ev@ }),
        ),
        !ok ==> *final(cal) == *old(cal),
{
    let at = |t: LocalDateTime| Saratov.with_ymd_and_hms(t.date.year, t.date.month, t.date.day, t.hour, t.minute, 0).single();
    let (Some(s), Some(e)) = (at(ev.start), at(ev.end)) else { return false };
    let mut event = Event::new();
    event.starts(CalendarDateTime::from_date_time(s)).ends(CalendarDateTime::from_date_time(e));
    event.summary(&ev.summary).description(&ev.description).location(&ev.location);
    cal.push(event.done());
    true
}

/// Appends the `VEVENT` of one compiled event, unless its start or end has no single instant in
/// the time zone.
fn push_compiled(cal: &mut Calendar, ev: &CompiledEvent) -> (ok: bool)
    ensures
        ok == (time_in_zone(ev.start) && time_in_zone(ev.end)),
        ok ==> calendar_events(*final(cal)) == calendar_events(*old(cal)).push(ev@),
        !ok ==> *final(cal) == *old(cal),
{
    match &ev.rrule {
        Some(rule) => push_recurring(cal, ev, rule.as_str()),
        None => push_single(cal, ev),
    }
}

/// One calendar document holding the events in order, each as a `VEVENT`; `InvalidDate` where a
/// start or end has no single instant in the time zone.
pub fn render(events: &Vec<CompiledEvent>) -> (r: Result<Calendar, CompileError>)
    ensures
        r is Ok == all_in_zone(event_views(events@)),
        r matches Ok(c) ==> calendar_events(c) == event_views(events@),
        r matches Err(x) ==> x == CompileError::InvalidDate,
{
    let mut cal = new_calendar();
    let mut i: usize = 0;
    assert(event_views(events@.subrange(0, 0)) =~= Seq::<EventView>::empty());
    while i < events.len()
        invariant
            i <= events@.len(),
            all_in_zone(event_views(events@.subrange(0, i as int))),
            calendar_events(cal) == event_views(events@.subrange(0, i as int)),
        decreases events@.len() - i,
    {
        let ghost before = cal;
        if !push_compiled(&mut cal, &events[i]) {
            assert(!time_in_zone(event_views(events@)[i as int].start) || !time_in_zone(
                event_views(events@)[i as int].end,
            ));
            return Err(CompileError::InvalidDate);
        }
        assert(event_views(events@.subrange(0, i + 1)) =~= event_views(
            events@.subrange(0, i as int),
        ).push(events@[i as int]@));
        assert forall|k: int| 0 <= k < i + 1 implies time_in_zone(
            #[trigger] event_views(events@.subrange(0, i + 1))[k].start,
        ) && time_in_zone(event_views(events@.subrange(0, i + 1))[k].end) by {
            assert(event_views(events@.subrange(0, i + 1))[k] == events@[k]@);
            if k < i {
                assert(event_views(events@.subrange(0, i + 1))[k] == event_views(
                    events@.subrange(0, i as int),
                )[k]);
            }
        }
        i += 1;
    }
    assert(events@.subrange(0, i as int) =~= events@);
    Ok(cal)
}

/// The document of a compiled schedule, or the error that compiling or rendering met.
pub open spec fn rendered(r: Result<Calendar, CompileError>, compiled: Result<Seq<EventView>, CompileError>) -> bool {
    match compiled {
        Err(x) => r == Err::<Calendar, CompileError>(x),
        Ok(evs) => {
            &&& r is Ok == all_in_zone(evs)
            &&& r matches Ok(c) ==> calendar_events(c) == evs
            &&& r matches Err(x) ==> x == CompileError::InvalidDate
        },
    }
}

impl Schedule {
    /// The calendar document of the lessons kept for `request`, in the semester of `year`.
    pub fn to_ical_in_year(&self, cfg: &Config, request: &Request, year: i32) -> (r: Result<
        Calendar,
        CompileError,
    >)
        ensures
            rendered(r, compiled_lessons(self.lessons@, *request, *cfg, year)),
    {
        match self.compile(cfg, request, year) {
            Ok(events) => render(&events),
            Err(x) => Err(x),
        }
    }

    /// The calendar document of the lessons kept for `request`, in the current year.
    pub fn to_ical(&self, cfg: &Config, request: &Request) -> (r: Result<Calendar, CompileError>)
        ensures
            exists|year: i32| rendered(r, compiled_lessons(self.lessons@, *request, *cfg, year)),
    {
        let year = current_year();
        self.to_ical_in_year(cfg, request, year)
    }
}

impl ExamList {
    /// The calendar document of every exam-period event.
    pub fn to_ical(&self) -> (r: Result<Calendar, CompileError>)
        ensures
            rendered(r, compiled_exams(self.exam_period_events@)),
    {
        match self.compile() {
            Ok(events) => render(&events),
            Err(x) => Err(x),
        }
    }
}

} // verus!
