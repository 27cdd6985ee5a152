//! Lesson filter, recurrence compiler and calendar assembler.
use vstd::prelude::*;
use vstd::string::*;
use crate::config::{Config, Semester};
use crate::models::{exam_summary, full_name, lesson_summary, ExamEvent, ExamList, Lesson, Schedule};
use crate::request::Request;
use crate::text::{
    contains_text, label_key, matches_label, occurs_in, padded_digits, push_digits, same_text,
};
use crate::time::{
    date_digits, days_after, iso_week, iso_week_number, lemma_resolve_after, lemma_resolve_next,
    next_day, resolve_date, push_date_digits, resolve, resolve_time, valid_date,
    is_valid_date, CompileError, Date, LocalDateTime, MAX_YEAR,
};

verus! {

/// One calendar event, as plain values.
#[derive(Debug)]
pub struct CompiledEvent {
    pub start: LocalDateTime,
    pub end: LocalDateTime,
    pub summary: String,
    pub description: String,
    pub location: String,
    /// Recurrence rule of a recurring event.
    pub rrule: Option<String>,
}

/// The contents of a `CompiledEvent`.
pub struct EventView {
    pub start: LocalDateTime,
    pub end: LocalDateTime,
    pub summary: Seq<char>,
    pub description: Seq<char>,
    pub location: Seq<char>,
    pub rrule: Option<Seq<char>>,
}

impl View for CompiledEvent {
    type V = EventView;

    open spec fn view(&self) -> EventView {
        EventView {
            start: self.start,
            end: self.end,
            summary: self.summary@,
            description: self.description@,
            location: self.location@,
            rrule: match self.rrule {
                Some(s) => Some(s@),
                None => None,
            },
        }
    }
}

pub open spec fn event_views(v: Seq<CompiledEvent>) -> Seq<EventView> {
    v.map_values(|e: CompiledEvent| e@)
}

/// The biweekly convention of a lesson.
#[derive(Clone, Copy, Debug, PartialEq, Eq, Structural)]
pub enum Parity {
    /// Every week.
    Full,
    /// Odd teaching weeks.
    Nom,
    /// Even teaching weeks.
    Denom,
}

/// The parity that a `week_type` tag stands for; an unknown tag counts as `Denom`.
pub open spec fn parity_of(week_type: Seq<char>) -> Parity {
    if week_type == "FULL"@ {
        Parity::Full
    } else if week_type == "NOM"@ {
        Parity::Nom
    } else {
        Parity::Denom
    }
}

pub fn parse_parity(week_type: &str) -> (r: Parity)
    ensures
        r == parity_of(week_type@),
{
    if same_text(week_type, "FULL") {
        Parity::Full
    } else if same_text(week_type, "NOM") {
        Parity::Nom
    } else {
        Parity::Denom
    }
}

/// Weeks between two occurrences.
pub open spec fn repeat_interval(p: Parity) -> u32 {
    if p is Full {
        1
    } else {
        2
    }
}

/// Whether the first occurrence is one week after the semester's first week: a `Nom` lesson
/// when the semester starts in an even ISO week, a `Denom` lesson when it starts in an odd one.
pub open spec fn shifted(p: Parity, start_week: u32) -> bool {
    (start_week % 2 == 0 && p is Nom) || (start_week % 2 == 1 && p is Denom)
}

/// `FREQ=WEEKLY;INTERVAL=<interval>;UNTIL=<until>T235959`.
pub open spec fn weekly_rule(interval: u32, until: Date) -> Seq<char> {
    "FREQ=WEEKLY;INTERVAL="@ + padded_digits(interval as nat, 1) + ";UNTIL="@ + date_digits(until)
        + "T235959"@
}

pub open spec fn semester_start(sem: Semester, year: i32) -> Date {
    Date { year, month: sem.start_md.0, day: sem.start_md.1 }
}

pub open spec fn semester_end(sem: Semester, year: i32) -> Date {
    Date { year, month: sem.end_md.0, day: sem.end_md.1 }
}

/// Day of the semester's start month on which a lesson first takes place, before the parity
/// shift; it may run past the month's end.
pub open spec fn naive_day(l: Lesson, sem: Semester) -> int {
    sem.start_md.1 + l.day.day_number - 1
}

/// Day of the semester's start month of a lesson's first occurrence, when the semester starts
/// in ISO week `week`.
pub open spec fn first_day(l: Lesson, sem: Semester, week: u32) -> int {
    naive_day(l, sem) + if shifted(parity_of(l.week_type@), week) {
        7int
    } else {
        0int
    }
}

/// Recurrence compiler: the event of a lesson in the semester of `year`.
pub open spec fn compiled_lesson(l: Lesson, sem: Semester, year: i32) -> Result<
    EventView,
    CompileError,
> {
    lesson_event(l, sem, year, iso_week_number(year, sem.start_md.0, sem.start_md.1))
}

/// The event of a lesson in the semester of `year`, when the semester starts in ISO week `week`.
pub open spec fn lesson_event(l: Lesson, sem: Semester, year: i32, week: u32) -> Result<
    EventView,
    CompileError,
> {
    if !valid_date(semester_start(sem, year)) || !valid_date(semester_end(sem, year)) {
        Err(CompileError::InvalidDate)
    } else {
        let day = first_day(l, sem, week);
        let t = l.lesson_time;
        let start = resolve_time(
            year as int,
            sem.start_md.0 as int,
            day,
            t.hour_start as int,
            t.minute_start as int,
        );
        let end = resolve_time(
            year as int,
            sem.start_md.0 as int,
            day,
            t.hour_end as int,
            t.minute_end as int,
        );
        match (start, end) {
            (Ok(s), Ok(e)) => Ok(
                EventView {
                    start: s,
                    end: e,
                    summary: lesson_summary(l.name@, l.lesson_type@),
                    description: full_name(l.teacher.surname@, l.teacher.name@, l.teacher.patronymic@),
                    location: l.place@,
                    rrule: Some(
                        weekly_rule(repeat_interval(parity_of(l.week_type@)), semester_end(sem, year)),
                    ),
                },
            ),
            _ => Err(CompileError::InvalidDate),
        }
    }
}

/// Whether `r` is the outcome that `spec` describes.
pub open spec fn event_outcome(
    r: Result<CompiledEvent, CompileError>,
    spec: Result<EventView, CompileError>,
) -> bool {
    match r {
        Ok(e) => spec == Ok::<EventView, CompileError>(e@),
        Err(x) => spec == Err::<EventView, CompileError>(x),
    }
}

fn push_rule(out: &mut String, interval: u32, until: Date)
    requires
        1 <= interval <= 2,
        valid_date(until),
    ensures
        final(out)@ == old(out)@ + weekly_rule(interval, until),
{
    out.append("FREQ=WEEKLY;INTERVAL=");
    push_digits(out, interval, 1);
    out.append(";UNTIL=");
    push_date_digits(out, until);
    out.append("T235959");
    assert(final(out)@ =~= old(out)@ + weekly_rule(interval, until));
}

impl Lesson {
    /// Compiles the lesson into one recurring event of the semester of `year`.
    pub fn to_event(&self, cfg: &Config, year: i32) -> (r: Result<CompiledEvent, CompileError>)
        ensures
            event_outcome(r, compiled_lesson(*self, cfg.semester, year)),
    {
        let sem = cfg.semester;
        if !is_valid_date(year, sem.start_md.0, sem.start_md.1) {
            return Err(CompileError::InvalidDate);
        }
        let week = iso_week(Date { year, month: sem.start_md.0, day: sem.start_md.1 });
        self.to_event_in_week(cfg, year, week)
    }

    /// Compiles the lesson into one recurring event of the semester of `year`, which starts in
    /// ISO week `week`.
    pub fn to_event_in_week(&self, cfg: &Config, year: i32, week: u32) -> (r: Result<
        CompiledEvent,
        CompileError,
    >)
        ensures
            event_outcome(r, lesson_event(*self, cfg.semester, year, week)),
    {
        let sem = cfg.semester;
        if !is_valid_date(year, sem.start_md.0, sem.start_md.1) || !is_valid_date(
            year,
            sem.end_md.0,
            sem.end_md.1,
        ) {
            return Err(CompileError::InvalidDate);
        }
        let end_date = Date { year, month: sem.end_md.0, day: sem.end_md.1 };
        let parity = parse_parity(self.week_type.as_str());
        let interval: u32 = match parity {
            Parity::Full => 1,
            _ => 2,
        };
        let shift = (week % 2 == 0 && parity == Parity::Nom) || (week % 2 == 1 && parity
            == Parity::Denom);
        let day: u64 = sem.start_md.1 as u64 + self.day.day_number as u64 + if shift {
            7
        } else {
            0
        };
        if day == 0 {
            return Err(CompileError::InvalidDate);
        }
        let t = &self.lesson_time;
        let start = match resolve(year, sem.start_md.0, day - 1, t.hour_start, t.minute_start) {
            Ok(s) => s,
            Err(e) => {
                return Err(e);
            },
        };
        let end = match resolve(year, sem.start_md.0, day - 1, t.hour_end, t.minute_end) {
            Ok(s) => s,
            Err(e) => {
                return Err(e);
            },
        };
        let mut rule = String::new();
        push_rule(&mut rule, interval, end_date);
        Ok(
            CompiledEvent {
                start,
                end,
                summary: self.summary(),
                description: self.teacher.full(),
                location: self.place.clone(),
                rrule: Some(rule),
            },
        )
    }
}

/// Whether one of `subgroups` equals the comparison key of `label`.
pub open spec fn in_subgroups(label: Seq<char>, subgroups: Seq<String>) -> bool {
    exists|i: int| 0 <= i < subgroups.len() && #[trigger] subgroups[i]@ == label_key(label)
}

/// Lesson filter: the subgroup rule and the translator rule together.
pub open spec fn kept(l: Lesson, req: Request, marker: Seq<char>) -> bool {
    &&& (req.subgroups@.len() == 0 || l.sub_group@.len() == 0 || in_subgroups(
        l.sub_group@,
        req.subgroups@,
    ))
    &&& (!occurs_in(marker, l.name@) || req.translator)
}

/// Whether `lesson` belongs in the calendar that `request` asks for.
pub fn keep(lesson: &Lesson, request: &Request, cfg: &Config) -> (r: bool)
    ensures
        r == kept(*lesson, *request, cfg.translator_substr@),
{
    let mut same_subgroup = false;
    let mut i: usize = 0;
    while i < request.subgroups.len()
        invariant
            i <= request.subgroups@.len(),
            same_subgroup == exists|k: int|
                0 <= k < i && #[trigger] request.subgroups@[k]@ == label_key(lesson.sub_group@),
        decreases request.subgroups@.len() - i,
    {
        if matches_label(lesson.sub_group.as_str(), request.subgroups[i].as_str()) {
            same_subgroup = true;
        }
        i += 1;
    }
    let subgroup_ok = request.subgroups.len() == 0 || lesson.sub_group.unicode_len() == 0
        || same_subgroup;
    let translator_ok = !contains_text(lesson.name.as_str(), cfg.translator_substr.as_str())
        || request.translator;
    subgroup_ok && translator_ok
}

/// Calendar assembler: the events of the kept lessons, in order; the first lesson that fails
/// to compile fails the whole document.
pub open spec fn compiled_lessons(ls: Seq<Lesson>, req: Request, cfg: Config, year: i32) -> Result<
    Seq<EventView>,
    CompileError,
>
    decreases ls.len(),
{
    if ls.len() == 0 {
        Ok(Seq::empty())
    } else {
        match compiled_lessons(ls.drop_last(), req, cfg, year) {
            Err(e) => Err(e),
            Ok(prev) => if kept(ls.last(), req, cfg.translator_substr@) {
                match compiled_lesson(ls.last(), cfg.semester, year) {
                    Ok(e) => Ok(prev.push(e)),
                    Err(e) => Err(e),
                }
            } else {
                Ok(prev)
            },
        }
    }
}

/// Whether `r` is the outcome that `spec` describes.
pub open spec fn events_outcome(
    r: Result<Vec<CompiledEvent>, CompileError>,
    spec: Result<Seq<EventView>, CompileError>,
) -> bool {
    match r {
        Ok(v) => spec == Ok::<Seq<EventView>, CompileError>(event_views(v@)),
        Err(x) => spec == Err::<Seq<EventView>, CompileError>(x),
    }
}

proof fn lemma_failure_stays(ls: Seq<Lesson>, k: int, req: Request, cfg: Config, year: i32)
    requires
        0 <= k <= ls.len(),
        compiled_lessons(ls.subrange(0, k), req, cfg, year) is Err,
    ensures
        compiled_lessons(ls, req, cfg, year) == compiled_lessons(ls.subrange(0, k), req, cfg, year),
    decreases ls.len(),
{
    if ls.len() == k {
        assert(ls.subrange(0, k) =~= ls);
    } else {
        assert(ls.drop_last().subrange(0, k) =~= ls.subrange(0, k));
        lemma_failure_stays(ls.drop_last(), k, req, cfg, year);
    }
}

impl Schedule {
    /// Compiles the kept lessons of the schedule, in order, for the semester of `year`.
    pub fn compile(&self, cfg: &Config, request: &Request, year: i32) -> (r: Result<
        Vec<CompiledEvent>,
        CompileError,
    >)
        ensures
            events_outcome(r, compiled_lessons(self.lessons@, *request, *cfg, year)),
    {
        let mut out: Vec<CompiledEvent> = Vec::new();
        let mut i: usize = 0;
        assert(self.lessons@.subrange(0, 0) =~= Seq::<Lesson>::empty());
        assert(event_views(out@) =~= Seq::<EventView>::empty());
        while i < self.lessons.len()
            invariant
                i <= self.lessons@.len(),
                compiled_lessons(self.lessons@.subrange(0, i as int), *request, *cfg, year) == Ok::<
                    Seq<EventView>,
                    CompileError,
                >(event_views(out@)),
            decreases self.lessons@.len() - i,
        {
            let lesson = &self.lessons[i];
            proof {
                assert(self.lessons@.subrange(0, i + 1).drop_last() =~= self.lessons@.subrange(
                    0,
                    i as int,
                ));
                assert(self.lessons@.subrange(0, i + 1).last() == *lesson);
            }
            if keep(lesson, request, cfg) {
                match lesson.to_event(cfg, year) {
                    Ok(e) => {
                        let ghost before = out@;
                        out.push(e);
                        assert(event_views(out@) =~= event_views(before).push(e@));
                    },
                    Err(x) => {
                        proof {
                            lemma_failure_stays(self.lessons@, i + 1, *request, *cfg, year);
                        }
                        return Err(x);
                    },
                }
            }
            i += 1;
        }
        assert(self.lessons@.subrange(0, i as int) =~= self.lessons@);
        Ok(out)
    }
}


/// A compiled lesson repeats every week when its tag is `FULL`, and every second week for any
/// other tag, until the last day of the semester.
pub proof fn lemma_repeat_interval(l: Lesson, sem: Semester, year: i32)
    ensures
        compiled_lesson(l, sem, year) matches Ok(e) ==> e.rrule == Some(
            weekly_rule(
                if l.week_type@ == "FULL"@ {
                    1u32
                } else {
                    2u32
                },
                semester_end(sem, year),
            ),
        ),
{
}

/// When the semester starts in an even ISO week, a `NOM` lesson first takes place one week after
/// its naive date and a `DENOM` lesson on it; when it starts in an odd week, the reverse. A
/// `FULL` lesson always starts on its naive date.
pub proof fn lemma_parity_shift(l: Lesson, sem: Semester, year: i32)
    requires
        compiled_lesson(l, sem, year) is Ok,
    ensures
        ({
            let week = iso_week_number(year, sem.start_md.0, sem.start_md.1);
            let e = compiled_lesson(l, sem, year)->Ok_0;
            let t = l.lesson_time;
            let m = sem.start_md.0 as int;
            let d = naive_day(l, sem);
            let naive = resolve_time(year as int, m, d, t.hour_start as int, t.minute_start as int);
            let later = resolve_time(
                year as int,
                m,
                d + 7,
                t.hour_start as int,
                t.minute_start as int,
            );
            let naive_end = resolve_time(year as int, m, d, t.hour_end as int, t.minute_end as int);
            let later_end = resolve_time(
                year as int,
                m,
                d + 7,
                t.hour_end as int,
                t.minute_end as int,
            );
            &&& (week % 2 == 0 && l.week_type@ == "NOM"@) ==> later == Ok::<
                LocalDateTime,
                CompileError,
            >(e.start) && later_end == Ok::<LocalDateTime, CompileError>(e.end)
            &&& (week % 2 == 0 && l.week_type@ == "DENOM"@) ==> naive == Ok::<
                LocalDateTime,
                CompileError,
            >(e.start) && naive_end == Ok::<LocalDateTime, CompileError>(e.end)
            &&& (week % 2 == 1 && l.week_type@ == "NOM"@) ==> naive == Ok::<
                LocalDateTime,
                CompileError,
            >(e.start) && naive_end == Ok::<LocalDateTime, CompileError>(e.end)
            &&& (week % 2 == 1 && l.week_type@ == "DENOM"@) ==> later == Ok::<
                LocalDateTime,
                CompileError,
            >(e.start) && later_end == Ok::<LocalDateTime, CompileError>(e.end)
            &&& l.week_type@ == "FULL"@ ==> naive == Ok::<LocalDateTime, CompileError>(e.start)
                && naive_end == Ok::<LocalDateTime, CompileError>(e.end)
        }),
{
    reveal_strlit("FULL");
    reveal_strlit("NOM");
    reveal_strlit("DENOM");
    assert("FULL"@ != "NOM"@ && "FULL"@ != "DENOM"@ && "NOM"@ != "DENOM"@) by {
        assert("FULL"@.len() != "NOM"@.len());
        assert("FULL"@[0] != "DENOM"@[0]);
        assert("NOM"@.len() != "DENOM"@.len());
    }
}

/// A first occurrence that the parity rule moves falls exactly seven calendar days after the
/// lesson's naive date, at the same times of day.
pub proof fn lemma_shift_is_one_week(l: Lesson, sem: Semester, year: i32)
    requires
        compiled_lesson(l, sem, year) is Ok,
        naive_day(l, sem) >= 1,
        shifted(parity_of(l.week_type@), iso_week_number(year, sem.start_md.0, sem.start_md.1)),
    ensures
        resolve_date(year as int, sem.start_md.0 as int, naive_day(l, sem)) matches Some(d) && ({
            let e = compiled_lesson(l, sem, year)->Ok_0;
            &&& e.start.date == days_after(d, 7)
            &&& e.end.date == days_after(d, 7)
            &&& e.start.hour == l.lesson_time.hour_start && e.start.minute
                == l.lesson_time.minute_start
            &&& e.end.hour == l.lesson_time.hour_end && e.end.minute == l.lesson_time.minute_end
        }),
{
    lemma_resolve_after(year as int, sem.start_md.0 as int, naive_day(l, sem), 7);
}

/// Compiling the same schedule for the same request, configuration and year twice gives the
/// same events, or the same error.
pub proof fn lemma_compile_deterministic(
    s: Schedule,
    req: Request,
    cfg: Config,
    year: i32,
    first: Result<Vec<CompiledEvent>, CompileError>,
    second: Result<Vec<CompiledEvent>, CompileError>,
)
    requires
        events_outcome(first, compiled_lessons(s.lessons@, req, cfg, year)),
        events_outcome(second, compiled_lessons(s.lessons@, req, cfg, year)),
    ensures
        match (first, second) {
            (Ok(a), Ok(b)) => event_views(a@) == event_views(b@),
            (Err(x), Err(y)) => x == y,
            _ => false,
        },
{
}

/// Subgroup rule: a lesson without a subgroup label, or with one that the request names, is kept
/// when the translator rule lets it through; a labelled lesson that a non-empty request does not
/// name is dropped.
pub proof fn lemma_subgroup_rule(l: Lesson, req: Request, marker: Seq<char>)
    ensures
        (l.sub_group@.len() == 0 && (!occurs_in(marker, l.name@) || req.translator)) ==> kept(
            l,
            req,
            marker,
        ),
        (in_subgroups(l.sub_group@, req.subgroups@) && (!occurs_in(marker, l.name@)
            || req.translator)) ==> kept(l, req, marker),
        (req.subgroups@.len() > 0 && l.sub_group@.len() > 0 && !in_subgroups(
            l.sub_group@,
            req.subgroups@,
        )) ==> !kept(l, req, marker),
{
}

/// Translator rule: a lesson whose name holds the marker is dropped unless the request asks for
/// the translator section; when it does, the subgroup rule alone decides.
pub proof fn lemma_translator_rule(l: Lesson, req: Request, marker: Seq<char>)
    ensures
        (occurs_in(marker, l.name@) && !req.translator) ==> !kept(l, req, marker),
        req.translator ==> (kept(l, req, marker) <==> (req.subgroups@.len() == 0
            || l.sub_group@.len() == 0 || in_subgroups(l.sub_group@, req.subgroups@))),
{
}

/// Whether `c` is an ASCII decimal digit.
pub open spec fn is_digit(c: char) -> bool {
    '0' <= c <= '9'
}

/// The value of a run of decimal digits.
pub open spec fn digits_value(s: Seq<char>) -> int
    decreases s.len(),
{
    if s.len() == 0 {
        0
    } else {
        digits_value(s.drop_last()) * 10 + (s.last() as u32 - '0' as u32)
    }
}

/// `s` with every `г.` (the abbreviation of "year") removed, from left to right.
pub open spec fn without_year_mark(s: Seq<char>) -> Seq<char>
    decreases s.len(),
{
    if s.len() == 0 {
        Seq::empty()
    } else if s.len() >= 2 && s[0] == 'г' && s[1] == '.' {
        without_year_mark(s.subrange(2, s.len() as int))
    } else {
        seq![s[0]] + without_year_mark(s.drop_first())
    }
}

/// The digits of a year as the exam source writes it: without any `г.`, and without a leading
/// `+`.
pub open spec fn year_digits(s: Seq<char>) -> Seq<char> {
    let t = without_year_mark(s);
    if t.len() > 0 && t[0] == '+' {
        t.drop_first()
    } else {
        t
    }
}

/// The year of an exam-period event, where its text without `г.` is an optional `+` and the
/// decimal digits of a supported year.
pub open spec fn exam_year(s: Seq<char>) -> Option<i32> {
    let d = year_digits(s);
    if d.len() > 0 && (forall|i: int| 0 <= i < d.len() ==> is_digit(#[trigger] d[i]))
        && digits_value(d) <= MAX_YEAR {
        Some(digits_value(d) as i32)
    } else {
        None
    }
}

/// The characters of `s` with every `г.` removed.
fn strip_year_mark(s: &str) -> (r: Vec<char>)
    ensures
        r@ == without_year_mark(s@),
{
    let n = s.unicode_len();
    let mut out: Vec<char> = Vec::new();
    let mut i: usize = 0;
    assert(s@.subrange(0, n as int) =~= s@);
    assert(out@ + without_year_mark(s@) =~= without_year_mark(s@));
    while i < n
        invariant
            n == s@.len(),
            i <= n,
            without_year_mark(s@) == out@ + without_year_mark(s@.subrange(i as int, n as int)),
        decreases n - i,
    {
        let ghost rest = s@.subrange(i as int, n as int);
        let c = s.get_char(i);
        assert(rest[0] == c);
        if c == 'г' && i + 1 < n && s.get_char(i + 1) == '.' {
            assert(rest[1] == s@[i + 1]);
            assert(rest.subrange(2, rest.len() as int) =~= s@.subrange(i + 2, n as int));
            i += 2;
        } else {
            if i + 1 < n {
                assert(rest[1] == s@[i + 1]);
            }
            assert(rest.drop_first() =~= s@.subrange(i + 1, n as int));
            let ghost before = out@;
            out.push(c);
            assert(before + without_year_mark(rest) =~= out@ + without_year_mark(
                s@.subrange(i + 1, n as int),
            ));
            i += 1;
        }
    }
    assert(out@ + without_year_mark(s@.subrange(n as int, n as int)) =~= out@);
    out
}

proof fn lemma_digits_prefix(s: Seq<char>, k: int)
    requires
        0 <= k <= s.len(),
        forall|i: int| 0 <= i < s.len() ==> is_digit(#[trigger] s[i]),
    ensures
        digits_value(s) >= digits_value(s.subrange(0, k)) >= 0,
    decreases s.len(),
{
    if k == s.len() {
        assert(s.subrange(0, k) =~= s);
        if s.len() > 0 {
            lemma_digits_prefix(s.drop_last(), k - 1);
            assert(s.drop_last().subrange(0, k - 1) =~= s.drop_last());
        }
    } else {
        assert(s.drop_last().subrange(0, k) =~= s.subrange(0, k));
        lemma_digits_prefix(s.drop_last(), k);
    }
}

/// Reads the year of an exam-period event.
pub fn parse_exam_year(s: &str) -> (r: Option<i32>)
    ensures
        r == exam_year(s@),
{
    let t = strip_year_mark(s);
    let end = t.len();
    let start: usize = if end > 0 && t[0] == '+' {
        1
    } else {
        0
    };
    let ghost d = year_digits(s@);
    assert(d =~= t@.subrange(start as int, end as int));
    if start == end {
        return None;
    }
    let mut v: u32 = 0;
    let mut i: usize = start;
    while i < end
        invariant
            end == t@.len(),
            start <= i <= end,
            d == t@.subrange(start as int, end as int),
            d == year_digits(s@),
            d.len() > 0,
            v <= MAX_YEAR,
            v == digits_value(d.subrange(0, i - start)),
            forall|k: int| 0 <= k < i - start ==> is_digit(#[trigger] d[k]),
        decreases end - i,
    {
        let c = t[i];
        assert(d[i - start] == c);
        if c < '0' || c > '9' {
            return None;
        }
        assert(d.subrange(0, i - start + 1).drop_last() =~= d.subrange(0, i - start));
        v = v * 10 + (c as u32 - '0' as u32);
        if v > 9999 {
            proof {
                assert forall|k: int| 0 <= k < i - start + 1 implies is_digit(
                    #[trigger] d.subrange(0, i - start + 1)[k],
                ) by {}
                if forall|k: int| 0 <= k < d.len() ==> is_digit(#[trigger] d[k]) {
                    lemma_digits_prefix(d, i - start + 1);
                }
            }
            return None;
        }
        i += 1;
    }
    assert(d.subrange(0, end - start) =~= d);
    Some(v as i32)
}

/// The event of an exam-period occurrence: two hours from its start.
pub open spec fn compiled_exam(e: ExamEvent) -> Result<EventView, CompileError> {
    match exam_year(e.year@) {
        None => Err(CompileError::InvalidDate),
        Some(y) => {
            let start = resolve_time(
                y as int,
                e.month.number as int,
                e.day as int,
                e.hour as int,
                e.minute as int,
            );
            let end = resolve_time(
                y as int,
                e.month.number as int,
                e.day + (e.hour + 2) / 24,
                (e.hour + 2) % 24,
                e.minute as int,
            );
            match (start, end) {
                (Ok(s), Ok(t)) => Ok(
                    EventView {
                        start: s,
                        end: t,
                        summary: exam_summary(e.subject_name@, e.exam_period_event_type@),
                        description: full_name(
                            e.teacher.surname@,
                            e.teacher.name@,
                            e.teacher.patronymic@,
                        ),
                        location: e.place@,
                        rrule: None,
                    },
                ),
                _ => Err(CompileError::InvalidDate),
            }
        },
    }
}

impl ExamEvent {
    /// Compiles the exam-period event into a single two-hour event.
    pub fn to_event(&self) -> (r: Result<CompiledEvent, CompileError>)
        ensures
            event_outcome(r, compiled_exam(*self)),
    {
        let year = match parse_exam_year(self.year.as_str()) {
            Some(y) => y,
            None => {
                return Err(CompileError::InvalidDate);
            },
        };
        let start = match resolve(year, self.month.number, self.day as u64, self.hour, self.minute) {
            Ok(t) => t,
            Err(x) => {
                return Err(x);
            },
        };
        let later = self.hour as u64 + 2;
        let end = match resolve(
            year,
            self.month.number,
            self.day as u64 + later / 24,
            (later % 24) as u32,
            self.minute,
        ) {
            Ok(t) => t,
            Err(x) => {
                return Err(x);
            },
        };
        Ok(
            CompiledEvent {
                start,
                end,
                summary: self.summary(),
                description: self.teacher.full(),
                location: self.place.clone(),
                rrule: None,
            },
        )
    }
}

/// An exam-period event lasts two hours: it ends two hours after it starts, on the next calendar
/// day when that passes midnight.
pub proof fn lemma_exam_two_hours(e: ExamEvent)
    requires
        compiled_exam(e) is Ok,
    ensures
        ({
            let v = compiled_exam(e)->Ok_0;
            &&& v.end.minute == v.start.minute
            &&& v.start.hour + 2 < 24 ==> v.end.date == v.start.date && v.end.hour == v.start.hour
                + 2
            &&& v.start.hour + 2 >= 24 ==> v.end.date == next_day(v.start.date) && v.end.hour
                == v.start.hour + 2 - 24
        }),
{
    let y = exam_year(e.year@)->0;
    if e.hour + 2 >= 24 {
        lemma_resolve_next(y as int, e.month.number as int, e.day as int);
    }
}

/// The events of all exam-period occurrences, in order; the first that fails to compile fails
/// the whole document.
pub open spec fn compiled_exams(es: Seq<ExamEvent>) -> Result<Seq<EventView>, CompileError>
    decreases es.len(),
{
    if es.len() == 0 {
        Ok(Seq::empty())
    } else {
        match compiled_exams(es.drop_last()) {
            Err(x) => Err(x),
            Ok(prev) => match compiled_exam(es.last()) {
                Ok(e) => Ok(prev.push(e)),
                Err(x) => Err(x),
            },
        }
    }
}

proof fn lemma_exam_failure_stays(es: Seq<ExamEvent>, k: int)
    requires
        0 <= k <= es.len(),
        compiled_exams(es.subrange(0, k)) is Err,
    ensures
        compiled_exams(es) == compiled_exams(es.subrange(0, k)),
    decreases es.len(),
{
    if es.len() == k {
        assert(es.subrange(0, k) =~= es);
    } else {
        assert(es.drop_last().subrange(0, k) =~= es.subrange(0, k));
        lemma_exam_failure_stays(es.drop_last(), k);
    }
}

impl ExamList {
    /// Compiles every exam-period event, in order.
    pub fn compile(&self) -> (r: Result<Vec<CompiledEvent>, CompileError>)
        ensures
            events_outcome(r, compiled_exams(self.exam_period_events@)),
    {
        let mut out: Vec<CompiledEvent> = Vec::new();
        let mut i: usize = 0;
        assert(self.exam_period_events@.subrange(0, 0) =~= Seq::<ExamEvent>::empty());
        assert(event_views(out@) =~= Seq::<EventView>::empty());
        while i < self.exam_period_events.len()
            invariant
                i <= self.exam_period_events@.len(),
                compiled_exams(self.exam_period_events@.subrange(0, i as int)) == Ok::<
                    Seq<EventView>,
                    CompileError,
                >(event_views(out@)),
            decreases self.exam_period_events@.len() - i,
        {
            let exam = &self.exam_period_events[i];
            proof {
                assert(self.exam_period_events@.subrange(0, i + 1).drop_last()
                    =~= self.exam_period_events@.subrange(0, i as int));
                assert(self.exam_period_events@.subrange(0, i + 1).last() == *exam);
            }
            match exam.to_event() {
                Ok(e) => {
                    let ghost before = out@;
                    out.push(e);
                    assert(event_views(out@) =~= event_views(before).push(e@));
                },
                Err(x) => {
                    proof {
                        lemma_exam_failure_stays(self.exam_period_events@, i + 1);
                    }
                    return Err(x);
                },
            }
            i += 1;
        }
        assert(self.exam_period_events@.subrange(0, i as int) =~= self.exam_period_events@);
        Ok(out)
    }
}

} // verus!
