use calar::calendar::{keep, CompiledEvent};
use calar::config::{Config, Semester};
use calar::models::{Day, Department, LessonTime, Lesson, Schedule, StudentGroup, Teacher};
use calar::request::Request;
use calar::time::{CompileError, Date, LocalDateTime};

fn department() -> Department {
    Department {
        id: 1,
        full_name: String::from("Faculty of Computer Science"),
        short_name: String::from("CS"),
        url: String::from("knt"),
    }
}

fn group() -> StudentGroup {
    StudentGroup {
        id: 7,
        group_number: String::from("351"),
        group_number_rus: String::from("351"),
        department: department(),
        education_form: String::from("full"),
        group_type: String::from("bachelor"),
    }
}

fn lesson(name: &str, sub_group: &str, day: u32, time: (u32, u32, u32, u32), week: &str) -> Lesson {
    Lesson {
        id: 1,
        name: String::from(name),
        place: String::from("12/305"),
        department: department(),
        student_group: group(),
        sub_group: String::from(sub_group),
        day: Day { id: None, day_number: day, week_day: None },
        lesson_time: LessonTime {
            id: 1,
            lesson_number: 1,
            hour_start: time.0,
            minute_start: time.1,
            hour_end: time.2,
            minute_end: time.3,
        },
        teacher: Teacher {
            id: 3,
            surname: String::from("Ivanov"),
            name: String::from("Ivan"),
            patronymic: String::from("Ivanovich"),
        },
        week_type: String::from(week),
        lesson_type: String::from("LECTURE"),
        updated_timestamp: 0,
        begin_timestamp: None,
        end_timestamp: None,
    }
}

fn request(subgroups: &[&str], translator: bool) -> Request {
    Request {
        department: String::from("knt"),
        form: String::from("full"),
        group: String::from("351"),
        subgroups: subgroups.iter().map(|s| String::from(*s)).collect(),
        translator,
    }
}

fn schedule(lessons: Vec<Lesson>) -> Schedule {
    Schedule { lessons, student_group: group(), day: Day { id: None, day_number: 1, week_day: None } }
}

fn at(year: i32, month: u32, day: u32, hour: u32, minute: u32) -> LocalDateTime {
    LocalDateTime { date: Date { year, month, day }, hour, minute }
}

fn with_start(month: u32, day: u32) -> Config {
    let mut cfg = Config::default();
    cfg.semester = Semester { start_md: (month, day), end_md: (5, 31) };
    cfg
}

// 2022-02-06 lies in ISO week 5, an odd week.
#[test]
fn nom_lesson_in_odd_start_week_is_not_shifted() {
    let cfg = Config::default();
    let e = lesson("Algebra", "", 1, (9, 0, 10, 30), "NOM").to_event(&cfg, 2022).unwrap();
    assert_eq!(e.start, at(2022, 2, 6, 9, 0));
    assert_eq!(e.end, at(2022, 2, 6, 10, 30));
    assert_eq!(e.rrule.as_deref(), Some("FREQ=WEEKLY;INTERVAL=2;UNTIL=20220531T235959"));
}

#[test]
fn denom_lesson_in_odd_start_week_moves_a_week() {
    let cfg = Config::default();
    let e = lesson("Algebra", "", 1, (9, 0, 10, 30), "DENOM").to_event(&cfg, 2022).unwrap();
    assert_eq!(e.start, at(2022, 2, 13, 9, 0));
    assert_eq!(e.end, at(2022, 2, 13, 10, 30));
    assert_eq!(e.rrule.as_deref(), Some("FREQ=WEEKLY;INTERVAL=2;UNTIL=20220531T235959"));
}

#[test]
fn full_lesson_repeats_every_week() {
    let cfg = Config::default();
    let e = lesson("Algebra", "", 2, (13, 30, 15, 0), "FULL").to_event(&cfg, 2023).unwrap();
    assert_eq!(e.start, at(2023, 2, 7, 13, 30));
    assert_eq!(e.rrule.as_deref(), Some("FREQ=WEEKLY;INTERVAL=1;UNTIL=20230531T235959"));
}

#[test]
fn unknown_week_type_repeats_every_second_week() {
    let cfg = Config::default();
    let e = lesson("Algebra", "", 1, (9, 0, 10, 30), "SOMETIMES").to_event(&cfg, 2022).unwrap();
    assert_eq!(e.rrule.as_deref(), Some("FREQ=WEEKLY;INTERVAL=2;UNTIL=20220531T235959"));
    assert_eq!(e.start, at(2022, 2, 13, 9, 0));
}

#[test]
fn even_start_week_shifts_nom_not_denom() {
    // 2023-02-06 lies in ISO week 6.
    let cfg = Config::default();
    let nom = lesson("Algebra", "", 1, (9, 0, 10, 30), "NOM").to_event(&cfg, 2023).unwrap();
    let denom = lesson("Algebra", "", 1, (9, 0, 10, 30), "DENOM").to_event(&cfg, 2023).unwrap();
    assert_eq!(nom.start, at(2023, 2, 13, 9, 0));
    assert_eq!(denom.start, at(2023, 2, 6, 9, 0));
}

#[test]
fn even_start_week_in_another_year() {
    // 2024-02-20 lies in ISO week 8.
    let cfg = with_start(2, 20);
    let nom = lesson("Algebra", "", 1, (9, 0, 10, 30), "NOM").to_event(&cfg, 2024).unwrap();
    let denom = lesson("Algebra", "", 1, (9, 0, 10, 30), "DENOM").to_event(&cfg, 2024).unwrap();
    assert_eq!(nom.start, at(2024, 2, 27, 9, 0));
    assert_eq!(denom.start, at(2024, 2, 20, 9, 0));
}

#[test]
fn lesson_day_rolls_into_next_month() {
    // 2023-02-27 lies in ISO week 9; a DENOM lesson moves a week, past the end of February.
    let cfg = with_start(2, 27);
    let e = lesson("Algebra", "", 3, (9, 0, 10, 30), "DENOM").to_event(&cfg, 2023).unwrap();
    assert_eq!(e.start, at(2023, 3, 8, 9, 0));
    let f = lesson("Algebra", "", 6, (9, 0, 10, 30), "FULL").to_event(&cfg, 2023).unwrap();
    assert_eq!(f.start, at(2023, 3, 4, 9, 0));
}

#[test]
fn event_text_fields() {
    let cfg = Config::default();
    let e = lesson("Algebra", "", 1, (9, 0, 10, 30), "FULL").to_event(&cfg, 2023).unwrap();
    assert_eq!(e.summary, "Algebra (Л)");
    assert_eq!(e.description, "Ivanov Ivan Ivanovich");
    assert_eq!(e.location, "12/305");
}

#[test]
fn invalid_times_and_dates_are_refused() {
    let cfg = Config::default();
    let late = lesson("Algebra", "", 1, (24, 0, 25, 30), "FULL").to_event(&cfg, 2023);
    assert!(matches!(late, Err(CompileError::InvalidDate)));
    let bad = with_start(2, 30);
    let e = lesson("Algebra", "", 1, (9, 0, 10, 30), "FULL").to_event(&bad, 2023);
    assert!(matches!(e, Err(CompileError::InvalidDate)));
    let zero = lesson("Algebra", "", 0, (9, 0, 10, 30), "FULL").to_event(&with_start(2, 1), 2023);
    assert!(matches!(zero, Err(CompileError::InvalidDate)));
}

fn fields(v: &[CompiledEvent]) -> Vec<(LocalDateTime, LocalDateTime, String, Option<String>)> {
    v.iter().map(|e| (e.start, e.end, e.summary.clone(), e.rrule.clone())).collect()
}

#[test]
fn compiling_twice_gives_the_same_events() {
    let cfg = Config::default();
    let s = schedule(vec![
        lesson("Algebra", "", 1, (9, 0, 10, 30), "NOM"),
        lesson("Physics", "1_под.", 2, (10, 45, 12, 15), "DENOM"),
        lesson("Art", "", 5, (8, 20, 9, 50), "FULL"),
    ]);
    let req = request(&[], false);
    let a = s.compile(&cfg, &req, 2023).unwrap();
    let b = s.compile(&cfg, &req, 2023).unwrap();
    assert_eq!(a.len(), 3);
    assert_eq!(fields(&a), fields(&b));
}

#[test]
fn compile_keeps_order_and_duplicates() {
    let cfg = Config::default();
    let s = schedule(vec![
        lesson("Physics", "", 2, (10, 45, 12, 15), "FULL"),
        lesson("Algebra", "", 1, (9, 0, 10, 30), "FULL"),
        lesson("Algebra", "", 1, (9, 0, 10, 30), "FULL"),
    ]);
    let v = s.compile(&cfg, &request(&[], false), 2023).unwrap();
    let names: Vec<&str> = v.iter().map(|e| e.summary.as_str()).collect();
    assert_eq!(names, vec!["Physics (Л)", "Algebra (Л)", "Algebra (Л)"]);
}

#[test]
fn compile_fails_on_a_bad_kept_lesson_only() {
    let cfg = Config::default();
    let s = schedule(vec![
        lesson("Algebra", "", 1, (9, 0, 10, 30), "FULL"),
        lesson("Physics", "2_под.", 2, (30, 0, 31, 0), "FULL"),
    ]);
    let dropped = s.compile(&cfg, &request(&["1_под."], false), 2023).unwrap();
    assert_eq!(dropped.len(), 1);
    let kept = s.compile(&cfg, &request(&["2_под."], false), 2023);
    assert!(matches!(kept, Err(CompileError::InvalidDate)));
}

#[test]
fn empty_request_keeps_every_subgroup() {
    let cfg = Config::default();
    let s = schedule(vec![
        lesson("Algebra", "1_под.", 1, (9, 0, 10, 30), "FULL"),
        lesson("Physics", "", 2, (9, 0, 10, 30), "FULL"),
    ]);
    let v = s.compile(&cfg, &request(&[], false), 2023).unwrap();
    assert_eq!(v.len(), 2);
}

#[test]
fn named_subgroup_drops_the_other_one() {
    let cfg = Config::default();
    let s = schedule(vec![
        lesson("Algebra", "1_под.", 1, (9, 0, 10, 30), "FULL"),
        lesson("Physics", "2_под.", 2, (9, 0, 10, 30), "FULL"),
        lesson("History", "", 3, (9, 0, 10, 30), "FULL"),
    ]);
    let v = s.compile(&cfg, &request(&["1_под."], false), 2023).unwrap();
    let names: Vec<&str> = v.iter().map(|e| e.summary.as_str()).collect();
    assert_eq!(names, vec!["Algebra (Л)", "History (Л)"]);
}

#[test]
fn filter_normalizes_labels() {
    let cfg = Config::default();
    let l = lesson("Algebra", "  1 под. ", 1, (9, 0, 10, 30), "FULL");
    assert!(keep(&l, &request(&["1_под."], false), &cfg));
    assert!(!keep(&l, &request(&["1 под."], false), &cfg));
}

#[test]
fn translator_lessons_need_the_flag() {
    let cfg = Config::default();
    let l = lesson("English (перевод.)", "", 1, (9, 0, 10, 30), "FULL");
    assert!(!keep(&l, &request(&[], false), &cfg));
    assert!(keep(&l, &request(&[], true), &cfg));
    let plain = lesson("English", "", 1, (9, 0, 10, 30), "FULL");
    assert!(keep(&plain, &request(&[], false), &cfg));
}

#[test]
fn schedule_renders_to_icalendar() {
    let cfg = Config::default();
    let s = schedule(vec![lesson("Algebra", "", 1, (9, 0, 10, 30), "NOM")]);
    let cal = s.to_ical_in_year(&cfg, &request(&[], false), 2022).unwrap();
    let text = cal.to_string();
    assert!(text.contains("BEGIN:VEVENT"), "{}", text);
    assert!(text.contains("DTSTART;TZID=Europe/Saratov:20220206T090000"), "{}", text);
    assert!(text.contains("DTEND;TZID=Europe/Saratov:20220206T103000"), "{}", text);
    assert!(text.contains("RRULE:FREQ=WEEKLY;INTERVAL=2;UNTIL=20220531T235959"), "{}", text);
    assert!(text.contains("SUMMARY:Algebra (Л)"));
    assert!(text.contains("LOCATION:12/305"));
}

#[test]
fn schedule_renders_in_the_current_year() {
    let cfg = Config::default();
    let s = schedule(vec![lesson("Algebra", "", 1, (9, 0, 10, 30), "FULL")]);
    let cal = s.to_ical(&cfg, &request(&[], false)).unwrap();
    assert!(cal.to_string().contains("RRULE:FREQ=WEEKLY;INTERVAL=1;UNTIL="));
}

#[test]
fn start_week_parity_decides_the_shift() {
    let cfg = Config::default();
    let nom = lesson("Algebra", "", 1, (9, 0, 10, 30), "NOM");
    let denom = lesson("Algebra", "", 1, (9, 0, 10, 30), "DENOM");
    let full = lesson("Algebra", "", 1, (9, 0, 10, 30), "FULL");
    assert_eq!(nom.to_event_in_week(&cfg, 2025, 7).unwrap().start, at(2025, 2, 6, 9, 0));
    assert_eq!(nom.to_event_in_week(&cfg, 2025, 8).unwrap().start, at(2025, 2, 13, 9, 0));
    assert_eq!(denom.to_event_in_week(&cfg, 2025, 7).unwrap().start, at(2025, 2, 13, 9, 0));
    assert_eq!(denom.to_event_in_week(&cfg, 2025, 8).unwrap().start, at(2025, 2, 6, 9, 0));
    assert_eq!(full.to_event_in_week(&cfg, 2025, 7).unwrap().start, at(2025, 2, 6, 9, 0));
    assert_eq!(full.to_event_in_week(&cfg, 2025, 8).unwrap().start, at(2025, 2, 6, 9, 0));
}

#[test]
fn semester_end_must_exist() {
    let mut cfg = Config::default();
    cfg.semester = Semester { start_md: (2, 6), end_md: (2, 30) };
    let e = lesson("Algebra", "", 1, (9, 0, 10, 30), "FULL").to_event_in_week(&cfg, 2025, 6);
    assert!(matches!(e, Err(CompileError::InvalidDate)));
}

#[test]
fn calendar_holds_exactly_the_kept_lessons() {
    let cfg = Config::default();
    let s = schedule(vec![
        lesson("Algebra", "1_под.", 1, (9, 0, 10, 30), "FULL"),
        lesson("Physics", "2_под.", 2, (9, 0, 10, 30), "FULL"),
        lesson("English (перевод.)", "", 3, (9, 0, 10, 30), "FULL"),
        lesson("History", "", 4, (9, 0, 10, 30), "FULL"),
    ]);
    let text = s.to_ical_in_year(&cfg, &request(&["1_под."], false), 2023).unwrap().to_string();
    assert_eq!(text.matches("BEGIN:VEVENT").count(), 2, "{}", text);
    let first = text.find("SUMMARY:Algebra (Л)").unwrap();
    let second = text.find("SUMMARY:History (Л)").unwrap();
    assert!(first < second);
    assert!(!text.contains("Physics"));
    assert!(!text.contains("English"));
    let all = s.to_ical_in_year(&cfg, &request(&[], true), 2023).unwrap().to_string();
    assert_eq!(all.matches("BEGIN:VEVENT").count(), 4, "{}", all);
}
