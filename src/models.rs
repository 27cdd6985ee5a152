//! The timetable records as the schedule source delivers them.
use vstd::prelude::*;
use vstd::string::*;
use crate::text::same_text;

verus! {

/// The lessons of one student group.
#[derive(Debug)]
pub struct Schedule {
    pub lessons: Vec<Lesson>,
    pub student_group: StudentGroup,
    pub day: Day,
}

/// One recurring class occurrence.
#[derive(Debug)]
pub struct Lesson {
    pub id: u32,
    pub name: String,
    pub place: String,
    pub department: Department,
    pub student_group: StudentGroup,
    /// Subgroup label; empty when the lesson is for every subgroup.
    pub sub_group: String,
    pub day: Day,
    pub lesson_time: LessonTime,
    pub teacher: Teacher,
    /// Parity tag: `FULL`, `NOM` or `DENOM`.
    pub week_type: String,
    pub lesson_type: String,
    pub updated_timestamp: u32,
    pub begin_timestamp: Option<u32>,
    pub end_timestamp: Option<u32>,
}

/// Summary of a lesson: its name and a letter for lecture (`Л`) or practice (`П`).
pub open spec fn lesson_summary(name: Seq<char>, lesson_type: Seq<char>) -> Seq<char> {
    name + " ("@ + (if lesson_type == "LECTURE"@ {
        "Л"@
    } else {
        "П"@
    }) + ")"@
}

impl Lesson {
    pub fn summary(&self) -> (r: String)
        ensures
            r@ == lesson_summary(self.name@, self.lesson_type@),
    {
        let letter = if same_text(self.lesson_type.as_str(), "LECTURE") {
            "Л"
        } else {
            "П"
        };
        let mut r = self.name.clone();
        r.append(" (");
        r.append(letter);
        r.append(")");
        r
    }
}

#[derive(Debug)]
pub struct Department {
    pub id: u32,
    pub full_name: String,
    pub short_name: String,
    pub url: String,
}

#[derive(Debug)]
pub struct StudentGroup {
    pub id: u32,
    pub group_number: String,
    pub group_number_rus: String,
    pub department: Department,
    pub education_form: String,
    pub group_type: String,
}

/// Day of the teaching week; `day_number` counts from 1.
#[derive(Debug)]
pub struct Day {
    pub id: Option<u32>,
    pub day_number: u32,
    pub week_day: Option<String>,
}

#[derive(Debug)]
pub struct LessonTime {
    pub id: u32,
    pub lesson_number: u8,
    pub hour_start: u32,
    pub minute_start: u32,
    pub hour_end: u32,
    pub minute_end: u32,
}

#[derive(Debug)]
pub struct Teacher {
    pub id: u32,
    pub surname: String,
    pub name: String,
    pub patronymic: String,
}

/// Full name of a teacher: surname, name and patronymic separated by spaces.
pub open spec fn full_name(surname: Seq<char>, name: Seq<char>, patronymic: Seq<char>) -> Seq<
    char,
> {
    surname + " "@ + name + " "@ + patronymic
}

impl Teacher {
    pub fn full(&self) -> (r: String)
        ensures
            r@ == full_name(self.surname@, self.name@, self.patronymic@),
    {
        let mut r = self.surname.clone();
        r.append(" ");
        r.append(self.name.as_str());
        r.append(" ");
        r.append(self.patronymic.as_str());
        r
    }
}

#[derive(Debug)]
pub struct DepartmentsList {
    pub departments_list: Vec<Department>,
}

/// The exam period events of one student group.
#[derive(Debug)]
pub struct ExamList {
    pub exam_period_events: Vec<ExamEvent>,
    pub student_group: StudentGroup,
}

/// A single, non-recurring exam-period event.
#[derive(Debug)]
pub struct ExamEvent {
    pub id: u32,
    pub exam_period_event_type: String,
    pub day: u32,
    pub month: Month,
    /// The year as the source writes it, possibly followed by the abbreviation `г.`.
    pub year: String,
    pub hour: u32,
    pub minute: u32,
    pub subject_name: String,
    pub teacher: Teacher,
    pub student_group: StudentGroup,
    pub place: String,
}

/// Summary of an exam-period event: the subject and the display name of its type.
pub open spec fn exam_summary(subject: Seq<char>, kind: Seq<char>) -> Seq<char> {
    subject + " ("@ + exam_kind_name(kind) + ")"@
}

/// Display name of an exam-period event type.
pub open spec fn exam_kind_name(kind: Seq<char>) -> Seq<char> {
    if kind == "CONSULTATION"@ {
        "Консультация"@
    } else if kind == "EXAM"@ {
        "Экзамен"@
    } else if kind == "MIDTERM_WITH_MARK"@ {
        "Зачет с оценкой"@
    } else {
        "Зачет"@
    }
}

impl ExamEvent {
    pub fn summary(&self) -> (r: String)
        ensures
            r@ == exam_summary(self.subject_name@, self.exam_period_event_type@),
    {
        let kind = self.exam_period_event_type.as_str();
        let name = if same_text(kind, "CONSULTATION") {
            "Консультация"
        } else if same_text(kind, "EXAM") {
            "Экзамен"
        } else if same_text(kind, "MIDTERM_WITH_MARK") {
            "Зачет с оценкой"
        } else {
            "Зачет"
        };
        let mut r = self.subject_name.clone();
        r.append(" (");
        r.append(name);
        r.append(")");
        r
    }
}

#[derive(Debug)]
pub struct Month {
    pub number: u32,
    pub rus_nominative: String,
    pub rus_genitive: String,
    pub eng: String,
}

} // verus!
