use calar::cache::{gen_filename, ArtifactKind};
use calar::config::Config;
use calar::models::{Department, Teacher};
use calar::request::Request;
use calar::text::{contains_text, join_texts, matches_label, push_digits, same_text, trim_text};
use calar::time::{is_valid_date, resolve, resolve_day, CompileError, Date, LocalDateTime};

fn req(subgroups: &[&str], translator: bool) -> Request {
    Request {
        department: String::from("knt"),
        form: String::from("full"),
        group: String::from("351"),
        subgroups: subgroups.iter().map(|s| String::from(*s)).collect(),
        translator,
    }
}

#[test]
fn trim_removes_outer_white_space() {
    assert_eq!(trim_text("  1_под. \t\n"), "1_под.");
    assert_eq!(trim_text("   "), "");
    assert_eq!(trim_text("a b"), "a b");
    assert_eq!(trim_text(""), "");
}

#[test]
fn substring_search() {
    assert!(contains_text("English (перевод.)", "(перевод.)"));
    assert!(!contains_text("English", "(перевод.)"));
    assert!(contains_text("abc", ""));
    assert!(!contains_text("", "a"));
    assert!(contains_text("aab", "ab"));
}

#[test]
fn text_equality() {
    assert!(same_text("FULL", "FULL"));
    assert!(!same_text("FULL", "FUL"));
    assert!(!same_text("NOM", "NOX"));
}

#[test]
fn label_keys() {
    assert!(matches_label(" 1 под. ", "1_под."));
    assert!(matches_label("2_под.", "2_под."));
    assert!(!matches_label("2_под.", "1_под."));
}

#[test]
fn joining() {
    let parts = vec![String::from("a"), String::from("bc"), String::from("d")];
    assert_eq!(join_texts(&parts, "_"), "a_bc_d");
    assert_eq!(join_texts(&Vec::new(), "_"), "");
    assert_eq!(join_texts(&vec![String::from("x")], "_"), "x");
}

#[test]
fn padded_digit_output() {
    let mut s = String::from("y=");
    push_digits(&mut s, 2023, 4);
    push_digits(&mut s, 5, 2);
    assert_eq!(s, "y=202305");
    let mut t = String::new();
    push_digits(&mut t, 7, 4);
    assert_eq!(t, "0007");
}

#[test]
fn day_resolution_rolls_over() {
    assert_eq!(resolve_day(2023, 1, 32), Some(Date { year: 2023, month: 2, day: 1 }));
    assert_eq!(resolve_day(2023, 2, 29), Some(Date { year: 2023, month: 3, day: 1 }));
    assert_eq!(resolve_day(2024, 2, 29), Some(Date { year: 2024, month: 2, day: 29 }));
    assert_eq!(resolve_day(2023, 12, 40), Some(Date { year: 2024, month: 1, day: 9 }));
    assert_eq!(resolve_day(2023, 13, 1), None);
    assert_eq!(resolve_day(2023, 5, 0), None);
    assert_eq!(resolve_day(9999, 12, 32), None);
}

#[test]
fn time_resolution() {
    let t = resolve(2023, 5, 31, 23, 59).unwrap();
    assert_eq!(t, LocalDateTime { date: Date { year: 2023, month: 5, day: 31 }, hour: 23, minute: 59 });
    assert_eq!(resolve(2023, 5, 31, 24, 0), Err(CompileError::InvalidDate));
    assert_eq!(resolve(2023, 5, 31, 10, 60), Err(CompileError::InvalidDate));
}

#[test]
fn date_validity() {
    assert!(is_valid_date(2023, 2, 28));
    assert!(!is_valid_date(2023, 2, 29));
    assert!(is_valid_date(2000, 2, 29));
    assert!(!is_valid_date(1900, 2, 29));
    assert!(!is_valid_date(2023, 4, 31));
    assert!(!is_valid_date(0, 1, 1));
}

#[test]
fn default_configuration() {
    let cfg = Config::default();
    assert_eq!(cfg.port, 1414);
    assert_eq!(cfg.app_name, "Calar");
    assert_eq!(cfg.translator_substr, "(перевод.)");
    assert_eq!(cfg.semester.start_md, (2, 6));
    assert_eq!(cfg.semester.end_md, (5, 31));
}

#[test]
fn teacher_full_name() {
    let t = Teacher {
        id: 1,
        surname: String::from("Петров"),
        name: String::from("Пётр"),
        patronymic: String::from("Петрович"),
    };
    assert_eq!(t.full(), "Петров Пётр Петрович");
}

#[test]
fn file_names() {
    let r = req(&["1_под.", "цифровая_кафедра"], false);
    assert_eq!(gen_filename(ArtifactKind::Schedule, &r), "schedule-knt-full-351-1_под._цифровая_кафедра.ics");
    let t = req(&["2_под."], true);
    assert_eq!(gen_filename(ArtifactKind::Schedule, &t), "schedule-knt-full-351-2_под.-t.ics");
    assert_eq!(gen_filename(ArtifactKind::ExamList, &req(&[], false)), "examlist-knt-full-351-.ics");
}

#[test]
fn file_names_follow_subgroup_order() {
    let a = gen_filename(ArtifactKind::Schedule, &req(&["a", "b"], false));
    let b = gen_filename(ArtifactKind::Schedule, &req(&["b", "a"], false));
    assert_ne!(a, b);
}

#[test]
fn cache_error_messages() {
    let e = calar::cache::Error::Write(std::io::Error::new(std::io::ErrorKind::Other, "disk"));
    assert_eq!(e.message(), "failed to write to a file");
    let d = calar::cache::Error::Delete(std::io::Error::new(std::io::ErrorKind::Other, "disk"));
    assert_eq!(d.message(), "failed to delete a file");
    let c = calar::cache::Error::Create(std::io::Error::new(std::io::ErrorKind::Other, "disk"));
    assert_eq!(c.message(), "failed to create a file");
}

#[test]
fn departments_compare_by_url() {
    let d = Department {
        id: 2,
        full_name: String::from("Mechanics"),
        short_name: String::from("MM"),
        url: String::from("mm"),
    };
    assert_eq!(d.url, "mm");
}

#[test]
fn trim_knows_unicode_white_space() {
    assert_eq!(trim_text("\u{3000}\u{a0}label\u{2009}\u{85}"), "label");
    assert_eq!(trim_text("\u{200b}x"), "\u{200b}x");
}
