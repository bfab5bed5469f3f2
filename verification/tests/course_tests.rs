use tulok::course::{
    convert_quarter_string_to_number, course_code_color, get_color_for_course_code,
    lowercase_quarter_number, prefix_color, primitive_sort_by_quarter, select_active_courses,
    Course, CourseCodeError, COURSES_DIR, COURSE_CODE_PATTERN, NOTES_DIR,
};
use tulok::style::TermColor;

fn course(code: &str, short: &str, quarter: &str, active: bool) -> Course {
    Course {
        title: format!("{} title", code),
        short: short.to_string(),
        code: code.to_string(),
        year: "2023".to_string(),
        quarter: quarter.to_string(),
        url: format!("https://brightspace.example/{}", code),
        active,
        credits: "5".to_string(),
    }
}

#[test]
fn quarter_numbers_of_plain_quarters() {
    assert_eq!(convert_quarter_string_to_number("q1"), Some(1));
    assert_eq!(convert_quarter_string_to_number("q2"), Some(2));
    assert_eq!(convert_quarter_string_to_number("q3"), Some(3));
    assert_eq!(convert_quarter_string_to_number("q4"), Some(4));
}

#[test]
fn quarter_numbers_ignore_case() {
    assert_eq!(convert_quarter_string_to_number("Q2"), Some(2));
    assert_eq!(convert_quarter_string_to_number("Q4"), Some(4));
    assert_eq!(convert_quarter_string_to_number("Q1/Q2"), Some(1));
}

#[test]
fn quarter_numbers_of_spans_are_their_first_quarter() {
    assert_eq!(convert_quarter_string_to_number("q1/q2"), Some(1));
    assert_eq!(convert_quarter_string_to_number("q3/q4"), Some(3));
}

#[test]
fn quarter_numbers_of_other_texts_are_none() {
    assert_eq!(convert_quarter_string_to_number(""), None);
    assert_eq!(convert_quarter_string_to_number("q5"), None);
    assert_eq!(convert_quarter_string_to_number("q2/q3"), None);
    assert_eq!(convert_quarter_string_to_number(" q1"), None);
    assert_eq!(convert_quarter_string_to_number("fall"), None);
}

#[test]
fn lowercase_quarter_number_is_case_sensitive() {
    assert_eq!(lowercase_quarter_number("q4"), Some(4));
    assert_eq!(lowercase_quarter_number("Q4"), None);
}

#[test]
fn sort_puts_highest_quarter_first() {
    let list = vec![
        course("AA1", "a", "Q1", true),
        course("BB2", "b", "q3", true),
        course("CC3", "c", "none", true),
        course("DD4", "d", "Q2", true),
        course("EE5", "e", "q3/q4", true),
        course("FF6", "f", "Q4", true),
    ];
    let sorted = primitive_sort_by_quarter(list);
    let codes: Vec<&str> = sorted.iter().map(|c| c.code.as_str()).collect();
    assert_eq!(codes, vec!["FF6", "EE5", "BB2", "DD4", "AA1", "CC3"]);
}

#[test]
fn sort_of_empty_list_is_empty() {
    assert!(primitive_sort_by_quarter(Vec::new()).is_empty());
}

#[test]
fn sort_keeps_every_course() {
    let list = vec![
        course("AA1", "a", "q2", true),
        course("AA1", "a", "q2", true),
        course("BB2", "b", "q1", false),
        course("CC3", "c", "", true),
    ];
    let sorted = primitive_sort_by_quarter(list.clone());
    assert_eq!(sorted.len(), list.len());
    for c in &list {
        let given = list.iter().filter(|d| *d == c).count();
        let kept = sorted.iter().filter(|d| *d == c).count();
        assert_eq!(given, kept);
    }
}

#[test]
fn sort_reverses_courses_of_one_quarter() {
    let list = vec![
        course("AA1", "a", "q2", true),
        course("BB2", "b", "q2", true),
        course("CC3", "c", "q2", true),
    ];
    let sorted = primitive_sort_by_quarter(list);
    let codes: Vec<&str> = sorted.iter().map(|c| c.code.as_str()).collect();
    assert_eq!(codes, vec!["CC3", "BB2", "AA1"]);
}

#[test]
fn sorted_keys_never_increase() {
    let list = vec![
        course("AA1", "a", "q1", true),
        course("BB2", "b", "q4", true),
        course("CC3", "c", "x", true),
        course("DD4", "d", "q2", true),
        course("EE5", "e", "q1/q2", true),
    ];
    let sorted = primitive_sort_by_quarter(list);
    let keys: Vec<i32> = sorted
        .iter()
        .map(|c| convert_quarter_string_to_number(&c.quarter).unwrap_or(0))
        .collect();
    for w in keys.windows(2) {
        assert!(w[0] >= w[1]);
    }
}

#[test]
fn prefix_colors() {
    assert_eq!(prefix_color("AM"), TermColor::Magenta);
    assert_eq!(prefix_color("TW"), TermColor::Magenta);
    assert_eq!(prefix_color("WI"), TermColor::Magenta);
    assert_eq!(prefix_color("CESE"), TermColor::Red);
    assert_eq!(prefix_color("EE"), TermColor::Red);
    assert_eq!(prefix_color("ET"), TermColor::Red);
    assert_eq!(prefix_color("CS"), TermColor::Cyan);
    assert_eq!(prefix_color("IN"), TermColor::Cyan);
    assert_eq!(prefix_color("CSE"), TermColor::Cyan);
    assert_eq!(prefix_color("RO"), TermColor::Cyan);
    assert_eq!(prefix_color("WB"), TermColor::Yellow);
    assert_eq!(prefix_color("ME"), TermColor::Yellow);
    assert_eq!(prefix_color("SC"), TermColor::Blue);
    assert_eq!(prefix_color("XY"), TermColor::Gray);
    assert_eq!(prefix_color(""), TermColor::Gray);
}

#[test]
fn course_colors_follow_the_code_prefix() {
    assert_eq!(get_color_for_course_code(course("SC42150", "SSP", "q1", true)), TermColor::Blue);
    assert_eq!(get_color_for_course_code(course("CSE1000", "x", "q1", true)), TermColor::Cyan);
    assert_eq!(get_color_for_course_code(course("AM1010", "x", "q1", true)), TermColor::Magenta);
    assert_eq!(get_color_for_course_code(course("CESE4000", "x", "q1", true)), TermColor::Red);
    assert_eq!(get_color_for_course_code(course("WB1234", "x", "q1", true)), TermColor::Yellow);
    assert_eq!(get_color_for_course_code(course("EEMCS12", "x", "q1", true)), TermColor::Gray);
}

#[test]
fn course_color_prefix_is_the_first_upper_case_run() {
    assert_eq!(get_color_for_course_code(course("ab-CS42-WB", "x", "q1", true)), TermColor::Cyan);
    assert_eq!(course_code_color(course("12ME", "x", "q1", true)), Ok(TermColor::Yellow));
}

#[test]
fn course_color_of_code_without_prefix() {
    assert_eq!(course_code_color(course("1234", "x", "q1", true)), Err(CourseCodeError::NoPrefix));
    assert_eq!(course_code_color(course("", "x", "q1", true)), Err(CourseCodeError::NoPrefix));
    assert_eq!(course_code_color(course("SC42150", "x", "q1", true)), Ok(TermColor::Blue));
}

#[test]
fn active_courses_are_kept_in_order() {
    let list = vec![
        course("AA1", "a", "q1", true),
        course("BB2", "b", "q1", false),
        course("CC3", "c", "q1", true),
    ];
    let active = select_active_courses(&list);
    let codes: Vec<&str> = active.iter().map(|c| c.code.as_str()).collect();
    assert_eq!(codes, vec!["AA1", "CC3"]);
    assert!(select_active_courses(&Vec::new()).is_empty());
}

#[test]
fn first_matching_path_picks_the_first_match() {
    let c = course("SC42150", "SSP", "q1", true);
    let paths = vec![
        "/x/SC/SC4215-SSP".to_string(),
        "/x/SC/SC42150-SSP".to_string(),
        "/x/SC/SC42150-SSP-old".to_string(),
    ];
    assert_eq!(c.first_matching_path(&paths), Some(1));
    assert_eq!(c.first_matching_path(&paths[..1].to_vec()), None);
    assert_eq!(c.first_matching_path(&Vec::new()), None);
}

#[test]
fn labels_and_directory_matches() {
    let c = course("SC42150", "SSP", "q1", true);
    assert_eq!(c.label(), "SC42150-SSP");
    assert!(c.dir_matches("/home/gerb/uni/courses/SC/SC42150-SSP"));
    assert!(c.dir_matches("SC42150-SSP"));
    assert!(!c.dir_matches("/home/gerb/uni/courses/SC/SC42150"));
    assert!(!c.dir_matches("/home/gerb/uni/courses/SC/SC42150-SS"));
    assert!(!c.dir_matches(""));
}

#[test]
fn course_info_rows() {
    let c = course("SC42150", "SSP", "q1", false);
    let rows = c.info_rows();
    let expected = vec![
        ("Code: ", "SC42150"),
        ("Title: ", "SC42150 title"),
        ("Year: ", "2023"),
        ("Quarter: ", "q1"),
        ("Active: ", "false"),
        ("ECTS: ", "5"),
    ];
    assert_eq!(rows.len(), expected.len());
    for (row, (label, value)) in rows.iter().zip(expected) {
        assert_eq!(row.0, label);
        assert_eq!(row.1, value);
    }
    assert_eq!(course("X1", "x", "q1", true).info_rows()[4].1, "true");
}

#[test]
fn clone_keeps_every_field() {
    let c = course("SC42150", "SSP", "q1/q2", true);
    assert_eq!(c.clone(), c);
}

#[test]
fn directories_and_pattern() {
    assert_eq!(COURSES_DIR, "/home/gerb/uni/courses/");
    assert_eq!(NOTES_DIR, "/home/gerb/uni/Vault-MSc/");
    assert_eq!(COURSE_CODE_PATTERN, "([A-Z]+)");
}
