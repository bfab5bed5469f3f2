use tulok::course::{convert_quarter_string_to_number, primitive_sort_by_quarter, Course};

fn course(code: &str, quarter: &str) -> Course {
    Course {
        title: String::new(),
        short: String::new(),
        code: code.to_string(),
        year: String::new(),
        quarter: quarter.to_string(),
        url: String::new(),
        active: true,
        credits: String::new(),
    }
}

#[test]
fn quarter_numbers_are_between_one_and_four() {
    for q in ["q1", "Q2", "q3", "Q4", "q1/q2", "Q3/Q4", "x", ""] {
        if let Some(n) = convert_quarter_string_to_number(q) {
            assert!((1..=4).contains(&n));
        }
    }
}

#[test]
fn sort_example_orders_by_quarter() {
    let list = vec![course("A", "q2"), course("B", "q4"), course("C", "q1"), course("D", "q4")];
    let once = primitive_sort_by_quarter(list);
    let keys: Vec<i32> =
        once.iter().map(|c| convert_quarter_string_to_number(&c.quarter).unwrap_or(0)).collect();
    assert_eq!(keys, vec![4, 4, 2, 1]);
    let codes: Vec<&str> = once.iter().map(|c| c.code.as_str()).collect();
    assert_eq!(codes, vec!["D", "B", "A", "C"]);
}

#[test]
fn sorting_twice_gives_the_stable_descending_order() {
    let list = vec![
        course("A", "q2"),
        course("B", "q4"),
        course("C", "q2"),
        course("D", "x"),
        course("E", "q4"),
        course("F", "q1"),
        course("G", ""),
    ];
    let twice = primitive_sort_by_quarter(primitive_sort_by_quarter(list));
    let codes: Vec<&str> = twice.iter().map(|c| c.code.as_str()).collect();
    assert_eq!(codes, vec!["B", "E", "A", "C", "F", "D", "G"]);
}

#[test]
fn quarter_numbers_ignore_ascii_case() {
    for q in ["q1", "Q2", "q3/Q4", "Q1/q2", "q4", "x", "", "Q5"] {
        let n = convert_quarter_string_to_number(q);
        assert_eq!(n, convert_quarter_string_to_number(&q.to_ascii_uppercase()));
        assert_eq!(n, convert_quarter_string_to_number(&q.to_ascii_lowercase()));
    }
}
