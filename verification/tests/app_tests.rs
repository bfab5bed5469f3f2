use tulok::app::{handle_key, App, KeyInput, SelectionState};
use tulok::course::Course;

fn course(code: &str) -> Course {
    Course {
        title: format!("{} title", code),
        short: "s".to_string(),
        code: code.to_string(),
        year: "2023".to_string(),
        quarter: "q1".to_string(),
        url: format!("https://brightspace.example/{}", code),
        active: true,
        credits: "5".to_string(),
    }
}

fn three() -> App {
    App::new(vec![course("AA1"), course("BB2"), course("CC3")])
}

#[test]
fn new_highlights_the_first_course() {
    let app = three();
    assert_eq!(app.highlighted_course.code, "AA1");
    assert_eq!(app.state.selected(), None);
    assert_eq!(app.state.offset, 0);
    assert_eq!(app.active_courses.len(), 3);
}

#[test]
fn next_walks_and_wraps() {
    let mut app = three();
    app.next();
    assert_eq!(app.state.selected(), Some(0));
    assert_eq!(app.highlighted_course.code, "AA1");
    app.next();
    assert_eq!(app.state.selected(), Some(1));
    assert_eq!(app.highlighted_course.code, "BB2");
    app.next();
    app.next();
    assert_eq!(app.state.selected(), Some(0));
    assert_eq!(app.highlighted_course.code, "AA1");
}

#[test]
fn previous_walks_and_wraps() {
    let mut app = three();
    app.previous();
    assert_eq!(app.state.selected(), Some(0));
    app.previous();
    assert_eq!(app.state.selected(), Some(2));
    assert_eq!(app.highlighted_course.code, "CC3");
    app.previous();
    assert_eq!(app.state.selected(), Some(1));
    assert_eq!(app.highlighted_course.code, "BB2");
}

#[test]
fn next_past_the_end_goes_to_the_first() {
    let mut app = three();
    app.state.select(Some(7));
    app.next();
    assert_eq!(app.state.selected(), Some(0));
    assert_eq!(app.highlighted_course.code, "AA1");
}

#[test]
fn previous_undoes_next_on_a_course_list() {
    for start in 0..3usize {
        let mut app = three();
        app.state.select(Some(start));
        app.update_highlighted_course();
        app.next();
        app.previous();
        assert_eq!(app.state.selected(), Some(start));
        app.previous();
        app.next();
        assert_eq!(app.state.selected(), Some(start));
        assert_eq!(app.highlighted_course.code, app.active_courses[start].code);
    }
}

#[test]
fn one_course_stays_selected() {
    let mut app = App::new(vec![course("AA1")]);
    app.next();
    app.next();
    assert_eq!(app.state.selected(), Some(0));
    app.previous();
    assert_eq!(app.state.selected(), Some(0));
}

#[test]
fn update_highlights_the_selected_course() {
    let mut app = three();
    app.state.select(Some(2));
    assert_eq!(app.highlighted_course.code, "AA1");
    app.update_highlighted_course();
    assert_eq!(app.highlighted_course.code, "CC3");
    app.state.select(None);
    app.update_highlighted_course();
    assert_eq!(app.highlighted_course.code, "AA1");
}

#[test]
fn selection_state_select() {
    let mut state = SelectionState::new();
    state.offset = 4;
    state.select(Some(2));
    assert_eq!(state.selected(), Some(2));
    assert_eq!(state.offset, 4);
    state.select(None);
    assert_eq!(state.selected(), None);
    assert_eq!(state.offset, 0);
}

#[test]
fn keys_drive_the_selection() {
    let mut app = three();
    assert!(!handle_key(&mut app, KeyInput::Char('j')));
    assert!(!handle_key(&mut app, KeyInput::Char('j')));
    assert_eq!(app.state.selected(), Some(1));
    assert!(!handle_key(&mut app, KeyInput::Char('k')));
    assert_eq!(app.state.selected(), Some(0));
    assert_eq!(app.highlighted_course.code, "AA1");
    assert!(!handle_key(&mut app, KeyInput::Char('x')));
    assert!(!handle_key(&mut app, KeyInput::Other));
    assert_eq!(app.state.selected(), Some(0));
    assert!(handle_key(&mut app, KeyInput::Char('q')));
    assert_eq!(app.state.selected(), Some(0));
}

#[test]
fn enter_highlights_the_selected_course() {
    let mut app = three();
    app.state.select(Some(1));
    assert!(!handle_key(&mut app, KeyInput::Enter));
    assert_eq!(app.highlighted_course.code, "BB2");
}

#[test]
fn session_names_and_browser_command() {
    let mut app = three();
    app.next();
    app.next();
    assert_eq!(app.notes_session_name(), "BB2-Notes");
    assert_eq!(app.files_session_name(), "BB2-Files");
    assert_eq!(app.brightspace_command(), "firefox https://brightspace.example/BB2");
}
