use tulok::course::Course;
use tulok::style::{CellStyle, TermColor};
use tulok::tasks::{
    get_task_styling, has_pending_dependency, pending_positions, pending_tasks_command,
    task_count_command, task_status_line, TaskState, ALL_PENDING_TASKS_COMMAND,
};
use tulok::tmux::{new_session_command, switch_session_command};

#[test]
fn pending_positions_in_order() {
    let statuses = vec![
        TaskState::Completed,
        TaskState::Pending,
        TaskState::Waiting,
        TaskState::Pending,
        TaskState::Deleted,
        TaskState::Recurring,
        TaskState::Pending,
    ];
    assert_eq!(pending_positions(&statuses), vec![1, 3, 6]);
    assert!(pending_positions(&Vec::new()).is_empty());
    assert!(pending_positions(&vec![TaskState::Completed]).is_empty());
}

#[test]
fn pending_dependency_found() {
    let pending = vec![10u128, 20, 30];
    assert!(has_pending_dependency(Some(&vec![5, 20]), &pending));
    assert!(has_pending_dependency(Some(&vec![30]), &pending));
}

#[test]
fn pending_dependency_absent() {
    let pending = vec![10u128, 20, 30];
    assert!(!has_pending_dependency(Some(&vec![5, 6]), &pending));
    assert!(!has_pending_dependency(Some(&vec![]), &pending));
    assert!(!has_pending_dependency(None, &pending));
    assert!(!has_pending_dependency(Some(&vec![10]), &vec![]));
}

#[test]
fn task_styles() {
    assert_eq!(get_task_styling(true), CellStyle { fg: TermColor::Reset, bg: TermColor::DarkGray });
    assert_eq!(get_task_styling(false), CellStyle { fg: TermColor::Black, bg: TermColor::Gray });
}

#[test]
fn task_commands() {
    let c = Course {
        title: "Signals".to_string(),
        short: "SSP".to_string(),
        code: "SC42150".to_string(),
        year: "2023".to_string(),
        quarter: "q1".to_string(),
        url: "u".to_string(),
        active: true,
        credits: "5".to_string(),
    };
    assert_eq!(pending_tasks_command(&c), "task +SC42150 export");
    assert_eq!(ALL_PENDING_TASKS_COMMAND, "task +PENDING project:uni or project:work export");
    assert_eq!(
        task_count_command("READY"),
        "task rc.verbose=none project:uni +READY count | tr -s ' ' | tr -d '\n'"
    );
}

#[test]
fn status_line() {
    assert_eq!(
        task_status_line("12", "3", "4", "5"),
        "Total: 12 / Ready: 3 / Scheduled: 4 / Blocked: 5"
    );
}

#[test]
fn tmux_commands() {
    assert_eq!(
        new_session_command("SC42150-Notes", "/home/gerb/notes/SC42150-SSP"),
        "tmux new-session -ds SC42150-Notes -c /home/gerb/notes/SC42150-SSP"
    );
    assert_eq!(switch_session_command("SC42150-Files"), "tmux switch-client -t SC42150-Files");
}
