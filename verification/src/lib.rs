//! A course dashboard library: course records and their ordering by quarter,
//! the selection state of the course list, the task filters and the shell
//! command lines the dashboard issues.

pub mod text;
pub mod course;
pub mod style;
pub mod app;
pub mod tasks;
pub mod tmux;
pub mod calendar;
