//! The dashboard's state: the active courses, which of them is selected in the
//! course table, and which one is highlighted; and how keys move the selection.

use vstd::prelude::*;

use core::convert::Infallible;

use crate::course::Course;

verus! {

/// The routes of the dashboard. None is defined yet, so the type has no
/// values: its one variant carries an `Infallible`, which has none.
#[derive(Debug)]
pub enum RouteId {
    Undefined(Infallible),
}

/// The blocks of the dashboard. None is defined yet, so the type has no
/// values: its one variant carries an `Infallible`, which has none.
#[derive(Debug)]
pub enum ActiveBlock {
    Undefined(Infallible),
}

/// A route with its active and hovered block.
#[derive(Debug)]
pub struct Route {
    pub id: RouteId,
    pub active_block: ActiveBlock,
    pub hovered_block: ActiveBlock,
}

/// Selection state of a table: the first row shown and the selected row.
#[derive(Clone, Copy, PartialEq, Eq, Debug, Structural)]
pub struct SelectionState {
    pub offset: usize,
    pub selected: Option<usize>,
}

impl SelectionState {
    /// No row selected, shown from the first row on.
    pub fn new() -> (state: Self)
        ensures
            state.offset == 0,
            state.selected is None,
    {
        SelectionState { offset: 0, selected: None }
    }

    /// The selected row.
    pub fn selected(&self) -> (index: Option<usize>)
        ensures
            index == self.selected,
    {
        self.selected
    }

    /// Selects a row, or none; selecting none also scrolls back to the first row.
    pub fn select(&mut self, index: Option<usize>)
        ensures
            final(self).selected == index,
            final(self).offset == (if index is None {
                0
            } else {
                old(self).offset
            }),
    {
        self.selected = index;
        if index.is_none() {
            self.offset = 0;
        }
    }
}

/// The row that follows `selected` in a table of `len` rows, wrapping from the
/// last row (or any row past it) to the first; with nothing selected, the first.
pub open spec fn next_index(selected: Option<usize>, len: nat) -> usize {
    match selected {
        Some(i) => if i >= len - 1 {
            0
        } else {
            (i + 1) as usize
        },
        None => 0,
    }
}

/// The row before `selected` in a table of `len` rows, wrapping from the first
/// row to the last; with nothing selected, the first.
pub open spec fn previous_index(selected: Option<usize>, len: nat) -> usize {
    match selected {
        Some(i) => if i == 0 {
            (len - 1) as usize
        } else {
            (i - 1) as usize
        },
        None => 0,
    }
}

/// The row that is highlighted: the selected one, or the first.
pub open spec fn highlight_index(selected: Option<usize>) -> int {
    match selected {
        Some(i) => i as int,
        None => 0,
    }
}

/// The dashboard's state.
pub struct App {
    pub highlighted_course: Course,
    pub active_courses: Vec<Course>,
    pub state: SelectionState,
}

/// A key press, as far as the dashboard tells keys apart.
#[derive(Clone, Copy, PartialEq, Eq, Debug, Structural)]
pub enum KeyInput {
    Char(char),
    Enter,
    Other,
}

impl App {
    /// There are courses, and the selection, if any, is one of them.
    pub open spec fn selection_in_range(&self) -> bool {
        &&& self.active_courses@.len() > 0
        &&& self.state.selected matches Some(i) ==> i < self.active_courses@.len()
    }

    /// The selection is in range and the highlighted course is the course at
    /// the highlighted row.
    pub open spec fn wf(&self) -> bool {
        &&& self.selection_in_range()
        &&& self.highlighted_course == self.active_courses@[highlight_index(self.state.selected)]
    }

    /// The dashboard over the given active courses, with nothing selected and
    /// the first course highlighted.
    pub fn new(active_courses: Vec<Course>) -> (app: App)
        requires
            active_courses@.len() > 0,
        ensures
            app.wf(),
            app.active_courses@ == active_courses@,
            app.state.selected is None,
            app.state.offset == 0,
            app.highlighted_course == active_courses@[0],
    {
        let first_course = active_courses[0].clone();
        App { highlighted_course: first_course, active_courses, state: SelectionState::new() }
    }

    /// Selects the next course (wrapping round) and highlights it.
    pub fn next(&mut self)
        requires
            old(self).active_courses@.len() > 0,
        ensures
            final(self).wf(),
            final(self).state.selected == Some(
                next_index(old(self).state.selected, old(self).active_courses@.len()),
            ),
            final(self).state.offset == old(self).state.offset,
            final(self).active_courses@ == old(self).active_courses@,
    {
        let i = match self.state.selected() {
            Some(i) => {
                if i >= self.active_courses.len() - 1 {
                    0
                } else {
                    i + 1
                }
            },
            None => 0,
        };
        self.state.select(Some(i));
        self.update_highlighted_course();
    }

    /// Selects the previous course (wrapping round) and highlights it.
    pub fn previous(&mut self)
        requires
            old(self).active_courses@.len() > 0,
            old(self).state.selected matches Some(i) ==> i <= old(self).active_courses@.len(),
        ensures
            final(self).wf(),
            final(self).state.selected == Some(
                previous_index(old(self).state.selected, old(self).active_courses@.len()),
            ),
            final(self).state.offset == old(self).state.offset,
            final(self).active_courses@ == old(self).active_courses@,
    {
        let i = match self.state.selected() {
            Some(i) => {
                if i == 0 {
                    self.active_courses.len() - 1
                } else {
                    i - 1
                }
            },
            None => 0,
        };
        self.state.select(Some(i));
        self.update_highlighted_course();
    }

    /// Highlights the course at the selected row (the first, if none is selected).
    pub fn update_highlighted_course(&mut self)
        requires
            old(self).selection_in_range(),
        ensures
            final(self).wf(),
            final(self).state == old(self).state,
            final(self).active_courses@ == old(self).active_courses@,
    {
        let i = match self.state.selected() {
            Some(i) => i,
            None => 0,
        };
        self.highlighted_course = self.active_courses[i].clone();
    }

    /// Name of the terminal session for the highlighted course's notes: `code-Notes`.
    pub fn notes_session_name(&self) -> (name: String)
        ensures
            name@ == self.highlighted_course.code@ + "-Notes"@,
    {
        let mut name = self.highlighted_course.code.clone();
        name.append("-Notes");
        name
    }

    /// Name of the terminal session for the highlighted course's files: `code-Files`.
    pub fn files_session_name(&self) -> (name: String)
        ensures
            name@ == self.highlighted_course.code@ + "-Files"@,
    {
        let mut name = self.highlighted_course.code.clone();
        name.append("-Files");
        name
    }

    /// Shell command that opens the highlighted course's page in the browser.
    pub fn brightspace_command(&self) -> (command: String)
        ensures
            command@ == "firefox "@ + self.highlighted_course.url@,
    {
        let mut command = String::from_str("firefox ");
        command.append(self.highlighted_course.url.as_str());
        command
    }
}

/// What a key does to the dashboard: `q` quits, `j` selects the next course,
/// `k` the previous one, Enter highlights the selected one; other keys do
/// nothing. Returns whether to quit.
pub fn handle_key(app: &mut App, key: KeyInput) -> (quit: bool)
    requires
        key == KeyInput::Char('j') ==> old(app).active_courses@.len() > 0,
        key == KeyInput::Char('k') ==> old(app).active_courses@.len() > 0 && (old(
            app,
        ).state.selected matches Some(i) ==> i <= old(app).active_courses@.len()),
        key == KeyInput::Enter ==> old(app).selection_in_range(),
    ensures
        quit == (key == KeyInput::Char('q')),
        final(app).active_courses@ == old(app).active_courses@,
        final(app).state.offset == old(app).state.offset,
        key == KeyInput::Char('j') ==> final(app).wf() && final(app).state.selected == Some(
            next_index(old(app).state.selected, old(app).active_courses@.len()),
        ),
        key == KeyInput::Char('k') ==> final(app).wf() && final(app).state.selected == Some(
            previous_index(old(app).state.selected, old(app).active_courses@.len()),
        ),
        key == KeyInput::Enter ==> final(app).wf() && final(app).state == old(app).state,
        key != KeyInput::Char('j') && key != KeyInput::Char('k') && key != KeyInput::Enter
            ==> *final(app) == *old(app),
{
    match key {
        KeyInput::Char('q') => true,
        KeyInput::Char('j') => {
            app.next();
            false
        },
        KeyInput::Char('k') => {
            app.previous();
            false
        },
        KeyInput::Enter => {
            app.update_highlighted_course();
            false
        },
        _ => false,
    }
}

/// From any row of a table of `len` rows, the next row is the one after it,
/// counted round the table.
pub proof fn lemma_next_index_cycles(i: usize, len: nat)
    requires
        i < len,
        len <= usize::MAX,
    ensures
        next_index(Some(i), len) == (i + 1) % (len as int),
{
    if i + 1 == len {
        vstd::arithmetic::div_mod::lemma_mod_self_0(len as int);
    } else {
        vstd::arithmetic::div_mod::lemma_small_mod((i + 1) as nat, len);
    }
}

/// From any row of a table of `len` rows, the previous row is the one before
/// it, counted round the table.
pub proof fn lemma_previous_index_cycles(i: usize, len: nat)
    requires
        i < len,
        len <= usize::MAX,
    ensures
        previous_index(Some(i), len) == (i + len - 1) % (len as int),
{
    if i == 0 {
        vstd::arithmetic::div_mod::lemma_small_mod((len - 1) as nat, len);
    } else {
        vstd::arithmetic::div_mod::lemma_mod_add_multiples_vanish((i - 1) as int, len as int);
        vstd::arithmetic::div_mod::lemma_small_mod((i - 1) as nat, len);
    }
}

/// Moving to the next row and back returns to the row one started from.
pub proof fn lemma_previous_undoes_next(i: usize, len: nat)
    requires
        i < len,
        len <= usize::MAX,
    ensures
        previous_index(Some(next_index(Some(i), len)), len) == i,
{
}

/// Moving to the previous row and on again returns to the row one started from.
pub proof fn lemma_next_undoes_previous(i: usize, len: nat)
    requires
        i < len,
        len <= usize::MAX,
    ensures
        next_index(Some(previous_index(Some(i), len)), len) == i,
{
}

} // verus!
