//! Which tasks are pending, which are held up by pending dependencies, how they
//! are styled, and the task-manager command lines the dashboard issues.

use vstd::prelude::*;

use crate::course::Course;
use crate::style::{CellStyle, TermColor};
use crate::text::decimal_text;
use crate::text::signed_decimal_text;
use crate::text::{decimal, digits_value, signed_decimal};

verus! {

/// The status of a task.
#[derive(Clone, Copy, PartialEq, Eq, Debug, Structural)]
pub enum TaskState {
    Pending,
    Deleted,
    Completed,
    Waiting,
    Recurring,
}

/// The positions below `upto` whose task is pending, in ascending order.
pub open spec fn pending_indices(statuses: Seq<TaskState>, upto: nat) -> Seq<usize>
    decreases upto,
{
    if upto == 0 {
        Seq::empty()
    } else {
        let earlier = pending_indices(statuses, (upto - 1) as nat);
        if statuses[upto - 1] == TaskState::Pending {
            earlier.push((upto - 1) as usize)
        } else {
            earlier
        }
    }
}

/// The positions of the pending tasks, in order.
pub fn pending_positions(statuses: &Vec<TaskState>) -> (positions: Vec<usize>)
    ensures
        positions@ == pending_indices(statuses@, statuses@.len()),
{
    let mut positions: Vec<usize> = Vec::new();
    let n = statuses.len();
    let mut i: usize = 0;
    while i < n
        invariant
            n == statuses@.len(),
            i <= n,
            positions@ == pending_indices(statuses@, i as nat),
        decreases n - i,
    {
        if statuses[i] == TaskState::Pending {
            positions.push(i);
        }
        i += 1;
    }
    positions
}

/// Some dependency of the task is among the pending tasks.
pub open spec fn depends_on_pending(dependencies: Option<Seq<u128>>, pending: Seq<u128>) -> bool {
    match dependencies {
        Some(d) => exists|i: int, j: int|
            0 <= i < d.len() && 0 <= j < pending.len() && #[trigger] d[i] == #[trigger] pending[j],
        None => false,
    }
}

/// The view of optional dependencies.
pub open spec fn dependency_view(dependencies: Option<&Vec<u128>>) -> Option<Seq<u128>> {
    match dependencies {
        Some(d) => Some(d@),
        None => None,
    }
}

/// Whether a task with these dependencies (by id) waits on one of the pending
/// tasks (by id).
pub fn has_pending_dependency(dependencies: Option<&Vec<u128>>, pending: &Vec<u128>) -> (blocked:
    bool)
    ensures
        blocked == depends_on_pending(dependency_view(dependencies), pending@),
{
    match dependencies {
        Some(dependent_uuids) => {
            let n = dependent_uuids.len();
            let m = pending.len();
            let mut i: usize = 0;
            while i < n
                invariant
                    dependencies == Some(dependent_uuids),
                    n == dependent_uuids@.len(),
                    m == pending@.len(),
                    i <= n,
                    forall|a: int, b: int|
                        0 <= a < i && 0 <= b < m ==> #[trigger] dependent_uuids@[a]
                            != #[trigger] pending@[b],
                decreases n - i,
            {
                let uuid = dependent_uuids[i];
                let mut j: usize = 0;
                while j < m
                    invariant
                        dependencies == Some(dependent_uuids),
                        n == dependent_uuids@.len(),
                        m == pending@.len(),
                        i < n,
                        j <= m,
                        uuid == dependent_uuids@[i as int],
                        forall|b: int| 0 <= b < j ==> uuid != #[trigger] pending@[b],
                    decreases m - j,
                {
                    if pending[j] == uuid {
                        assert(dependent_uuids@[i as int] == pending@[j as int]);
                        assert(depends_on_pending(Some(dependent_uuids@), pending@));
                        assert(dependency_view(dependencies) == Some(dependent_uuids@));
                        return true;
                    }
                    j += 1;
                }
                i += 1;
            }
            false
        },
        None => false,
    }
}

/// The style of a task row: dimmed where the task waits on a pending task.
pub open spec fn task_style(blocked: bool) -> CellStyle {
    if blocked {
        CellStyle { fg: TermColor::Reset, bg: TermColor::DarkGray }
    } else {
        CellStyle { fg: TermColor::Black, bg: TermColor::Gray }
    }
}

/// The style of a task row, given whether it waits on a pending task.
pub fn get_task_styling(has_pending_dependency: bool) -> (style: CellStyle)
    ensures
        style == task_style(has_pending_dependency),
{
    if has_pending_dependency {
        CellStyle { fg: TermColor::Reset, bg: TermColor::DarkGray }
    } else {
        CellStyle { fg: TermColor::Black, bg: TermColor::Gray }
    }
}

/// Command that exports the tasks tagged with the course's code.
pub fn pending_tasks_command(course: &Course) -> (command: String)
    ensures
        command@ == "task +"@ + course.code@ + " export"@,
{
    let mut command = String::from_str("task +");
    command.append(course.code.as_str());
    command.append(" export");
    command
}

/// Command that exports every pending university or work task.
pub const ALL_PENDING_TASKS_COMMAND: &'static str = "task +PENDING project:uni or project:work export";

/// Command that prints, on one line, how many university tasks carry `tag`
/// (such as `PENDING`, `READY`, `SCHEDULED`, `BLOCKED`).
pub fn task_count_command(tag: &str) -> (command: String)
    ensures
        command@ == "task rc.verbose=none project:uni +"@ + tag@
            + " count | tr -s ' ' | tr -d '\n'"@,
{
    let mut command = String::from_str("task rc.verbose=none project:uni +");
    command.append(tag);
    command.append(" count | tr -s ' ' | tr -d '\n'");
    command
}

/// The task counts line: `Total: t / Ready: r / Scheduled: s / Blocked: b`.
pub fn task_status_line(total: &str, ready: &str, scheduled: &str, blocked: &str) -> (line: String)
    ensures
        line@ == "Total: "@ + total@ + " / Ready: "@ + ready@ + " / Scheduled: "@ + scheduled@
            + " / Blocked: "@ + blocked@,
{
    let mut line = String::from_str("Total: ");
    line.append(total);
    line.append(" / Ready: ");
    line.append(ready);
    line.append(" / Scheduled: ");
    line.append(scheduled);
    line.append(" / Blocked: ");
    line.append(blocked);
    line
}


/// What the task manager's export says of one task, as plain values: its
/// status, id, the ids of the tasks it depends on, its number, its description,
/// its due moment (seconds since the epoch and nanoseconds) and the text of
/// its urgency.
pub struct TaskRecord {
    pub state: TaskState,
    pub uuid: u128,
    pub depends: Option<Seq<u128>>,
    pub id: Option<u64>,
    pub description: Seq<char>,
    pub due: Option<(i64, u32)>,
    pub urgency: Option<Seq<char>>,
}

/// Tasks as the `task_hookrs` crate holds them.
#[verifier::external_body]
pub struct ImportedTasks {
    tasks: Vec<task_hookrs::task::Task>,
}

/// What `task_hookrs::import::import` makes of an export: the records of the
/// tasks, in the export's order, or, where it refuses the export, the text of
/// its error.
pub uninterp spec fn export_import(export: Seq<u8>) -> Result<Seq<TaskRecord>, Seq<char>>;

/// The records of an export, where it can be read.
pub open spec fn export_records(export: Seq<u8>) -> Option<Seq<TaskRecord>> {
    match export_import(export) {
        Ok(records) => Some(records),
        Err(_) => None,
    }
}

/// Why an export cannot be read, where it cannot.
pub open spec fn export_error(export: Seq<u8>) -> Option<Seq<char>> {
    match export_import(export) {
        Ok(_) => None,
        Err(message) => Some(message),
    }
}

/// The records of the tasks held.
pub uninterp spec fn imported_records(tasks: ImportedTasks) -> Seq<TaskRecord>;

/// The view of optional ids.
pub open spec fn ids_view(ids: Option<Vec<u128>>) -> Option<Seq<u128>> {
    match ids {
        Some(d) => Some(d@),
        None => None,
    }
}

/// Trusted: `task_hookrs::import::import` (task format of TaskWarrior 2.6) on
/// the export's bytes, its error turned into its `Display` text. The outcome is
/// named by `export_import`, a function of the bytes alone: on success the
/// tasks held have those records, on failure the text is that error's. What it
/// accepts, how it reads each field (its JSON parse) and the wording of its
/// errors are not stated.
#[verifier::external_body]
fn import_export(export: &[u8]) -> (imported: Result<ImportedTasks, String>)
    ensures
        imported is Ok <==> export_import(export@) is Ok,
        imported matches Ok(t) ==> export_records(export@) == Some(imported_records(t)),
        imported matches Err(message) ==> export_error(export@) == Some(message@),
{
    task_hookrs::import::import::<task_hookrs::task::TW26, _>(export)
        .map(|tasks| ImportedTasks { tasks })
        .map_err(|error| error.to_string())
}

/// Trusted: an empty `Vec` of tasks holds no records.
#[verifier::external_body]
fn no_tasks() -> (tasks: ImportedTasks)
    ensures
        imported_records(tasks) == Seq::<TaskRecord>::empty(),
{
    ImportedTasks { tasks: Vec::new() }
}

/// Trusted: `Vec::len` of the tasks is the number of their records.
#[verifier::external_body]
fn task_count(tasks: &ImportedTasks) -> (n: usize)
    ensures
        n == imported_records(*tasks).len(),
{
    tasks.tasks.len()
}

/// Trusted: `Task::status` of the task at `i`, one variant for each of
/// `task_hookrs`'s `TaskStatus`, is its record's state.
#[verifier::external_body]
fn task_state_at(tasks: &ImportedTasks, i: usize) -> (state: TaskState)
    requires
        i < imported_records(*tasks).len(),
    ensures
        state == imported_records(*tasks)[i as int].state,
{
    match tasks.tasks[i].status() {
        task_hookrs::status::TaskStatus::Pending => TaskState::Pending,
        task_hookrs::status::TaskStatus::Deleted => TaskState::Deleted,
        task_hookrs::status::TaskStatus::Completed => TaskState::Completed,
        task_hookrs::status::TaskStatus::Waiting => TaskState::Waiting,
        task_hookrs::status::TaskStatus::Recurring => TaskState::Recurring,
    }
}

/// Trusted: `Task::uuid` of the task at `i`, as a 128-bit number, is its record's id.
#[verifier::external_body]
fn task_uuid_at(tasks: &ImportedTasks, i: usize) -> (uuid: u128)
    requires
        i < imported_records(*tasks).len(),
    ensures
        uuid == imported_records(*tasks)[i as int].uuid,
{
    tasks.tasks[i].uuid().as_u128()
}

/// Trusted: `Task::depends` of the task at `i`, each id as a 128-bit number,
/// is its record's dependencies.
#[verifier::external_body]
fn task_depends_at(tasks: &ImportedTasks, i: usize) -> (depends: Option<Vec<u128>>)
    requires
        i < imported_records(*tasks).len(),
    ensures
        ids_view(depends) == imported_records(*tasks)[i as int].depends,
{
    tasks.tasks[i].depends().map(|ids| ids.iter().map(|id| id.as_u128()).collect())
}

/// Trusted: `Task::id` of the task at `i` is its record's number.
#[verifier::external_body]
fn task_id_at(tasks: &ImportedTasks, i: usize) -> (id: Option<u64>)
    requires
        i < imported_records(*tasks).len(),
    ensures
        id == imported_records(*tasks)[i as int].id,
{
    tasks.tasks[i].id()
}

/// Trusted: `Task::description` of the task at `i` is its record's description.
#[verifier::external_body]
fn task_description_at(tasks: &ImportedTasks, i: usize) -> (description: String)
    requires
        i < imported_records(*tasks).len(),
    ensures
        description@ == imported_records(*tasks)[i as int].description,
{
    tasks.tasks[i].description().clone()
}

/// Trusted: `Task::due` of the task at `i`, as the UTC timestamp and its
/// nanoseconds (`and_utc().timestamp()`, `timestamp_subsec_nanos()`), is its
/// record's due moment.
#[verifier::external_body]
fn task_due_at(tasks: &ImportedTasks, i: usize) -> (due: Option<(i64, u32)>)
    requires
        i < imported_records(*tasks).len(),
    ensures
        due == imported_records(*tasks)[i as int].due,
{
    tasks.tasks[i].due().map(|d| (d.and_utc().timestamp(), d.and_utc().timestamp_subsec_nanos()))
}

/// Trusted: the `Display` text of `Task::urgency` of the task at `i` is its
/// record's urgency text.
#[verifier::external_body]
fn task_urgency_at(tasks: &ImportedTasks, i: usize) -> (urgency: Option<String>)
    requires
        i < imported_records(*tasks).len(),
    ensures
        crate::course::opt_text(urgency) == imported_records(*tasks)[i as int].urgency,
{
    tasks.tasks[i].urgency().map(|u| format!("{}", u))
}

/// Trusted: `Vec::push` of a clone of the task at `i` of `from` (`Task`'s
/// derived `Clone`, which copies every field) appends its record.
#[verifier::external_body]
fn push_task_from(to: &mut ImportedTasks, from: &ImportedTasks, i: usize)
    requires
        i < imported_records(*from).len(),
    ensures
        imported_records(*final(to)) == imported_records(*old(to)).push(
            imported_records(*from)[i as int],
        ),
{
    to.tasks.push(from.tasks[i].clone())
}

/// Why an export could not be read.
#[derive(Clone, PartialEq, Eq, Debug)]
pub struct TaskImportError {
    pub message: String,
}

/// The records of an export that are pending, in order; none where the
/// export cannot be read.
pub open spec fn pending_records(export: Seq<u8>) -> Seq<TaskRecord> {
    match export_records(export) {
        Some(records) => records.filter(|r: TaskRecord| r.state == TaskState::Pending),
        None => Seq::empty(),
    }
}

/// `kept` takes from `records`, at the increasing positions `idx`, exactly
/// the records whose state is pending.
pub open spec fn pending_selection(records: Seq<TaskRecord>, kept: Seq<TaskRecord>, idx: Seq<int>) -> bool {
    &&& idx.len() == kept.len()
    &&& forall|k: int|
        0 <= k < idx.len() ==> 0 <= #[trigger] idx[k] < records.len() && kept[k] == records[idx[k]]
    &&& forall|k: int, l: int| 0 <= k < l < idx.len() ==> #[trigger] idx[k] < #[trigger] idx[l]
    &&& forall|i: int|
        0 <= i < records.len() && (#[trigger] records[i]).state == TaskState::Pending ==> exists|
            k: int,
        | 0 <= k < idx.len() && idx[k] == i
    &&& forall|k: int| 0 <= k < kept.len() ==> (#[trigger] kept[k]).state == TaskState::Pending
}

proof fn lemma_pending_filter_selection(records: Seq<TaskRecord>) -> (idx: Seq<int>)
    ensures
        pending_selection(
            records,
            records.filter(|r: TaskRecord| r.state == TaskState::Pending),
            idx,
        ),
    decreases records.len(),
{
    let pred = |r: TaskRecord| r.state == TaskState::Pending;
    if records.len() == 0 {
        assert(records.filter(pred) =~= Seq::<TaskRecord>::empty());
        Seq::empty()
    } else {
        let t = records.drop_last();
        let x = records.last();
        let prev = lemma_pending_filter_selection(t);
        assert(records =~= t.push(x));
        t.lemma_filter_push(x, pred);
        let kept = records.filter(pred);
        let n = t.len() as int;
        let idx = if pred(x) {
            prev.push(n)
        } else {
            prev
        };
        assert forall|k: int| 0 <= k < idx.len() implies 0 <= #[trigger] idx[k] < records.len()
            && kept[k] == records[idx[k]] by {
            if k < prev.len() {
                assert(records[prev[k]] == t[prev[k]]);
            }
        }
        assert forall|i: int|
            0 <= i < records.len() && (#[trigger] records[i]).state == TaskState::Pending implies exists|
            k: int,
        | 0 <= k < idx.len() && idx[k] == i by {
            if i < n {
                assert(t[i] == records[i]);
                let k = choose|k: int| 0 <= k < prev.len() && prev[k] == i;
                assert(idx[k] == i);
            } else {
                assert(idx[idx.len() - 1] == i);
            }
        }
        assert forall|k: int| 0 <= k < kept.len() implies (#[trigger] kept[k]).state
            == TaskState::Pending by {
            if k < prev.len() {
                assert(kept[k] == t.filter(pred)[k]);
            }
        }
        idx
    }
}

/// The tasks kept from an export are exactly its pending ones, in the
/// export's order: each kept task is pending, and every pending task of the
/// export is kept; an export that cannot be read keeps none.
pub proof fn lemma_pending_records(export: Seq<u8>)
    ensures
        forall|k: int|
            0 <= k < pending_records(export).len() ==> (#[trigger] pending_records(export)[k]).state
                == TaskState::Pending,
        export_records(export) matches Some(records) ==> exists|idx: Seq<int>|
            pending_selection(records, pending_records(export), idx),
        export_records(export) is None ==> pending_records(export).len() == 0,
{
    if let Some(records) = export_records(export) {
        let idx = lemma_pending_filter_selection(records);
        assert(pending_selection(records, pending_records(export), idx));
    }
}

/// The number of tasks held.
pub fn task_total(tasks: &ImportedTasks) -> (n: usize)
    ensures
        n == imported_records(*tasks).len(),
{
    task_count(tasks)
}

/// The pending tasks of a task-manager export, in order. Where the export
/// cannot be read there are none, and the error comes alongside.
pub fn pending_tasks(export: &[u8]) -> (pending: (ImportedTasks, Option<TaskImportError>))
    ensures
        imported_records(pending.0) == pending_records(export@),
        pending.1 is Some <==> export_records(export@) is None,
        pending.1 matches Some(error) ==> export_error(export@) == Some(error.message@),
        forall|k: int|
            0 <= k < imported_records(pending.0).len() ==> (#[trigger] imported_records(
                pending.0,
            )[k]).state == TaskState::Pending,
        export_records(export@) matches Some(records) ==> exists|idx: Seq<int>|
            pending_selection(records, imported_records(pending.0), idx),
{
    proof {
        lemma_pending_records(export@);
    }
    match import_export(export) {
        Ok(tasks) => {
            let ghost records = imported_records(tasks);
            let mut kept = no_tasks();
            let n = task_count(&tasks);
            let mut i: usize = 0;
            while i < n
                invariant
                    n == records.len(),
                    records == imported_records(tasks),
                    i <= n,
                    imported_records(kept) == records.take(i as int).filter(
                        |r: TaskRecord| r.state == TaskState::Pending,
                    ),
                decreases n - i,
            {
                proof {
                    assert(records.take(i + 1) =~= records.take(i as int).push(records[i as int]));
                    records.take(i as int).lemma_filter_push(
                        records[i as int],
                        |r: TaskRecord| r.state == TaskState::Pending,
                    );
                }
                if task_state_at(&tasks, i) == TaskState::Pending {
                    push_task_from(&mut kept, &tasks, i);
                }
                i += 1;
            }
            assert(records.take(n as int) =~= records);
            (kept, None)
        },
        Err(message) => (no_tasks(), Some(TaskImportError { message })),
    }
}

/// The ids of the records.
pub open spec fn record_ids(records: Seq<TaskRecord>) -> Seq<u128> {
    records.map_values(|r: TaskRecord| r.uuid)
}

/// The id list of records holds one id per record, in order: the `k`-th id is
/// the id of the `k`-th record.
pub proof fn lemma_record_ids(records: Seq<TaskRecord>)
    ensures
        record_ids(records).len() == records.len(),
        forall|k: int| 0 <= k < records.len() ==> #[trigger] record_ids(records)[k] == records[k].uuid,
{
}

/// A task waits on a pending task exactly when one of its dependencies is the
/// id of some pending task, at any position of the pending list.
pub proof fn lemma_waits_on_pending(depends: Option<Seq<u128>>, pending: Seq<TaskRecord>)
    ensures
        depends_on_pending(depends, record_ids(pending)) <==> (depends matches Some(d) && exists|
            a: int,
            b: int,
        | 0 <= a < d.len() && 0 <= b < pending.len() && #[trigger] d[a] == #[trigger] pending[b].uuid),
{
    lemma_record_ids(pending);
    let ids = record_ids(pending);
    if let Some(d) = depends {
        if depends_on_pending(depends, ids) {
            let (a, b) = choose|a: int, b: int|
                0 <= a < d.len() && 0 <= b < ids.len() && #[trigger] d[a] == #[trigger] ids[b];
            assert(d[a] == pending[b].uuid);
        }
        if exists|a: int, b: int|
            0 <= a < d.len() && 0 <= b < pending.len() && #[trigger] d[a] == #[trigger] pending[b].uuid {
            let (a, b) = choose|a: int, b: int|
                0 <= a < d.len() && 0 <= b < pending.len() && #[trigger] d[a] == #[trigger] pending[b].uuid;
            assert(d[a] == ids[b]);
        }
    }
}

/// The ids of the tasks held, in order.
pub fn task_ids(tasks: &ImportedTasks) -> (ids: Vec<u128>)
    ensures
        ids@ == record_ids(imported_records(*tasks)),
        ids@.len() == imported_records(*tasks).len(),
        forall|k: int|
            0 <= k < ids@.len() ==> #[trigger] ids@[k] == imported_records(*tasks)[k].uuid,
{
    proof {
        lemma_record_ids(imported_records(*tasks));
    }
    let ghost records = imported_records(*tasks);
    let n = task_count(tasks);
    let mut ids: Vec<u128> = Vec::new();
    let mut i: usize = 0;
    while i < n
        invariant
            n == records.len(),
            records == imported_records(*tasks),
            i <= n,
            ids@ == record_ids(records.take(i as int)),
        decreases n - i,
    {
        ids.push(task_uuid_at(tasks, i));
        i += 1;
        assert(ids@ =~= record_ids(records.take(i as int)));
    }
    assert(records.take(n as int) =~= records);
    ids
}

/// Whether the task at `i` waits on one of the `pending` tasks.
pub fn task_waits_on_pending(tasks: &ImportedTasks, i: usize, pending: &ImportedTasks) -> (blocked:
    bool)
    requires
        i < imported_records(*tasks).len(),
    ensures
        blocked == depends_on_pending(
            imported_records(*tasks)[i as int].depends,
            record_ids(imported_records(*pending)),
        ),
        blocked <==> (imported_records(*tasks)[i as int].depends matches Some(d) && exists|
            a: int,
            b: int,
        |
            0 <= a < d.len() && 0 <= b < imported_records(*pending).len() && #[trigger] d[a]
                == #[trigger] imported_records(*pending)[b].uuid),
{
    proof {
        lemma_waits_on_pending(imported_records(*tasks)[i as int].depends, imported_records(*pending));
    }
    let pending_ids = task_ids(pending);
    let depends = task_depends_at(tasks, i);
    has_pending_dependency(depends.as_ref(), &pending_ids)
}

/// The texts of one row of the task table.
#[derive(Clone, PartialEq, Eq, Debug)]
pub struct TaskRow {
    pub id: String,
    pub due: String,
    pub description: String,
    pub urgency: String,
}

/// Whole days from `now` until `due`, each given as seconds since the epoch
/// and nanoseconds (1e9 and more inside a leap second), as `chrono` counts
/// them with `signed_duration_since` and `num_days`: the signed difference,
/// where a leap second between the two times of day counts as one more second,
/// divided by the length of a day and truncated toward zero.
pub open spec fn whole_days(due: (i64, u32), now: (i64, u32)) -> int {
    let due_in_day = due.0 % 86_400;
    let now_in_day = now.0 % 86_400;
    let leap = if due_in_day > now_in_day && now.1 >= 1_000_000_000 {
        1int
    } else if due_in_day < now_in_day && due.1 >= 1_000_000_000 {
        -1int
    } else {
        0int
    };
    let diff = (due.0 - now.0 + leap) * 1_000_000_000 + (due.1 - now.1);
    let day = 86_400_000_000_000int;
    if diff >= 0 {
        diff / day
    } else {
        -((-diff) / day)
    }
}

/// Days until a task is due: none due, 0.
pub open spec fn days_until_spec(due: Option<(i64, u32)>, now: (i64, u32)) -> int {
    match due {
        Some(d) => whole_days(d, now),
        None => 0,
    }
}

/// The moments `chrono` can hold for sure: no leap second, and well inside
/// its range of dates (about 250,000 years either side of 1970).
pub open spec fn plain_moment(now: (i64, u32)) -> bool {
    &&& now.1 < 1_000_000_000
    &&& -8_000_000_000_000 <= now.0 <= 8_000_000_000_000
}

/// Trusted: `chrono::DateTime::from_timestamp(now)` as a `NaiveDateTime`, and
/// for the due date of the task at `i` (`Task::due`),
/// `signed_duration_since(now).num_days()`; `None` where the task has no due
/// date. The count is `whole_days` of the record's due moment, as chrono's
/// source computes it.
#[verifier::external_body]
fn task_due_days_at(tasks: &ImportedTasks, i: usize, now: (i64, u32)) -> (days: Option<i64>)
    requires
        i < imported_records(*tasks).len(),
        plain_moment(now),
    ensures
        days is Some <==> imported_records(*tasks)[i as int].due is Some,
        days matches Some(n) ==> n == whole_days(imported_records(*tasks)[i as int].due->0, now),
{
    let now = chrono::DateTime::from_timestamp(now.0, now.1)?.naive_utc();
    tasks.tasks[i].due().map(|due| due.signed_duration_since(now).num_days())
}

/// Whole days from `now` until the task at `i` is due (0 where it has no due
/// date), truncated toward zero.
pub fn days_until(tasks: &ImportedTasks, i: usize, now: (i64, u32)) -> (days: i64)
    requires
        i < imported_records(*tasks).len(),
        plain_moment(now),
    ensures
        days == days_until_spec(imported_records(*tasks)[i as int].due, now),
{
    match task_due_days_at(tasks, i, now) {
        Some(days) => days,
        None => 0,
    }
}

/// A row can be drawn for a task that has a number and an urgency.
pub open spec fn row_possible(r: TaskRecord) -> bool {
    &&& r.id is Some
    &&& r.urgency is Some
}

/// The row of the task at `i` at moment `now`: its number, days until due with
/// a `d`, its description and its urgency. `None` where the task has no number
/// or no urgency.
pub fn task_row(tasks: &ImportedTasks, i: usize, now: (i64, u32)) -> (row: Option<TaskRow>)
    requires
        i < imported_records(*tasks).len(),
        plain_moment(now),
    ensures
        row is Some <==> row_possible(imported_records(*tasks)[i as int]),
        row matches Some(texts) ==> {
            let r = imported_records(*tasks)[i as int];
            &&& texts.id@ == decimal(r.id->0 as int)
            &&& digits_value(texts.id@) == r.id->0
            &&& texts.due@ == signed_decimal(days_until_spec(r.due, now)) + "d"@
            &&& texts.description@ == r.description
            &&& texts.urgency@ == r.urgency->0
        },
{
    let id = task_id_at(tasks, i);
    let urgency = task_urgency_at(tasks, i);
    match (id, urgency) {
        (Some(number), Some(urgency_text)) => {
            let days = days_until(tasks, i, now);
            let mut due_text = signed_decimal_text(days);
            due_text.append("d");
            Some(
                TaskRow {
                    id: decimal_text(number),
                    due: due_text,
                    description: task_description_at(tasks, i),
                    urgency: urgency_text,
                },
            )
        },
        _ => None,
    }
}

} // verus!
