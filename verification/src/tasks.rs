//! Scheduling of tasks that run in a terminal.
use vstd::prelude::*;
use vstd::pervasive::cloned;

verus! {

/// How the connection to a remote host stands.
#[derive(Clone, Copy, Debug, PartialEq, Eq, Structural)]
pub enum ConnectionState {
    Connecting,
    Connected,
    HeartbeatMissed,
    Reconnecting,
    Disconnected,
}

/// A task whose variables have been filled in: what it was made from, and what to run, if there
/// is something to run.
#[derive(Debug)]
pub struct ResolvedTask<T, S> {
    pub task: T,
    pub resolved: Option<S>,
}

/// What is to be done for a task: run it, and put it into the history first, if it goes there.
#[derive(Debug)]
pub struct ScheduledTask<K, T, S> {
    pub history: Option<(K, ResolvedTask<T, S>)>,
    pub spawn: S,
}

/// What came of a request to schedule a task.
#[derive(Debug)]
pub enum ScheduleOutcome<K, T, S> {
    /// The project is on a remote host, and the host cannot be reached.
    Disconnected,
    /// There is nothing to run.
    Nothing,
    Scheduled(ScheduledTask<K, T, S>),
}

/// Whether a project can run tasks: it is on no remote host, or on one that is connected.
pub open spec fn is_reachable(connection: Option<ConnectionState>) -> bool {
    connection is None || connection == Some(ConnectionState::Connected)
}

/// Whether `scheduled` runs `resolved_task`, and puts it into the history if it is to go there.
pub open spec fn is_schedule_of<K, T, S: Clone>(
    scheduled: ScheduledTask<K, T, S>,
    task_source_kind: K,
    resolved_task: ResolvedTask<T, S>,
    keep: bool,
) -> bool {
    &&& resolved_task.resolved == Some(scheduled.spawn)
    &&& match scheduled.history {
        Some((kind, task)) => {
            &&& keep
            &&& kind == task_source_kind
            &&& task.task == resolved_task.task
            &&& task.resolved matches Some(copy) && cloned::<S>(scheduled.spawn, copy)
        },
        None => !keep,
    }
}

/// Schedules a task, unless there is nothing to run. It goes into the history if there is one,
/// and if it is not to be left out.
pub fn schedule_resolved_task<K, T, S: Clone>(
    task_source_kind: K,
    resolved_task: ResolvedTask<T, S>,
    omit_history: bool,
    has_inventory: bool,
) -> (r: Option<ScheduledTask<K, T, S>>)
    ensures
        match r {
            Some(scheduled) => is_schedule_of(
                scheduled,
                task_source_kind,
                resolved_task,
                !omit_history && has_inventory,
            ),
            None => resolved_task.resolved is None,
        },
{
    let ResolvedTask { task, resolved } = resolved_task;
    match resolved {
        None => None,
        Some(spawn_in_terminal) => {
            let history = if !omit_history && has_inventory {
                let resolved = Some(spawn_in_terminal.clone());
                Some((task_source_kind, ResolvedTask { task, resolved }))
            } else {
                None
            };
            Some(ScheduledTask { history, spawn: spawn_in_terminal })
        },
    }
}

/// Whether a project can run tasks. If it cannot, there is no need to fill in a task's variables.
pub fn can_run_tasks(connection: Option<ConnectionState>) -> (r: bool)
    ensures
        r == is_reachable(connection),
{
    match connection {
        None | Some(ConnectionState::Connected) => true,
        Some(
            ConnectionState::Connecting
            | ConnectionState::Disconnected
            | ConnectionState::HeartbeatMissed
            | ConnectionState::Reconnecting,
        ) => false,
    }
}

/// Schedules a task, if the project can run it and its variables could be filled in.
pub fn schedule_task<K, T, S: Clone>(
    connection: Option<ConnectionState>,
    task_source_kind: K,
    resolved_task: Option<ResolvedTask<T, S>>,
    omit_history: bool,
    has_inventory: bool,
) -> (r: ScheduleOutcome<K, T, S>)
    ensures
        match r {
            ScheduleOutcome::Disconnected => !is_reachable(connection),
            ScheduleOutcome::Nothing => is_reachable(connection) && (resolved_task matches Some(task)
                ==> task.resolved is None),
            ScheduleOutcome::Scheduled(scheduled) => {
                &&& is_reachable(connection)
                &&& resolved_task matches Some(task)
                &&& is_schedule_of(
                    scheduled,
                    task_source_kind,
                    task,
                    !omit_history && has_inventory,
                )
            },
        },
{
    if !can_run_tasks(connection) {
        return ScheduleOutcome::Disconnected;
    }
    match resolved_task {
        None => ScheduleOutcome::Nothing,
        Some(task) => match schedule_resolved_task(
            task_source_kind,
            task,
            omit_history,
            has_inventory,
        ) {
            Some(scheduled) => ScheduleOutcome::Scheduled(scheduled),
            None => ScheduleOutcome::Nothing,
        },
    }
}

} // verus!
