use zeta::tasks::{
    can_run_tasks, schedule_resolved_task, schedule_task, ConnectionState, ResolvedTask,
    ScheduleOutcome,
};
use zeta::thread_history::{
    DateTime, PanelAction, PastThread, Thread, ThreadHistory, ThreadHistoryContent, MAX_TIMESTAMP,
    MIN_TIMESTAMP,
};

fn task(command: Option<&str>) -> ResolvedTask<u32, String> {
    ResolvedTask { task: 9, resolved: command.map(|c| c.to_string()) }
}

#[test]
fn tasks_are_kept_and_run() {
    let scheduled = schedule_resolved_task("worktree", task(Some("ls")), false, true).unwrap();
    assert_eq!(scheduled.spawn, "ls");
    let (kind, kept) = scheduled.history.unwrap();
    assert_eq!(kind, "worktree");
    assert_eq!(kept.task, 9);
    assert_eq!(kept.resolved, Some("ls".to_string()));
}

#[test]
fn tasks_can_be_left_out_of_the_history() {
    for (omit_history, has_inventory) in [(true, true), (true, false), (false, false)] {
        let scheduled =
            schedule_resolved_task("user", task(Some("ls")), omit_history, has_inventory).unwrap();
        assert_eq!(scheduled.spawn, "ls");
        assert!(scheduled.history.is_none());
    }
    assert!(schedule_resolved_task("user", task(None), false, true).is_none());
}

#[test]
fn only_a_host_that_is_connected_runs_tasks() {
    assert!(can_run_tasks(None));
    assert!(can_run_tasks(Some(ConnectionState::Connected)));
    assert!(!can_run_tasks(Some(ConnectionState::Connecting)));
    assert!(!can_run_tasks(Some(ConnectionState::HeartbeatMissed)));
    assert!(!can_run_tasks(Some(ConnectionState::Reconnecting)));
    assert!(!can_run_tasks(Some(ConnectionState::Disconnected)));
}

#[test]
fn tasks_need_a_connection() {
    for state in [
        ConnectionState::Connecting,
        ConnectionState::HeartbeatMissed,
        ConnectionState::Reconnecting,
        ConnectionState::Disconnected,
    ] {
        let outcome = schedule_task(Some(state), "user", Some(task(Some("ls"))), false, true);
        assert!(matches!(outcome, ScheduleOutcome::Disconnected));
    }
    for state in [None, Some(ConnectionState::Connected)] {
        match schedule_task(state, "user", Some(task(Some("ls"))), false, true) {
            ScheduleOutcome::Scheduled(scheduled) => assert_eq!(scheduled.spawn, "ls"),
            _ => panic!("not scheduled"),
        }
        let nothing = schedule_task(state, "user", Some(task(None)), false, true);
        assert!(matches!(nothing, ScheduleOutcome::Nothing));
        let unresolved: Option<ResolvedTask<u32, String>> = None;
        let nothing = schedule_task(state, "user", unresolved, false, true);
        assert!(matches!(nothing, ScheduleOutcome::Nothing));
    }
}

fn thread(id: &str, summary: Option<&str>, updated_at: i64) -> Thread {
    Thread { id: id.to_string(), summary: summary.map(|s| s.to_string()), updated_at }
}

#[test]
fn an_empty_list_says_so() {
    let history = ThreadHistory::new(Vec::new());
    assert_eq!(
        history.render(),
        ThreadHistoryContent::Empty("You don't have any past threads yet.")
    );
}

#[test]
fn a_part_of_the_list_is_shown() {
    let history = ThreadHistory::new(vec![
        thread("a", None, 0),
        thread("b", Some("Fix"), 1),
        thread("c", None, 2),
    ]);
    assert_eq!(history.render(), ThreadHistoryContent::List(3));
    let visible = history.visible_threads(1..3);
    assert_eq!(visible.len(), 2);
    assert_eq!(visible[0].thread.id, "b");
    assert_eq!(visible[0].thread.summary.as_deref(), Some("Fix"));
    assert_eq!(visible[1].thread.id, "c");
    assert!(history.visible_threads(3..3).is_empty());
}

#[test]
fn entries_of_the_list() {
    let item = PastThread::new(thread("a", None, 1_546_300_800)).render(None);
    assert_eq!(item.summary, "New Thread");
    assert_eq!(item.utc_offset_seconds, 0);
    assert_eq!(
        item.updated_at,
        DateTime { year: 2019, ordinal: 1, hour: 0, minute: 0, second: 0 }
    );
    assert!(matches!(item.on_click, PanelAction::OpenThread(id) if id == "a"));
    assert!(matches!(item.on_delete, PanelAction::DeleteThread(id) if id == "a"));
    let item = PastThread::new(thread("b", Some("Fix"), -1)).render(Some(-3600));
    assert_eq!(item.summary, "Fix");
    assert_eq!(item.utc_offset_seconds, -3600);
    assert_eq!(
        item.updated_at,
        DateTime { year: 1969, ordinal: 365, hour: 23, minute: 59, second: 59 }
    );
}

#[test]
fn moments_at_the_ends_of_the_calendar() {
    let at = |timestamp: i64| PastThread::new(thread("a", None, timestamp)).render(None).updated_at;
    assert_eq!(
        at(MIN_TIMESTAMP),
        DateTime { year: -9999, ordinal: 1, hour: 0, minute: 0, second: 0 }
    );
    assert_eq!(
        at(MAX_TIMESTAMP),
        DateTime { year: 9999, ordinal: 365, hour: 23, minute: 59, second: 59 }
    );
    // 2020-12-31 12:34:56
    assert_eq!(
        at(1_609_418_096),
        DateTime { year: 2020, ordinal: 366, hour: 12, minute: 34, second: 56 }
    );
    assert!(time::OffsetDateTime::from_unix_timestamp(MIN_TIMESTAMP - 1).is_err());
    assert!(time::OffsetDateTime::from_unix_timestamp(MAX_TIMESTAMP + 1).is_err());
}
