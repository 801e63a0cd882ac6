use cardhannis_core::sync::{later_time, normalize_for_storage, time_key_of};
use cardhannis_core::{
    merge_sync_snapshots, CoreError, NewTask, SyncSnapshot, Task, TaskBlock, TaskStatus, TaskStore, WorkSession,
    Workspace,
};

fn task(id: &str, updated_at: &str, version: i64) -> Task {
    Task {
        id: id.to_owned(),
        title: format!("任务 {id}"),
        notes: None,
        review_notes: None,
        estimated_active_minutes: None,
        due_date: None,
        created_at: "2026-01-01T00:00:00.000Z".to_owned(),
        started_at: None,
        completed_at: None,
        status: TaskStatus::Pending,
        sort_order: 0,
        created_device_id: "device".to_owned(),
        updated_at: updated_at.to_owned(),
        deleted_at: None,
        version,
        is_blocked: false,
        workspace_id: None,
        priority_id: None,
        home_workspace_id: None,
    }
}

fn session(id: &str, task_id: &str, started_at: &str) -> WorkSession {
    WorkSession {
        id: id.to_owned(),
        task_id: task_id.to_owned(),
        started_at: started_at.to_owned(),
        ended_at: None,
        note: None,
        created_at: started_at.to_owned(),
    }
}

fn block(id: &str, task_id: &str, started_at: &str) -> TaskBlock {
    TaskBlock {
        id: id.to_owned(),
        task_id: task_id.to_owned(),
        started_at: started_at.to_owned(),
        ended_at: None,
        reason: "等待".to_owned(),
        note: None,
        resolution_reason: None,
        created_at: started_at.to_owned(),
        updated_at: started_at.to_owned(),
        version: 1,
        deleted_at: None,
    }
}

fn workspace(id: &str, updated_at: &str, version: i64) -> Workspace {
    Workspace {
        id: id.to_owned(),
        name: format!("工作区 {id}"),
        sort_order: 0,
        builtin: false,
        created_at: "2026-01-01T00:00:00.000Z".to_owned(),
        updated_at: updated_at.to_owned(),
        deleted_at: None,
        version,
    }
}

#[test]
fn instants_are_read_from_rfc3339_stamps() {
    assert_eq!(time_key_of("1970-01-01T00:00:01.500Z"), (1, 500_000_000));
    assert_eq!(time_key_of("2026-01-01T08:00:00+08:00"), (1_767_225_600, 0));
    assert_eq!(time_key_of("not a time"), (0, 0));
}

#[test]
fn later_time_compares_instants_not_texts() {
    let utc = "2026-01-01T01:00:00.000Z".to_owned();
    let east = "2026-01-01T08:30:00+08:00".to_owned();
    assert_eq!(later_time(&utc, &east), utc);
    assert_eq!(later_time(&east, &utc), utc);
    let same = "2026-01-01T09:00:00+08:00".to_owned();
    assert_eq!(later_time(&utc, &same), utc);
    assert_eq!(later_time(&same, &utc), same);
}

#[test]
fn counts_and_records_follow_the_tables() {
    let empty = SyncSnapshot::default();
    assert!(!empty.has_records());
    let counts = empty.counts();
    assert_eq!(counts.tasks, 0);
    let snapshot = SyncSnapshot {
        tasks: vec![task("a", "2026-01-01T00:00:00.000Z", 1)],
        work_sessions: vec![session("s", "a", "2026-01-01T01:00:00.000Z")],
        ..SyncSnapshot::default()
    };
    assert!(snapshot.has_records());
    let counts = snapshot.counts();
    assert_eq!((counts.workspaces, counts.tasks, counts.work_sessions), (0, 1, 1));
}

#[test]
fn fresh_store_snapshot_is_a_bootstrap_seed() {
    let mut store = TaskStore::open_in_memory().unwrap();
    assert!(store.sync_snapshot().unwrap().is_bootstrap_seed());
    store
        .create_task_at(
            NewTask {
                title: "真实数据".to_owned(),
                notes: None,
                estimated_active_minutes: None,
                due_date: None,
                sort_order: 0,
                created_device_id: "device".to_owned(),
                workspace_id: None,
                priority_id: None,
            },
            "2026-01-01T00:00:00.000Z",
        )
        .unwrap();
    assert!(!store.sync_snapshot().unwrap().is_bootstrap_seed());
    assert!(!SyncSnapshot::default().is_bootstrap_seed());
}

#[test]
fn seed_gives_way_to_remote_data() {
    let local = TaskStore::open_in_memory().unwrap().sync_snapshot().unwrap();
    let remote = SyncSnapshot {
        workspaces: vec![workspace("remote-ws", "2026-05-01T00:00:00.000Z", 3)],
        ..SyncSnapshot::default()
    };
    let merged = merge_sync_snapshots(local, remote);
    let ids: Vec<&str> = merged.workspaces.iter().map(|w| w.id.as_str()).collect();
    assert_eq!(ids, vec!["remote-ws"]);
    assert!(merged.priorities.is_empty());
}

#[test]
fn newer_copy_wins_and_ties_keep_local() {
    let local = SyncSnapshot {
        workspaces: vec![workspace("w", "2026-01-02T00:00:00.000Z", 2)],
        tasks: vec![
            task("a", "2026-01-02T00:00:00.000Z", 2),
            task("b", "2026-01-03T00:00:00.000Z", 1),
            task("c", "2026-01-01T00:00:00.000Z", 5),
        ],
        ..SyncSnapshot::default()
    };
    let mut remote_a = task("a", "2026-01-02T00:00:00.000Z", 3);
    remote_a.title = "远端 a".to_owned();
    let mut remote_b = task("b", "2026-01-02T00:00:00.000Z", 9);
    remote_b.title = "远端 b".to_owned();
    let mut remote_c = task("c", "2026-01-01T00:00:00.000Z", 5);
    remote_c.title = "远端 c".to_owned();
    let remote = SyncSnapshot {
        tasks: vec![remote_a, remote_b, remote_c, task("d", "2026-01-01T00:00:00.000Z", 1)],
        ..SyncSnapshot::default()
    };
    let merged = merge_sync_snapshots(local, remote);
    let mut titles: Vec<(String, String)> =
        merged.tasks.iter().map(|t| (t.id.clone(), t.title.clone())).collect();
    titles.sort();
    assert_eq!(
        titles,
        vec![
            ("a".to_owned(), "远端 a".to_owned()),
            ("b".to_owned(), "任务 b".to_owned()),
            ("c".to_owned(), "任务 c".to_owned()),
            ("d".to_owned(), "任务 d".to_owned()),
        ]
    );
    assert_eq!(merged.workspaces.len(), 1);
}

#[test]
fn finished_tasks_stop_their_running_records() {
    let mut done = task("done-task", "2026-01-05T00:00:00.000Z", 2);
    done.status = TaskStatus::Completed;
    done.completed_at = Some("2026-01-04T00:00:00.000Z".to_owned());
    let mut gone = task("gone-task", "2026-01-05T00:00:00.000Z", 2);
    gone.deleted_at = Some("2026-01-03T00:00:00.000Z".to_owned());
    let local = SyncSnapshot {
        tasks: vec![done, gone, task("live", "2026-01-05T00:00:00.000Z", 1)],
        task_blocks: vec![block("b1", "done-task", "2026-01-02T00:00:00.000Z")],
        work_sessions: vec![
            session("s1", "gone-task", "2026-01-02T00:00:00.000Z"),
            session("s2", "live", "2026-01-02T00:00:00.000Z"),
        ],
        ..SyncSnapshot::default()
    };
    let merged = merge_sync_snapshots(local, SyncSnapshot::default());
    let b1 = merged.task_blocks.iter().find(|b| b.id == "b1").unwrap();
    assert_eq!(b1.ended_at.as_deref(), Some("2026-01-04T00:00:00.000Z"));
    assert_eq!(b1.updated_at, "2026-01-04T00:00:00.000Z");
    let s1 = merged.work_sessions.iter().find(|s| s.id == "s1").unwrap();
    assert_eq!(s1.ended_at.as_deref(), Some("2026-01-03T00:00:00.000Z"));
    assert_eq!(s1.created_at, "2026-01-03T00:00:00.000Z");
    let s2 = merged.work_sessions.iter().find(|s| s.id == "s2").unwrap();
    assert!(s2.ended_at.is_none());
    assert!(merged.tasks.iter().all(|t| !t.is_blocked));
}

#[test]
fn latest_running_session_wins_a_conflict() {
    let local = SyncSnapshot {
        tasks: vec![task("t", "2026-01-01T00:00:00.000Z", 1)],
        work_sessions: vec![
            session("early", "t", "2026-01-01T01:00:00.000Z"),
            session("late", "t", "2026-01-01T03:00:00.000Z"),
            session("middle", "t", "2026-01-01T02:00:00.000Z"),
        ],
        task_blocks: vec![block("b", "t", "2026-01-01T04:00:00.000Z")],
        ..SyncSnapshot::default()
    };
    let merged = merge_sync_snapshots(local, SyncSnapshot::default());
    let running: Vec<&str> = merged
        .work_sessions
        .iter()
        .filter(|s| s.ended_at.is_none())
        .map(|s| s.id.as_str())
        .collect();
    assert_eq!(running, vec!["late"]);
    for closed in merged.work_sessions.iter().filter(|s| s.id != "late") {
        assert_eq!(closed.ended_at.as_deref(), Some("2026-01-01T03:00:00.000Z"));
    }
    assert!(merged.tasks[0].is_blocked);
}

#[test]
fn invalid_snapshot_is_refused_and_store_kept() {
    let mut store = TaskStore::open_in_memory().unwrap();
    let mut bad = task("x", "2026-01-01T00:00:00.000Z", 1);
    bad.status = TaskStatus::Completed;
    let snapshot = SyncSnapshot { tasks: vec![bad], ..SyncSnapshot::default() };
    let err = store.apply_sync_snapshot(snapshot).unwrap_err();
    assert!(matches!(err, CoreError::InvalidInput(_)));
    assert_eq!(store.list_workspaces(false).unwrap().len(), 3);
    let snapshot = SyncSnapshot { tasks: vec![task("y", "2026-01-01T00:00:00.000Z", 0)], ..SyncSnapshot::default() };
    assert!(matches!(store.apply_sync_snapshot(snapshot), Err(CoreError::InvalidInput(_))));
}

#[test]
fn applied_snapshot_replaces_the_data() {
    let mut store = TaskStore::open_in_memory().unwrap();
    let snapshot = SyncSnapshot {
        tasks: vec![task("only", "2026-01-01T00:00:00.000Z", 1)],
        work_sessions: vec![
            session("s1", "only", "2026-01-01T01:00:00.000Z"),
            session("s2", "only", "2026-01-01T02:00:00.000Z"),
        ],
        ..SyncSnapshot::default()
    };
    store.apply_sync_snapshot(snapshot).unwrap();
    assert!(store.list_workspaces(true).unwrap().is_empty());
    let tasks = store.list_tasks(true).unwrap();
    assert_eq!(tasks.len(), 1);
    let sessions = store.list_all_sessions().unwrap();
    assert_eq!(sessions.len(), 2);
    assert_eq!(sessions.iter().filter(|s| s.ended_at.is_none()).count(), 1);
    assert!(sessions.iter().find(|s| s.id == "s2").unwrap().ended_at.is_none());
}

#[test]
fn normalizing_twice_changes_nothing_more() {
    let mut done = task("done-task", "2026-01-05T00:00:00.000Z", 2);
    done.status = TaskStatus::Completed;
    done.completed_at = Some("2026-01-04T00:00:00.000Z".to_owned());
    let mut snapshot = SyncSnapshot {
        tasks: vec![done, task("t", "2026-01-01T00:00:00.000Z", 1)],
        task_blocks: vec![block("b1", "done-task", "2026-01-02T00:00:00.000Z"), block("b2", "t", "2026-01-02T00:00:00.000Z")],
        work_sessions: vec![
            session("early", "t", "2026-01-01T01:00:00.000Z"),
            session("late", "t", "2026-01-01T03:00:00.000Z"),
        ],
        ..SyncSnapshot::default()
    };
    normalize_for_storage(&mut snapshot);
    let once = format!("{snapshot:?}");
    normalize_for_storage(&mut snapshot);
    assert_eq!(format!("{snapshot:?}"), once);
    assert!(snapshot.tasks.iter().find(|t| t.id == "t").unwrap().is_blocked);
}

#[test]
fn applying_a_snapshot_with_a_dangling_reference_is_refused() {
    let mut store = TaskStore::open_in_memory().unwrap();
    let mut snapshot = store.sync_snapshot().unwrap();
    snapshot.tasks.push(task("t1", "2026-01-01T00:00:00.000Z", 1));
    snapshot.task_blocks.push(block("b1", "missing-task", "2026-01-01T01:00:00.000Z"));
    let err = store.apply_sync_snapshot(snapshot).unwrap_err();
    assert!(matches!(err, CoreError::Database(_)));
    assert!(store.list_tasks(true).unwrap().is_empty());

    let mut snapshot = store.sync_snapshot().unwrap();
    let mut t = task("t1", "2026-01-01T00:00:00.000Z", 1);
    t.workspace_id = Some("nowhere".to_owned());
    snapshot.tasks.push(t);
    assert!(matches!(store.apply_sync_snapshot(snapshot), Err(CoreError::Database(_))));

    let mut snapshot = store.sync_snapshot().unwrap();
    let mut t = task("t1", "2026-01-01T00:00:00.000Z", 1);
    t.workspace_id = Some("daily".to_owned());
    t.priority_id = Some("P0".to_owned());
    snapshot.tasks.push(t);
    snapshot.task_blocks.push(block("b1", "t1", "2026-01-01T01:00:00.000Z"));
    snapshot.work_sessions.push(session("s1", "t1", "2026-01-01T00:30:00.000Z"));
    store.apply_sync_snapshot(snapshot).unwrap();
    let stored = store.get_task("t1").unwrap().unwrap();
    assert!(stored.is_blocked);
}

#[test]
fn merge_result_holds_each_identifier_once_newest_copy_kept() {
    let mut local = SyncSnapshot::default();
    local.tasks.push(task("a", "2026-01-02T00:00:00.000Z", 2));
    local.tasks.push(task("b", "2026-01-01T00:00:00.000Z", 1));
    let mut remote = SyncSnapshot::default();
    remote.tasks.push(task("a", "2026-01-02T00:00:00.000Z", 2));
    remote.tasks.push(task("b", "2026-01-03T00:00:00.000Z", 1));
    remote.tasks.push(task("c", "2026-01-01T00:00:00.000Z", 1));
    let mut remote_a = task("a", "2026-01-02T00:00:00.000Z", 2);
    remote_a.title = "远端".to_owned();
    remote.tasks[0] = remote_a;
    let merged = merge_sync_snapshots(local, remote);
    let mut ids: Vec<&str> = merged.tasks.iter().map(|t| t.id.as_str()).collect();
    ids.sort();
    assert_eq!(ids, vec!["a", "b", "c"]);
    let a = merged.tasks.iter().find(|t| t.id == "a").unwrap();
    assert_eq!(a.title, "任务 a");
    let b = merged.tasks.iter().find(|t| t.id == "b").unwrap();
    assert_eq!(b.updated_at, "2026-01-03T00:00:00.000Z");
}

#[test]
fn merge_leaves_one_open_record_and_none_for_finished_tasks() {
    let mut done = task("d", "2026-01-02T00:00:00.000Z", 2);
    done.status = TaskStatus::Completed;
    done.completed_at = Some("2026-01-02T00:00:00.000Z".to_owned());
    let mut remote = SyncSnapshot::default();
    remote.tasks.push(task("t", "2026-01-01T00:00:00.000Z", 1));
    remote.tasks.push(done);
    remote.task_blocks.push(block("b1", "t", "2026-01-01T01:00:00.000Z"));
    remote.task_blocks.push(block("b2", "t", "2026-01-01T02:00:00.000Z"));
    remote.work_sessions.push(session("s1", "d", "2026-01-01T03:00:00.000Z"));
    let merged = merge_sync_snapshots(SyncSnapshot::default(), remote);
    let open: Vec<&str> = merged
        .task_blocks
        .iter()
        .filter(|b| b.ended_at.is_none() && b.deleted_at.is_none())
        .map(|b| b.id.as_str())
        .collect();
    assert_eq!(open, vec!["b2"]);
    let b1 = merged.task_blocks.iter().find(|b| b.id == "b1").unwrap();
    assert_eq!(b1.ended_at.as_deref(), Some("2026-01-01T02:00:00.000Z"));
    assert_eq!(merged.work_sessions[0].ended_at.as_deref(), Some("2026-01-02T00:00:00.000Z"));
}
