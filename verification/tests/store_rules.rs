use cardhannis_core::{merge_sync_snapshots, CoreError, NewTask, SyncSnapshot, TaskStatus, TaskStore};

fn new_task(title: &str) -> NewTask {
    NewTask {
        title: title.to_owned(),
        notes: None,
        estimated_active_minutes: None,
        due_date: None,
        sort_order: 0,
        created_device_id: "test-device".to_owned(),
        workspace_id: None,
        priority_id: None,
    }
}

fn store() -> TaskStore {
    TaskStore::open_in_memory().unwrap()
}

#[test]
fn new_store_holds_the_initial_workspaces_and_priorities() {
    let store = store();
    let workspaces = store.list_workspaces(false).unwrap();
    let ids: Vec<&str> = workspaces.iter().map(|w| w.id.as_str()).collect();
    assert_eq!(ids, vec!["daily", "work", "done"]);
    let names: Vec<&str> = workspaces.iter().map(|w| w.name.as_str()).collect();
    assert_eq!(names, vec!["日常", "工作", "已完成"]);
    assert!(workspaces[2].builtin);
    let priorities = store.list_priorities(false).unwrap();
    let ids: Vec<&str> = priorities.iter().map(|p| p.id.as_str()).collect();
    assert_eq!(ids, vec!["P0", "P1", "P2", "work-P0", "work-P1", "work-P2"]);
    assert_eq!(priorities[0].color.as_deref(), Some("#b0432f"));
    assert!(store.list_tasks(true).unwrap().is_empty());
}

#[test]
fn created_task_is_trimmed_pending_and_versioned() {
    let mut store = store();
    let task = store.create_task_at(new_task("  写测试  "), "2026-01-01T08:00:00.000Z").unwrap();
    assert_eq!(task.title, "写测试");
    assert_eq!(task.status, TaskStatus::Pending);
    assert_eq!(task.version, 1);
    assert_eq!(task.id.len(), 36);
    assert_eq!(task.created_at, "2026-01-01T08:00:00.000Z");
    assert_eq!(task.updated_at, "2026-01-01T08:00:00.000Z");
    assert!(!task.is_blocked);
}

#[test]
fn blank_title_is_refused() {
    let mut store = store();
    let err = store.create_task_at(new_task("   "), "2026-01-01T08:00:00.000Z").unwrap_err();
    assert!(matches!(err, CoreError::InvalidInput(_)));
    assert!(store.list_tasks(true).unwrap().is_empty());
}

#[test]
fn unknown_workspace_and_priority_are_reported() {
    let mut store = store();
    let mut input = new_task("任务");
    input.workspace_id = Some("nowhere".to_owned());
    let err = store.create_task_at(input, "2026-01-01T08:00:00.000Z").unwrap_err();
    assert!(matches!(err, CoreError::WorkspaceNotFound(ref id) if id == "nowhere"));
    let mut input = new_task("任务");
    input.priority_id = Some("P9".to_owned());
    let err = store.create_task_at(input, "2026-01-01T08:00:00.000Z").unwrap_err();
    assert!(matches!(err, CoreError::PriorityNotFound(ref id) if id == "P9"));
}

#[test]
fn one_running_session_per_task() {
    let mut store = store();
    let task = store.create_task_at(new_task("计时"), "2026-01-01T08:00:00.000Z").unwrap();
    let session = store.start_work(&task.id, "2026-01-01T09:00:00.000Z", Some("开始")).unwrap();
    assert_eq!(session.note.as_deref(), Some("开始"));
    let err = store.start_work(&task.id, "2026-01-01T09:30:00.000Z", None).unwrap_err();
    assert!(matches!(err, CoreError::ActiveSessionExists));
    let task = store.get_task(&task.id).unwrap().unwrap();
    assert_eq!(task.status, TaskStatus::InProgress);
    assert_eq!(task.started_at.as_deref(), Some("2026-01-01T09:00:00.000Z"));
    assert_eq!(task.version, 2);
    let ended = store.end_work(&session.id, "2026-01-01T10:00:00.000Z").unwrap();
    assert_eq!(ended.ended_at.as_deref(), Some("2026-01-01T10:00:00.000Z"));
    let err = store.end_work(&session.id, "2026-01-01T11:00:00.000Z").unwrap_err();
    assert!(matches!(err, CoreError::InvalidState(_)));
    let err = store.end_work("missing", "2026-01-01T11:00:00.000Z").unwrap_err();
    assert!(matches!(err, CoreError::SessionNotFound(ref id) if id == "missing"));
}

#[test]
fn one_open_block_per_task_and_blocking_ends_work() {
    let mut store = store();
    let task = store.create_task_at(new_task("阻塞"), "2026-01-01T08:00:00.000Z").unwrap();
    store.start_work(&task.id, "2026-01-01T09:00:00.000Z", None).unwrap();
    let block = store.start_block(&task.id, "  等待  ", None, "2026-01-01T10:00:00.000Z").unwrap();
    assert_eq!(block.reason, "等待");
    let sessions = store.list_sessions(&task.id).unwrap();
    assert_eq!(sessions[0].ended_at.as_deref(), Some("2026-01-01T10:00:00.000Z"));
    let err = store.start_block(&task.id, "再次", None, "2026-01-01T10:30:00.000Z").unwrap_err();
    assert!(matches!(err, CoreError::ActiveBlockExists));
    let err = store.start_work(&task.id, "2026-01-01T10:45:00.000Z", None).unwrap_err();
    assert!(matches!(err, CoreError::InvalidState(_)));
    let task = store.get_task(&task.id).unwrap().unwrap();
    let err = store.set_status(&task.id, task.version, TaskStatus::Completed, "2026-01-01T11:00:00.000Z").unwrap_err();
    assert!(matches!(err, CoreError::InvalidState(_)));
    let err = store.end_block(&block.id, block.version + 1, None, "2026-01-01T12:00:00.000Z").unwrap_err();
    assert!(matches!(err, CoreError::VersionConflict));
    let ended = store.end_block(&block.id, block.version, None, "2026-01-01T12:00:00.000Z").unwrap();
    assert_eq!(ended.version, block.version + 1);
    let task = store.get_task(&task.id).unwrap().unwrap();
    assert_eq!(task.status, TaskStatus::Pending);
    assert!(!task.is_blocked);
    let err = store.end_block("missing", 1, None, "2026-01-01T12:00:00.000Z").unwrap_err();
    assert!(matches!(err, CoreError::BlockNotFound(ref id) if id == "missing"));
}

#[test]
fn completing_then_reopening_without_home_returns_to_daily() {
    let mut store = store();
    let task = store.create_task_at(new_task("无工作区"), "2026-01-01T08:00:00.000Z").unwrap();
    assert!(task.home_workspace_id.is_none());
    let done = store.set_status(&task.id, task.version, TaskStatus::Completed, "2026-01-01T09:00:00.000Z").unwrap();
    assert_eq!(done.workspace_id.as_deref(), Some("done"));
    assert_eq!(done.completed_at.as_deref(), Some("2026-01-01T09:00:00.000Z"));
    let reopened = store.reopen_task(&done.id, done.version, "2026-01-01T10:00:00.000Z").unwrap();
    assert_eq!(reopened.workspace_id.as_deref(), Some("daily"));
    assert_eq!(reopened.status, TaskStatus::Pending);
    assert!(reopened.completed_at.is_none());
    assert_eq!(reopened.version, task.version + 2);
}

#[test]
fn deleted_task_is_hidden_and_frozen() {
    let mut store = store();
    let task = store.create_task_at(new_task("删除"), "2026-01-01T08:00:00.000Z").unwrap();
    let err = store.soft_delete_task(&task.id, task.version + 1, "2026-01-01T09:00:00.000Z").unwrap_err();
    assert!(matches!(err, CoreError::VersionConflict));
    store.soft_delete_task(&task.id, task.version, "2026-01-01T09:00:00.000Z").unwrap();
    assert!(store.list_tasks(false).unwrap().is_empty());
    let all = store.list_tasks(true).unwrap();
    assert_eq!(all.len(), 1);
    assert_eq!(all[0].deleted_at.as_deref(), Some("2026-01-01T09:00:00.000Z"));
    let err = store.start_work(&task.id, "2026-01-01T10:00:00.000Z", None).unwrap_err();
    assert!(matches!(err, CoreError::InvalidState(_)));
    let err = store.get_task("missing").unwrap();
    assert!(err.is_none());
    let err = store.soft_delete_task("missing", 1, "2026-01-01T09:00:00.000Z").unwrap_err();
    assert!(matches!(err, CoreError::TaskNotFound(ref id) if id == "missing"));
}

#[test]
fn done_workspace_stays_last_after_creating_workspaces() {
    let mut store = store();
    store.create_workspace("甲", "2026-01-01T08:00:00.000Z").unwrap();
    store.create_workspace("乙", "2026-01-01T09:00:00.000Z").unwrap();
    let workspaces = store.list_workspaces(false).unwrap();
    assert_eq!(workspaces.len(), 5);
    assert_eq!(workspaces.last().unwrap().id, "done");
    let names: Vec<&str> = workspaces.iter().map(|w| w.name.as_str()).collect();
    assert_eq!(names, vec!["日常", "工作", "甲", "乙", "已完成"]);
}

#[test]
fn new_workspace_gets_three_priorities_and_keeps_one() {
    let mut store = store();
    let ws = store.create_workspace(" 学习 ", "2026-01-01T08:00:00.000Z").unwrap();
    assert_eq!(ws.name, "学习");
    assert_eq!(ws.sort_order, 2);
    let mine: Vec<_> = store
        .list_priorities(false)
        .unwrap()
        .into_iter()
        .filter(|p| p.workspace_id == ws.id)
        .collect();
    let names: Vec<&str> = mine.iter().map(|p| p.name.as_str()).collect();
    assert_eq!(names, vec!["P0", "P1", "P2"]);
    store.soft_delete_priority(&mine[0].id, mine[0].version, "2026-01-01T09:00:00.000Z").unwrap();
    store.soft_delete_priority(&mine[1].id, mine[1].version, "2026-01-01T09:00:00.000Z").unwrap();
    let err = store.soft_delete_priority(&mine[2].id, mine[2].version, "2026-01-01T09:00:00.000Z").unwrap_err();
    assert!(matches!(err, CoreError::InvalidState(_)));
    let err = store.create_workspace("  ", "2026-01-01T08:00:00.000Z").unwrap_err();
    assert!(matches!(err, CoreError::InvalidInput(_)));
}

#[test]
fn status_names_read_back_and_unknown_names_are_refused() {
    for status in [TaskStatus::Pending, TaskStatus::InProgress, TaskStatus::Completed] {
        assert_eq!(TaskStatus::parse(status.as_str()).unwrap(), status);
    }
    assert_eq!(TaskStatus::InProgress.as_str(), "in_progress");
    let err = TaskStatus::parse("paused").unwrap_err();
    assert!(matches!(err, CoreError::InvalidStatus(ref s) if s == "paused"));
}

#[test]
fn error_messages_carry_their_detail() {
    assert_eq!(CoreError::TaskNotFound("t1".to_owned()).message(), "任务不存在: t1");
    assert_eq!(CoreError::VersionConflict.message(), "版本冲突");
    assert_eq!(CoreError::ActiveSessionExists.message(), "任务已有进行中的工作会话");
    assert_eq!(CoreError::InvalidInput("x".to_owned()).message(), "参数无效: x");
}

#[test]
fn version_at_its_limit_is_a_storage_error() {
    let mut store = store();
    let task = store.create_task_at(new_task("上限"), "2026-01-01T08:00:00.000Z").unwrap();
    let local = store.sync_snapshot().unwrap();
    let mut remote_task = task.clone();
    remote_task.version = i64::MAX;
    remote_task.updated_at = "2027-01-01T00:00:00.000Z".to_owned();
    let remote = SyncSnapshot { tasks: vec![remote_task], ..SyncSnapshot::default() };
    store.apply_sync_snapshot(merge_sync_snapshots(local, remote)).unwrap();
    let stored = store.get_task(&task.id).unwrap().unwrap();
    assert_eq!(stored.version, i64::MAX);
    let err = store
        .set_status(&task.id, i64::MAX, TaskStatus::InProgress, "2027-01-02T00:00:00.000Z")
        .unwrap_err();
    assert!(matches!(err, CoreError::Database(_)));
}

#[test]
fn invalid_due_date_is_refused() {
    let mut store = store();
    let mut input = new_task("日期");
    input.due_date = Some("2026-02-30".to_owned());
    let err = store.create_task_at(input, "2026-01-01T08:00:00.000Z").unwrap_err();
    assert!(matches!(err, CoreError::InvalidInput(_)));
    let mut input = new_task("日期");
    input.due_date = Some("2028-02-29".to_owned());
    let task = store.create_task_at(input, "2026-01-01T08:00:00.000Z").unwrap();
    assert_eq!(task.due_date.as_deref(), Some("2028-02-29"));
}

#[test]
fn correction_needs_room_and_a_live_task() {
    let mut store = store();
    let task = store.create_task_at(new_task("修正"), "2026-01-01T08:00:00.000Z").unwrap();
    let err = store
        .correct_work_time_at(&task.id, task.version, 61, "2026-01-01T09:00:00.000Z")
        .unwrap_err();
    assert!(matches!(err, CoreError::InvalidInput(_)));
    let err = store
        .correct_work_time_at(&task.id, task.version, 10, "2026-01-01T07:00:00.000Z")
        .unwrap_err();
    assert!(matches!(err, CoreError::InvalidState(_)));
    let err = store.correct_work_time_at("missing", 1, 10, "2026-01-01T09:00:00.000Z").unwrap_err();
    assert!(matches!(err, CoreError::TaskNotFound(_)));
    let exact = store
        .correct_work_time_at(&task.id, task.version, 60, "2026-01-01T09:00:00.000Z")
        .unwrap();
    assert_eq!(exact.version, task.version + 1);
    assert_eq!(exact.updated_at, "2026-01-01T09:00:00.000Z");
    let sessions = store.list_sessions(&task.id).unwrap();
    assert_eq!(sessions.len(), 1);
    assert_eq!(sessions[0].started_at, "2026-01-01T08:00:00.000Z");
    assert_eq!(sessions[0].ended_at.as_deref(), Some("2026-01-01T09:00:00.000Z"));
    assert_eq!(sessions[0].created_at, "2026-01-01T09:00:00.000Z");
    store.soft_delete_task(&task.id, exact.version, "2026-01-01T10:00:00.000Z").unwrap();
    let err = store
        .correct_work_time_at(&task.id, exact.version + 1, 10, "2026-01-01T11:00:00.000Z")
        .unwrap_err();
    assert!(matches!(err, CoreError::InvalidState(_)));
}

#[test]
fn correction_reuses_sessions_in_start_order_and_drops_extra_ones() {
    let mut store = store();
    let task = store.create_task_at(new_task("多段"), "2026-01-01T08:00:00.000Z").unwrap();
    let first = store.start_work(&task.id, "2026-01-01T08:00:00.000Z", Some("一")).unwrap();
    store.end_work(&first.id, "2026-01-01T09:00:00.000Z").unwrap();
    let second = store.start_work(&task.id, "2026-01-01T10:00:00.000Z", Some("二")).unwrap();
    store.end_work(&second.id, "2026-01-01T11:00:00.000Z").unwrap();
    let task = store.get_task(&task.id).unwrap().unwrap();
    let task = store.set_status(&task.id, task.version, TaskStatus::Pending, "2026-01-01T12:00:00.000Z").unwrap();
    store
        .correct_work_time_at(&task.id, task.version, 30, "2026-01-01T12:00:00.000Z")
        .unwrap();
    let sessions = store.list_sessions(&task.id).unwrap();
    assert_eq!(sessions.len(), 1);
    assert_eq!(sessions[0].id, first.id);
    assert_eq!(sessions[0].note.as_deref(), Some("一"));
    assert_eq!(sessions[0].started_at, "2026-01-01T11:30:00.000Z");
    assert_eq!(sessions[0].ended_at.as_deref(), Some("2026-01-01T12:00:00.000Z"));
}

#[test]
fn overview_counts_live_tasks_and_whole_minutes() {
    let mut store = store();
    let a = store.create_task_at(new_task("甲"), "2026-01-01T07:00:00.000Z").unwrap();
    let b = store.create_task_at(new_task("乙"), "2026-01-01T07:00:00.000Z").unwrap();
    let c = store.create_task_at(new_task("丙"), "2026-01-01T07:00:00.000Z").unwrap();
    let s = store.start_work(&a.id, "2026-01-01T08:00:00.000Z", None).unwrap();
    store.end_work(&s.id, "2026-01-01T09:31:59.000Z").unwrap();
    let a = store.get_task(&a.id).unwrap().unwrap();
    store.set_status(&a.id, a.version, TaskStatus::Completed, "2026-01-01T10:00:00.000Z").unwrap();
    store.start_work(&b.id, "2026-01-01T11:00:00.000Z", None).unwrap();
    let s = store.start_work(&c.id, "2026-01-01T08:00:00.000Z", None).unwrap();
    store.end_work(&s.id, "2026-01-01T10:00:00.000Z").unwrap();
    let c = store.get_task(&c.id).unwrap().unwrap();
    store.soft_delete_task(&c.id, c.version, "2026-01-01T10:30:00.000Z").unwrap();
    let noon = 1_767_268_800;
    let summary = store.activity_summary(noon);
    assert_eq!(summary.task_count, 2);
    assert_eq!(summary.completed_count, 1);
    assert_eq!(summary.in_progress_count, 1);
    assert_eq!(summary.active_minutes, 91 + 60);
}

#[test]
fn unpadded_due_date_is_refused() {
    let mut store = store();
    let mut input = new_task("日期");
    input.due_date = Some("2026-9-5".to_owned());
    let err = store.create_task_at(input, "2026-01-01T08:00:00.000Z").unwrap_err();
    assert!(matches!(err, CoreError::InvalidInput(_)));
    assert!(store.list_tasks(true).unwrap().is_empty());
    let task = store.create_task_at(new_task("日期"), "2026-01-01T08:00:00.000Z").unwrap();
    let err = store
        .update_task(
            &task.id,
            task.version,
            "日期",
            None,
            None,
            None,
            Some("2026-09-5"),
            0,
            None,
            None,
            "2026-01-01T09:00:00.000Z",
        )
        .unwrap_err();
    assert!(matches!(err, CoreError::InvalidInput(_)));
}

#[test]
fn supplied_identifiers_are_used_and_taken_ones_refused() {
    let mut store = store();
    let task = store
        .create_task_with_id(new_task("甲"), "2026-01-01T08:00:00.000Z", "task-1".to_owned())
        .unwrap();
    assert_eq!(task.id, "task-1");
    let err = store
        .create_task_with_id(new_task("乙"), "2026-01-01T08:00:00.000Z", "task-1".to_owned())
        .unwrap_err();
    assert!(matches!(err, CoreError::Database(_)));
    assert_eq!(store.list_tasks(true).unwrap().len(), 1);

    let err = store
        .create_workspace_with_ids("项目", "2026-01-01T08:00:00.000Z", "w".to_owned(), "a".to_owned(), "a".to_owned(), "b".to_owned())
        .unwrap_err();
    assert!(matches!(err, CoreError::Database(_)));
    let err = store
        .create_workspace_with_ids("项目", "2026-01-01T08:00:00.000Z", "daily".to_owned(), "a".to_owned(), "b".to_owned(), "c".to_owned())
        .unwrap_err();
    assert!(matches!(err, CoreError::Database(_)));
    let err = store
        .create_workspace_with_ids("   ", "2026-01-01T08:00:00.000Z", "daily".to_owned(), "a".to_owned(), "b".to_owned(), "c".to_owned())
        .unwrap_err();
    assert!(matches!(err, CoreError::InvalidInput(_)));
    let ws = store
        .create_workspace_with_ids("项目", "2026-01-01T08:00:00.000Z", "w".to_owned(), "a".to_owned(), "b".to_owned(), "c".to_owned())
        .unwrap();
    assert_eq!(ws.id, "w");
    let ids: Vec<String> = store
        .list_priorities(false)
        .unwrap()
        .into_iter()
        .filter(|p| p.workspace_id == "w")
        .map(|p| p.id)
        .collect();
    assert_eq!(ids, vec!["a", "b", "c"]);

    let err = store
        .create_priority_with_id("w", "P3", None, "2026-01-01T08:00:00.000Z", "P0".to_owned())
        .unwrap_err();
    assert!(matches!(err, CoreError::Database(_)));
    let p = store
        .create_priority_with_id("w", "P3", None, "2026-01-01T08:00:00.000Z", "d".to_owned())
        .unwrap();
    assert_eq!(p.id, "d");

    let session = store
        .start_work_with_id(&task.id, "2026-01-01T08:00:00.000Z", None, "s-1".to_owned())
        .unwrap();
    assert_eq!(session.id, "s-1");
    store.end_work("s-1", "2026-01-01T09:00:00.000Z").unwrap();
    let err = store
        .start_work_with_id(&task.id, "2026-01-01T10:00:00.000Z", None, "s-1".to_owned())
        .unwrap_err();
    assert!(matches!(err, CoreError::Database(_)));
    let block = store
        .start_block_with_id(&task.id, "等待", None, "2026-01-01T10:00:00.000Z", "b-1".to_owned())
        .unwrap();
    assert_eq!(block.id, "b-1");
    let other = store
        .create_task_with_id(new_task("乙"), "2026-01-01T08:00:00.000Z", "task-2".to_owned())
        .unwrap();
    let err = store
        .start_block_with_id(&other.id, "等待", None, "2026-01-01T10:00:00.000Z", "b-1".to_owned())
        .unwrap_err();
    assert!(matches!(err, CoreError::Database(_)));
}

#[test]
fn correction_takes_supplied_identifiers_for_added_sessions() {
    let mut store = store();
    let task = store.create_task_at(new_task("补录"), "2026-01-01T08:00:00.000Z").unwrap();
    let err = store
        .correct_work_time_with_ids(&task.id, task.version, 60, "2026-01-01T18:00:00.000Z", Vec::new())
        .unwrap_err();
    assert!(matches!(err, CoreError::Database(_)));
    let other = store.create_task_at(new_task("别的"), "2026-01-01T08:00:00.000Z").unwrap();
    let s = store.start_work(&other.id, "2026-01-01T08:00:00.000Z", None).unwrap();
    let err = store
        .correct_work_time_with_ids(&task.id, task.version, 60, "2026-01-01T18:00:00.000Z", vec![s.id.clone()])
        .unwrap_err();
    assert!(matches!(err, CoreError::Database(_)));
    assert!(store.list_sessions(&task.id).unwrap().is_empty());
    let fixed = store
        .correct_work_time_with_ids(&task.id, task.version, 60, "2026-01-01T18:00:00.000Z", vec!["new-1".to_owned()])
        .unwrap();
    assert_eq!(fixed.version, task.version + 1);
    let sessions = store.list_sessions(&task.id).unwrap();
    assert_eq!(sessions.len(), 1);
    assert_eq!(sessions[0].id, "new-1");
    assert_eq!(sessions[0].started_at, "2026-01-01T17:00:00.000Z");
    assert_eq!(sessions[0].ended_at.as_deref(), Some("2026-01-01T18:00:00.000Z"));
}

#[test]
fn references_to_missing_workspaces_are_storage_errors() {
    let mut store = store();
    let task = store.create_task_at(new_task("引用"), "2026-01-01T08:00:00.000Z").unwrap();
    assert!(!task.is_blocked);
    let err = store
        .update_task(&task.id, task.version, "引用", None, None, None, None, 0, Some("nowhere"), None, "2026-01-01T09:00:00.000Z")
        .unwrap_err();
    assert!(matches!(err, CoreError::Database(_)));
    assert_eq!(store.get_task(&task.id).unwrap().unwrap().version, task.version);
    let moved = store
        .update_task(&task.id, task.version, "引用", None, None, None, None, 0, Some("work"), None, "2026-01-01T09:00:00.000Z")
        .unwrap();
    assert_eq!(moved.workspace_id.as_deref(), Some("work"));
    assert_eq!(moved.home_workspace_id.as_deref(), Some("work"));
}

#[test]
fn completing_without_the_done_workspace_is_a_storage_error() {
    let mut store = store();
    let mut snapshot = store.sync_snapshot().unwrap();
    snapshot.workspaces.retain(|w| w.id != "done");
    store.apply_sync_snapshot(snapshot).unwrap();
    let task = store.create_task_at(new_task("完成"), "2026-01-01T08:00:00.000Z").unwrap();
    let err = store
        .set_status(&task.id, task.version, TaskStatus::Completed, "2026-01-01T09:00:00.000Z")
        .unwrap_err();
    assert!(matches!(err, CoreError::Database(_)));
}
