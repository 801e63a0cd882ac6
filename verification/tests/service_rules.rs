use cardhannis_core::sync::time_key_of;
use cardhannis_core::{
    BlockTaskCommand, CreateTaskCommand, NewTask, SyncSnapshot, TaskService, TaskStatus, TaskStore, Workspace,
};

fn service() -> TaskService {
    TaskService::new(TaskStore::open_in_memory().unwrap())
}

#[test]
fn service_stamps_changes_with_the_current_time() {
    let mut service = service();
    let task = service
        .create(CreateTaskCommand {
            title: "现在".to_owned(),
            notes: None,
            estimated_active_minutes: None,
            due_date: None,
            sort_order: 0,
            created_device_id: "device".to_owned(),
            workspace_id: None,
            priority_id: None,
        })
        .unwrap();
    assert_eq!(task.created_at.len(), "2026-01-01T00:00:00.000Z".len());
    assert!(task.created_at.ends_with('Z'));
    assert!(time_key_of(&task.created_at).0 > 1_700_000_000);
    let started = service.start(&task.id, task.version).unwrap();
    assert_eq!(started.status, TaskStatus::InProgress);
    assert!(time_key_of(&started.updated_at) >= time_key_of(&task.created_at));
}

#[test]
fn blank_resolution_reason_is_not_stored() {
    let mut service = service();
    let task = service
        .create(CreateTaskCommand {
            title: "解除".to_owned(),
            notes: None,
            estimated_active_minutes: None,
            due_date: None,
            sort_order: 0,
            created_device_id: "device".to_owned(),
            workspace_id: None,
            priority_id: None,
        })
        .unwrap();
    let block = service.block(&task.id, BlockTaskCommand { reason: "等".to_owned(), note: None }).unwrap();
    let ended = service.unblock(&block.id, block.version, Some("   ")).unwrap();
    assert!(ended.resolution_reason.is_none());
    let block = service.block(&task.id, BlockTaskCommand { reason: "又等".to_owned(), note: None }).unwrap();
    let ended = service.unblock(&block.id, block.version, Some("  好了 ")).unwrap();
    assert_eq!(ended.resolution_reason.as_deref(), Some("好了"));
    assert_eq!(service.blocks(&task.id, false).unwrap().len(), 2);
}

#[test]
fn a_sync_round_stores_and_returns_the_merge() {
    let mut service = service();
    let remote = SyncSnapshot {
        workspaces: vec![Workspace {
            id: "remote".to_owned(),
            name: "远端".to_owned(),
            sort_order: 0,
            builtin: false,
            created_at: "2026-01-01T00:00:00.000Z".to_owned(),
            updated_at: "2026-01-01T00:00:00.000Z".to_owned(),
            deleted_at: None,
            version: 1,
        }],
        ..SyncSnapshot::default()
    };
    let round = service.merge_remote(remote).unwrap();
    assert_eq!(round.local_before.workspaces, 3);
    assert_eq!(round.local_before.priorities, 6);
    assert_eq!(round.remote_before.workspaces, 1);
    assert_eq!(round.merged_counts.workspaces, 1);
    assert_eq!(round.merged_counts.priorities, 0);
    assert_eq!(round.merged.workspaces[0].id, "remote");
    let stored = service.workspaces(true).unwrap();
    assert_eq!(stored.len(), 1);
    assert_eq!(stored[0].name, "远端");

    let bad = SyncSnapshot {
        workspaces: vec![Workspace {
            id: "blank".to_owned(),
            name: "  ".to_owned(),
            sort_order: 0,
            builtin: false,
            created_at: "2026-01-01T00:00:00.000Z".to_owned(),
            updated_at: "2026-01-01T00:00:00.000Z".to_owned(),
            deleted_at: None,
            version: 1,
        }],
        ..SyncSnapshot::default()
    };
    assert!(matches!(service.merge_remote(bad), Err(cardhannis_core::CoreError::InvalidInput(_))));
    assert_eq!(service.workspaces(true).unwrap().len(), 1);
}

#[test]
fn correcting_now_places_the_time_before_now() {
    let mut service = service();
    let task = service
        .store()
        .create_task_at(
            NewTask {
                title: "补录".to_owned(),
                notes: None,
                estimated_active_minutes: None,
                due_date: None,
                sort_order: 0,
                created_device_id: "device".to_owned(),
                workspace_id: None,
                priority_id: None,
            },
            "2026-01-01T08:00:00.000Z",
        )
        .unwrap();
    let corrected = service.correct_work_time(&task.id, task.version, 60).unwrap();
    assert_eq!(corrected.version, task.version + 1);
    let sessions = service.sessions(&task.id).unwrap();
    assert_eq!(sessions.len(), 1);
    let start = time_key_of(&sessions[0].started_at);
    let end = time_key_of(sessions[0].ended_at.as_deref().unwrap());
    assert_eq!(end.0 - start.0, 3600);
    assert_eq!(end.1, start.1);
}
