use cardhannis_core::remote::{normalize_remote_session, normalize_remote_task, normalize_remote_timestamp};
use cardhannis_core::settings::{next_auto_sync_step, AutoSyncStep, SupabaseSettings};
use cardhannis_core::{Task, TaskStatus, WorkSession};

#[test]
fn remote_stamps_become_utc_milliseconds() {
    assert_eq!(normalize_remote_timestamp("2026-01-01T08:00:00+08:00"), "2026-01-01T00:00:00.000Z");
    assert_eq!(normalize_remote_timestamp("2026-01-01T00:00:00.123456+00:00"), "2026-01-01T00:00:00.123Z");
    assert_eq!(normalize_remote_timestamp("2026-03-05T10:20:30Z"), "2026-03-05T10:20:30.000Z");
    assert_eq!(normalize_remote_timestamp("yesterday"), "yesterday");
}

#[test]
fn remote_records_have_every_stamp_normalized() {
    let task = Task {
        id: "t".to_owned(),
        title: "远端".to_owned(),
        notes: None,
        review_notes: None,
        estimated_active_minutes: Some(5),
        due_date: Some("2026-09-05".to_owned()),
        created_at: "2026-01-01T08:00:00+08:00".to_owned(),
        started_at: Some("2026-01-01T09:30:00+01:00".to_owned()),
        completed_at: None,
        status: TaskStatus::InProgress,
        sort_order: 2,
        created_device_id: "d".to_owned(),
        updated_at: "2026-01-01T10:00:00.5+00:00".to_owned(),
        deleted_at: None,
        version: 4,
        is_blocked: false,
        workspace_id: Some("work".to_owned()),
        priority_id: None,
        home_workspace_id: Some("work".to_owned()),
    };
    let t = normalize_remote_task(task);
    assert_eq!(t.created_at, "2026-01-01T00:00:00.000Z");
    assert_eq!(t.started_at.as_deref(), Some("2026-01-01T08:30:00.000Z"));
    assert_eq!(t.updated_at, "2026-01-01T10:00:00.500Z");
    assert!(t.completed_at.is_none());
    assert_eq!(t.due_date.as_deref(), Some("2026-09-05"));
    assert_eq!(t.version, 4);
    let s = normalize_remote_session(WorkSession {
        id: "s".to_owned(),
        task_id: "t".to_owned(),
        started_at: "2026-01-01T01:00:00-01:00".to_owned(),
        ended_at: Some("bad".to_owned()),
        note: None,
        created_at: "2026-01-01T02:00:00Z".to_owned(),
    });
    assert_eq!(s.started_at, "2026-01-01T02:00:00.000Z");
    assert_eq!(s.ended_at.as_deref(), Some("bad"));
    assert_eq!(s.created_at, "2026-01-01T02:00:00.000Z");
}

#[test]
fn automatic_sync_waits_one_interval_or_thirty_seconds() {
    let mut settings = SupabaseSettings::default();
    settings.sync_interval_minutes = 7;
    assert_eq!(next_auto_sync_step(&settings), AutoSyncStep::Synchronize { wait_seconds: 420 });
    settings.auto_sync = false;
    assert_eq!(next_auto_sync_step(&settings), AutoSyncStep::Idle { wait_seconds: 30 });
}
