use cardhannis_core::CreateTaskInput;
use cardhannis_core::settings::{
    default_auto_sync, default_supabase_schema, default_sync_interval_minutes, default_task_blocks_table,
    default_tasks_table, default_work_sessions_table, normalize_supabase_settings, valid_identifier,
    validate_supabase_settings, SupabaseSettings,
};

fn good() -> SupabaseSettings {
    let mut s = SupabaseSettings::default();
    s.url = "https://abc.supabase.co".to_owned();
    s.key = "sb_publishable_123".to_owned();
    s.auth_email = "me@example.com".to_owned();
    s.auth_password = "secret-password".to_owned();
    s
}

#[test]
fn settings_defaults() {
    let s = SupabaseSettings::default();
    assert!(s.url.is_empty() && s.key.is_empty());
    assert_eq!(s.schema, "public");
    assert!(s.auto_sync);
    assert_eq!(s.sync_interval_minutes, 5);
    assert_eq!(s.tables.workspaces, "workspaces");
    assert_eq!(s.tables.work_sessions, "work_sessions");
    assert!(default_auto_sync());
    assert_eq!(default_sync_interval_minutes(), 5);
    assert_eq!(default_supabase_schema(), "public");
    assert_eq!(default_tasks_table(), "tasks");
    assert_eq!(default_task_blocks_table(), "task_blocks");
    assert_eq!(default_work_sessions_table(), "work_sessions");
}

#[test]
fn settings_are_trimmed_and_lose_trailing_slashes() {
    let mut s = good();
    s.url = "  https://abc.supabase.co///  ".to_owned();
    s.key = " key ".to_owned();
    s.tables.tasks = "\ttasks\n".to_owned();
    let n = normalize_supabase_settings(s);
    assert_eq!(n.url, "https://abc.supabase.co");
    assert_eq!(n.key, "key");
    assert_eq!(n.tables.tasks, "tasks");
    assert_eq!(n.sync_interval_minutes, 5);
}

#[test]
fn identifiers_are_ascii_words() {
    assert!(valid_identifier("work_sessions"));
    assert!(valid_identifier("T2"));
    assert!(!valid_identifier(""));
    assert!(!valid_identifier("tasks-2"));
    assert!(!valid_identifier("任务"));
    assert!(!valid_identifier("a b"));
}

#[test]
fn settings_problems_come_in_order() {
    assert!(validate_supabase_settings(&good()).is_ok());
    let mut s = good();
    s.key = String::new();
    assert_eq!(validate_supabase_settings(&s).unwrap_err(), "请填写 Supabase Project URL 和 publishable/anon key");
    let mut s = good();
    s.url = "http://abc.supabase.co".to_owned();
    assert_eq!(validate_supabase_settings(&s).unwrap_err(), "Supabase Project URL 必须使用 HTTPS");
    let mut s = good();
    s.url = "https://abc.supabase.co/rest".to_owned();
    assert_eq!(validate_supabase_settings(&s).unwrap_err(), "Supabase Project URL 格式不正确");
    let mut s = good();
    s.url = "https://".to_owned();
    assert_eq!(validate_supabase_settings(&s).unwrap_err(), "Supabase Project URL 格式不正确");
    let mut s = good();
    s.key = "sb_secret_abc".to_owned();
    assert_eq!(
        validate_supabase_settings(&s).unwrap_err(),
        "不要填写 secret/service_role key，请使用 publishable/anon key"
    );
    let mut s = good();
    s.auth_password = String::new();
    assert_eq!(validate_supabase_settings(&s).unwrap_err(), "请填写 Supabase Auth 邮箱和密码");
    let mut s = good();
    s.sync_interval_minutes = 1441;
    assert_eq!(validate_supabase_settings(&s).unwrap_err(), "自动同步间隔必须在 1 到 1440 分钟之间");
    let mut s = good();
    s.schema = "my schema".to_owned();
    assert_eq!(
        validate_supabase_settings(&s).unwrap_err(),
        "Supabase schema 名称不能为空，只能包含字母、数字或下划线"
    );
    let mut s = good();
    s.tables.task_blocks = "blocks!".to_owned();
    assert_eq!(
        validate_supabase_settings(&s).unwrap_err(),
        "task_blocks 表名不能为空，只能包含字母、数字或下划线"
    );
}

#[test]
fn desktop_input_becomes_a_create_command() {
    let input = CreateTaskInput {
        title: "桌面".to_owned(),
        notes: Some("备注".to_owned()),
        estimated_active_minutes: Some(15),
        due_date: None,
        workspace_id: Some("work".to_owned()),
        priority_id: None,
    };
    let command = input.into_command("device-1".to_owned());
    assert_eq!(command.title, "桌面");
    assert_eq!(command.sort_order, 0);
    assert_eq!(command.created_device_id, "device-1");
    assert_eq!(command.workspace_id.as_deref(), Some("work"));
    assert_eq!(command.estimated_active_minutes, Some(15));
}
