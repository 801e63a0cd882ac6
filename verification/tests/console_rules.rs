use cardhannis_core::settings::SupabaseSettings;
use cardhannis_core::console::{
    console_after_start, start_sync_round, ConsoleState, SyncStart,
    console_start_step, next_console_watch, next_page_offset, sync_busy_message, sync_gate, upload_chunks,
    ConsoleStart, ConsoleWatch, SyncGate, IDLE_TIMEOUT_MILLIS, REMOTE_PAGE_SIZE, UPLOAD_CHUNK_ROWS,
};

#[test]
fn console_start_touches_a_running_console_and_binds_otherwise() {
    assert_eq!(console_start_step(true), ConsoleStart::Touch);
    assert_eq!(console_start_step(false), ConsoleStart::Bind);
}

#[test]
fn console_watcher_closes_after_five_idle_minutes() {
    assert_eq!(IDLE_TIMEOUT_MILLIS, 300_000);
    assert_eq!(next_console_watch(false, 1_000_000, 0), ConsoleWatch::Exit);
    assert_eq!(next_console_watch(true, 1_000_000, 700_000), ConsoleWatch::Stop);
    assert_eq!(next_console_watch(true, 1_000_000, 700_001), ConsoleWatch::Wait { seconds: 10 });
    assert_eq!(next_console_watch(true, 5, 10), ConsoleWatch::Wait { seconds: 10 });
}

#[test]
fn remote_paging_stops_on_a_short_page() {
    assert_eq!(REMOTE_PAGE_SIZE, 1000);
    assert_eq!(next_page_offset(0, 1000), Some(1000));
    assert_eq!(next_page_offset(1000, 1000), Some(2000));
    assert_eq!(next_page_offset(2000, 999), None);
    assert_eq!(next_page_offset(0, 0), None);
}

#[test]
fn uploads_go_in_batches_of_five_hundred() {
    assert_eq!(UPLOAD_CHUNK_ROWS, 500);
    assert!(upload_chunks(0).is_empty());
    assert_eq!(upload_chunks(500), vec![(0, 500)]);
    assert_eq!(upload_chunks(1201), vec![(0, 500), (500, 1000), (1000, 1201)]);
    assert_eq!(upload_chunks(1), vec![(0, 1)]);
}

#[test]
fn a_second_synchronization_is_refused_while_one_runs() {
    assert_eq!(sync_gate(true), SyncGate::Busy);
    assert_eq!(sync_gate(false), SyncGate::Begin);
    assert_eq!(sync_busy_message(), "同步正在进行中");
}

#[test]
fn a_started_console_runs_with_fresh_activity() {
    let idle = ConsoleState { running: false, last_activity_millis: 5 };
    assert_eq!(console_after_start(idle, 100, true), ConsoleState { running: true, last_activity_millis: 100 });
    assert_eq!(console_after_start(idle, 100, false), idle);
    let running = ConsoleState { running: true, last_activity_millis: 5 };
    assert_eq!(console_after_start(running, 100, false), ConsoleState { running: true, last_activity_millis: 100 });
}

#[test]
fn a_sync_round_checks_settings_before_signing_in() {
    let mut good = SupabaseSettings::default();
    good.url = " https://abc.supabase.co/ ".to_owned();
    good.key = "sb_publishable_123".to_owned();
    good.auth_email = "me@example.com".to_owned();
    good.auth_password = "secret-password".to_owned();
    match start_sync_round(false, good) {
        SyncStart::Authenticate(s) => assert_eq!(s.url, "https://abc.supabase.co"),
        _ => panic!("expected to sign in"),
    }
    match start_sync_round(false, SupabaseSettings::default()) {
        SyncStart::Invalid(m) => assert_eq!(m, "请填写 Supabase Project URL 和 publishable/anon key"),
        _ => panic!("expected a refusal"),
    }
    match start_sync_round(true, SupabaseSettings::default()) {
        SyncStart::Busy(m) => assert_eq!(m, "同步正在进行中"),
        _ => panic!("expected busy"),
    }
}
