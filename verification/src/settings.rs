//! Settings of the remote synchronization service: their defaults, how they
//! are cleaned up, and the checks they must pass before a synchronization.

use vstd::prelude::*;
use crate::text::{trim, trimmed};

verus! {

/// Names of the five remote tables.
#[derive(Debug)]
pub struct SupabaseTableSettings {
    pub workspaces: String,
    pub priorities: String,
    pub tasks: String,
    pub task_blocks: String,
    pub work_sessions: String,
}

/// Where and how to synchronize.
#[derive(Debug)]
pub struct SupabaseSettings {
    pub url: String,
    pub key: String,
    pub schema: String,
    pub auth_email: String,
    pub auth_password: String,
    pub auto_sync: bool,
    pub sync_interval_minutes: u64,
    pub tables: SupabaseTableSettings,
}

/// Whether synchronization runs on its own by default.
pub fn default_auto_sync() -> (r: bool)
    ensures
        r,
{
    true
}

/// The default interval between automatic synchronizations, in minutes.
pub fn default_sync_interval_minutes() -> (r: u64)
    ensures
        r == 5,
{
    5
}

/// The default remote schema.
pub fn default_supabase_schema() -> (r: String)
    ensures
        r@ == "public"@,
{
    String::from_str("public")
}

/// The default name of the workspace table.
pub fn default_workspaces_table() -> (r: String)
    ensures
        r@ == "workspaces"@,
{
    String::from_str("workspaces")
}

/// The default name of the priority table.
pub fn default_priorities_table() -> (r: String)
    ensures
        r@ == "priorities"@,
{
    String::from_str("priorities")
}

/// The default name of the task table.
pub fn default_tasks_table() -> (r: String)
    ensures
        r@ == "tasks"@,
{
    String::from_str("tasks")
}

/// The default name of the block record table.
pub fn default_task_blocks_table() -> (r: String)
    ensures
        r@ == "task_blocks"@,
{
    String::from_str("task_blocks")
}

/// The default name of the work session table.
pub fn default_work_sessions_table() -> (r: String)
    ensures
        r@ == "work_sessions"@,
{
    String::from_str("work_sessions")
}

impl Default for SupabaseTableSettings {
    fn default() -> (r: SupabaseTableSettings)
        ensures
            r.workspaces@ == "workspaces"@,
            r.priorities@ == "priorities"@,
            r.tasks@ == "tasks"@,
            r.task_blocks@ == "task_blocks"@,
            r.work_sessions@ == "work_sessions"@,
    {
        SupabaseTableSettings {
            workspaces: default_workspaces_table(),
            priorities: default_priorities_table(),
            tasks: default_tasks_table(),
            task_blocks: default_task_blocks_table(),
            work_sessions: default_work_sessions_table(),
        }
    }
}

impl Default for SupabaseSettings {
    fn default() -> (r: SupabaseSettings)
        ensures
            r.url@.len() == 0,
            r.key@.len() == 0,
            r.schema@ == "public"@,
            r.auth_email@.len() == 0,
            r.auth_password@.len() == 0,
            r.auto_sync,
            r.sync_interval_minutes == 5,
            r.tables.workspaces@ == "workspaces"@,
            r.tables.priorities@ == "priorities"@,
            r.tables.tasks@ == "tasks"@,
            r.tables.task_blocks@ == "task_blocks"@,
            r.tables.work_sessions@ == "work_sessions"@,
    {
        SupabaseSettings {
            url: String::new(),
            key: String::new(),
            schema: default_supabase_schema(),
            auth_email: String::new(),
            auth_password: String::new(),
            auto_sync: default_auto_sync(),
            sync_interval_minutes: default_sync_interval_minutes(),
            tables: SupabaseTableSettings::default(),
        }
    }
}

/// `s` without the slashes at its end.
pub open spec fn without_trailing_slashes(s: Seq<char>) -> Seq<char>
    decreases s.len(),
{
    if s.len() > 0 && s.last() == '/' {
        without_trailing_slashes(s.drop_last())
    } else {
        s
    }
}

/// The settings with every text trimmed, and the address without slashes at its end.
pub open spec fn normalized_settings(old: SupabaseSettings, new: SupabaseSettings) -> bool {
    &&& new.url@ == without_trailing_slashes(trimmed(old.url@))
    &&& new.key@ == trimmed(old.key@)
    &&& new.schema@ == trimmed(old.schema@)
    &&& new.auth_email@ == trimmed(old.auth_email@)
    &&& new.auth_password@ == trimmed(old.auth_password@)
    &&& new.auto_sync == old.auto_sync
    &&& new.sync_interval_minutes == old.sync_interval_minutes
    &&& new.tables.workspaces@ == trimmed(old.tables.workspaces@)
    &&& new.tables.priorities@ == trimmed(old.tables.priorities@)
    &&& new.tables.tasks@ == trimmed(old.tables.tasks@)
    &&& new.tables.task_blocks@ == trimmed(old.tables.task_blocks@)
    &&& new.tables.work_sessions@ == trimmed(old.tables.work_sessions@)
}

fn strip_trailing_slashes(s: &str) -> (r: String)
    ensures
        r@ == without_trailing_slashes(s@),
{
    let n = s.unicode_len();
    let mut j = n;
    proof {
        assert(s@.take(n as int) =~= s@);
    }
    while j > 0 && s.get_char(j - 1) == '/'
        invariant
            n == s@.len(),
            j <= n,
            without_trailing_slashes(s@) == without_trailing_slashes(s@.take(j as int)),
        decreases j,
    {
        proof {
            assert(s@.take(j as int).drop_last() =~= s@.take(j - 1));
        }
        j = j - 1;
    }
    proof {
        assert(s@.subrange(0, j as int) =~= s@.take(j as int));
    }
    s.substring_char(0, j).to_owned()
}

/// Trims every text of the settings, and the slashes at the end of the address.
pub fn normalize_supabase_settings(settings: SupabaseSettings) -> (r: SupabaseSettings)
    ensures
        normalized_settings(settings, r),
{
    let url = trim(settings.url.as_str());
    SupabaseSettings {
        url: strip_trailing_slashes(url.as_str()),
        key: trim(settings.key.as_str()),
        schema: trim(settings.schema.as_str()),
        auth_email: trim(settings.auth_email.as_str()),
        auth_password: trim(settings.auth_password.as_str()),
        auto_sync: settings.auto_sync,
        sync_interval_minutes: settings.sync_interval_minutes,
        tables: SupabaseTableSettings {
            workspaces: trim(settings.tables.workspaces.as_str()),
            priorities: trim(settings.tables.priorities.as_str()),
            tasks: trim(settings.tables.tasks.as_str()),
            task_blocks: trim(settings.tables.task_blocks.as_str()),
            work_sessions: trim(settings.tables.work_sessions.as_str()),
        },
    }
}

/// An ASCII letter or digit, or an underscore.
pub open spec fn identifier_char(c: char) -> bool {
    ('a' <= c && c <= 'z') || ('A' <= c && c <= 'Z') || ('0' <= c && c <= '9') || c == '_'
}

/// A name made only of ASCII letters, digits and underscores, and not empty.
pub open spec fn is_identifier(s: Seq<char>) -> bool {
    s.len() > 0 && forall|i: int| 0 <= i < s.len() ==> identifier_char(#[trigger] s[i])
}

/// Whether `value` can name a remote schema or table.
pub fn valid_identifier(value: &str) -> (r: bool)
    ensures
        r == is_identifier(value@),
{
    let n = value.unicode_len();
    if n == 0 {
        return false;
    }
    let mut i: usize = 0;
    while i < n
        invariant
            n == value@.len(),
            i <= n,
            forall|k: int| 0 <= k < i ==> identifier_char(#[trigger] value@[k]),
        decreases n - i,
    {
        let c = value.get_char(i);
        if !(('a' <= c && c <= 'z') || ('A' <= c && c <= 'Z') || ('0' <= c && c <= '9') || c == '_') {
            return false;
        }
        i = i + 1;
    }
    true
}

/// `prefix` begins `s`.
pub open spec fn has_prefix(s: Seq<char>, prefix: Seq<char>) -> bool {
    prefix.len() <= s.len() && s.take(prefix.len() as int) == prefix
}

fn starts_with(s: &str, prefix: &str) -> (r: bool)
    ensures
        r == has_prefix(s@, prefix@),
{
    let n = prefix.unicode_len();
    if n > s.unicode_len() {
        return false;
    }
    let mut i: usize = 0;
    while i < n
        invariant
            n == prefix@.len(),
            n <= s@.len(),
            i <= n,
            forall|k: int| 0 <= k < i ==> s@[k] == prefix@[k],
        decreases n - i,
    {
        if s.get_char(i) != prefix.get_char(i) {
            proof {
                assert(s@.take(n as int)[i as int] != prefix@[i as int]);
            }
            return false;
        }
        i = i + 1;
    }
    proof {
        assert(s@.take(n as int) =~= prefix@);
    }
    true
}

/// A character that cannot stand in the host part of the address.
pub open spec fn bad_host_char(c: char) -> bool {
    c == '/' || c == '?' || c == '#' || c == ' '
}

/// The host part is empty or holds a character it cannot hold.
pub open spec fn bad_host(host: Seq<char>) -> bool {
    host.len() == 0 || exists|i: int| 0 <= i < host.len() && bad_host_char(#[trigger] host[i])
}

fn host_is_bad(url: &str, from: usize) -> (r: bool)
    requires
        from <= url@.len(),
    ensures
        r == bad_host(url@.skip(from as int)),
{
    let n = url.unicode_len();
    if from == n {
        return true;
    }
    let mut i = from;
    while i < n
        invariant
            n == url@.len(),
            from <= i <= n,
            forall|k: int| from <= k < i ==> !bad_host_char(#[trigger] url@[k]),
        decreases n - i,
    {
        let c = url.get_char(i);
        if c == '/' || c == '?' || c == '#' || c == ' ' {
            proof {
                assert(url@.skip(from as int)[i - from] == url@[i as int]);
            }
            return true;
        }
        i = i + 1;
    }
    proof {
        assert forall|k: int| 0 <= k < url@.skip(from as int).len() implies !bad_host_char(
            #[trigger] url@.skip(from as int)[k],
        ) by {
            assert(url@.skip(from as int)[k] == url@[from + k]);
        }
    }
    false
}

/// The first problem of the settings, as the message shown for it; `None`
/// when they can be used.
pub open spec fn settings_problem(s: SupabaseSettings) -> Option<Seq<char>> {
    if s.url@.len() == 0 || s.key@.len() == 0 {
        Some("请填写 Supabase Project URL 和 publishable/anon key"@)
    } else if !has_prefix(s.url@, "https://"@) {
        Some("Supabase Project URL 必须使用 HTTPS"@)
    } else if bad_host(s.url@.skip(8)) {
        Some("Supabase Project URL 格式不正确"@)
    } else if has_prefix(s.key@, "sb_secret_"@) {
        Some("不要填写 secret/service_role key，请使用 publishable/anon key"@)
    } else if s.auth_email@.len() == 0 || s.auth_password@.len() == 0 {
        Some("请填写 Supabase Auth 邮箱和密码"@)
    } else if s.sync_interval_minutes == 0 || s.sync_interval_minutes > 1440 {
        Some("自动同步间隔必须在 1 到 1440 分钟之间"@)
    } else if !is_identifier(s.schema@) {
        Some("Supabase schema 名称不能为空，只能包含字母、数字或下划线"@)
    } else if !is_identifier(s.tables.workspaces@) {
        Some("workspaces"@ + table_problem())
    } else if !is_identifier(s.tables.priorities@) {
        Some("priorities"@ + table_problem())
    } else if !is_identifier(s.tables.tasks@) {
        Some("tasks"@ + table_problem())
    } else if !is_identifier(s.tables.task_blocks@) {
        Some("task_blocks"@ + table_problem())
    } else if !is_identifier(s.tables.work_sessions@) {
        Some("work_sessions"@ + table_problem())
    } else {
        None
    }
}

/// What follows a table's label in the message about a bad table name.
pub open spec fn table_problem() -> Seq<char> {
    " 表名不能为空，只能包含字母、数字或下划线"@
}

fn table_message(label: &str) -> (r: String)
    ensures
        r@ == label@ + table_problem(),
{
    String::from_str(label).concat(" 表名不能为空，只能包含字母、数字或下划线")
}

/// Checks that the settings can be used for a synchronization; the error is
/// the message about the first problem found.
pub fn validate_supabase_settings(settings: &SupabaseSettings) -> (r: Result<(), String>)
    ensures
        match r {
            Ok(()) => settings_problem(*settings) is None,
            Err(message) => settings_problem(*settings) == Some(message@),
        },
{
    if settings.url.as_str().is_empty() || settings.key.as_str().is_empty() {
        return Err(String::from_str("请填写 Supabase Project URL 和 publishable/anon key"));
    }
    if !starts_with(settings.url.as_str(), "https://") {
        return Err(String::from_str("Supabase Project URL 必须使用 HTTPS"));
    }
    proof {
        reveal_strlit("https://");
    }
    if host_is_bad(settings.url.as_str(), 8) {
        return Err(String::from_str("Supabase Project URL 格式不正确"));
    }
    if starts_with(settings.key.as_str(), "sb_secret_") {
        return Err(String::from_str("不要填写 secret/service_role key，请使用 publishable/anon key"));
    }
    if settings.auth_email.as_str().is_empty() || settings.auth_password.as_str().is_empty() {
        return Err(String::from_str("请填写 Supabase Auth 邮箱和密码"));
    }
    if settings.sync_interval_minutes == 0 || settings.sync_interval_minutes > 1440 {
        return Err(String::from_str("自动同步间隔必须在 1 到 1440 分钟之间"));
    }
    if !valid_identifier(settings.schema.as_str()) {
        return Err(String::from_str("Supabase schema 名称不能为空，只能包含字母、数字或下划线"));
    }
    if !valid_identifier(settings.tables.workspaces.as_str()) {
        return Err(table_message("workspaces"));
    }
    if !valid_identifier(settings.tables.priorities.as_str()) {
        return Err(table_message("priorities"));
    }
    if !valid_identifier(settings.tables.tasks.as_str()) {
        return Err(table_message("tasks"));
    }
    if !valid_identifier(settings.tables.task_blocks.as_str()) {
        return Err(table_message("task_blocks"));
    }
    if !valid_identifier(settings.tables.work_sessions.as_str()) {
        return Err(table_message("work_sessions"));
    }
    Ok(())
}

/// What automatic synchronization does next, and how long it then waits.
#[derive(Debug, Clone, Copy, PartialEq, Eq, Structural)]
pub enum AutoSyncStep {
    /// Synchronize now, then wait `wait_seconds`.
    Synchronize { wait_seconds: u64 },
    /// Do nothing, and look at the settings again after `wait_seconds`.
    Idle { wait_seconds: u64 },
}

/// With automatic synchronization on, synchronize and then wait one
/// interval; with it off, look again in thirty seconds.
pub fn next_auto_sync_step(settings: &SupabaseSettings) -> (r: AutoSyncStep)
    requires
        settings.sync_interval_minutes * 60 <= u64::MAX,
    ensures
        r == if settings.auto_sync {
            AutoSyncStep::Synchronize { wait_seconds: (settings.sync_interval_minutes * 60) as u64 }
        } else {
            AutoSyncStep::Idle { wait_seconds: 30 }
        },
{
    if settings.auto_sync {
        AutoSyncStep::Synchronize { wait_seconds: settings.sync_interval_minutes * 60 }
    } else {
        AutoSyncStep::Idle { wait_seconds: 30 }
    }
}

} // verus!
