//! The decisions around the local web console and the remote transfer: when
//! the console starts or closes, how many pages of a remote table are read,
//! how rows are cut into upload batches, and whether a synchronization may
//! begin. The waiting, listening and sending are the caller's.

use vstd::prelude::*;
use crate::settings::{
    normalize_supabase_settings, normalized_settings, settings_problem, validate_supabase_settings, SupabaseSettings,
};

verus! {

/// How long the console stays open without a request, in milliseconds.
pub const IDLE_TIMEOUT_MILLIS: u64 = 300_000;

/// How often the console's watcher wakes up, in seconds.
pub const WATCH_PERIOD_SECONDS: u64 = 10;

/// Rows asked for per page when reading a remote table.
pub const REMOTE_PAGE_SIZE: usize = 1000;

/// Rows sent per request when uploading a table.
pub const UPLOAD_CHUNK_ROWS: usize = 500;

/// What starting the console does.
#[derive(Debug, Clone, Copy, PartialEq, Eq, Structural)]
pub enum ConsoleStart {
    /// The console is already serving: record activity and report success.
    Touch,
    /// Bind the listener and start serving.
    Bind,
}

/// What the console's watcher does after waking up.
#[derive(Debug, Clone, Copy, PartialEq, Eq, Structural)]
pub enum ConsoleWatch {
    /// The console has stopped already: the watcher ends.
    Exit,
    /// The console has been idle too long: stop it, and the watcher ends.
    Stop,
    /// Sleep `seconds` and look again.
    Wait { seconds: u64 },
}

/// Whether a synchronization may begin.
#[derive(Debug, Clone, Copy, PartialEq, Eq, Structural)]
pub enum SyncGate {
    /// Another synchronization is under way: refuse.
    Busy,
    /// Mark a synchronization as running and go ahead.
    Begin,
}

/// Starting a running console only records activity; otherwise it binds.
pub fn console_start_step(running: bool) -> (r: ConsoleStart)
    ensures
        running ==> r == ConsoleStart::Touch,
        !running ==> r == ConsoleStart::Bind,
{
    if running {
        ConsoleStart::Touch
    } else {
        ConsoleStart::Bind
    }
}

/// The watcher ends once the console has stopped; it stops the console
/// after five minutes without a request; otherwise it waits ten seconds.
pub fn next_console_watch(running: bool, now_millis: u64, last_activity_millis: u64) -> (r: ConsoleWatch)
    ensures
        !running ==> r == ConsoleWatch::Exit,
        running && now_millis.saturating_sub(last_activity_millis) >= IDLE_TIMEOUT_MILLIS ==> r == ConsoleWatch::Stop,
        running && now_millis.saturating_sub(last_activity_millis) < IDLE_TIMEOUT_MILLIS ==> r == (ConsoleWatch::Wait {
            seconds: WATCH_PERIOD_SECONDS,
        }),
{
    if !running {
        return ConsoleWatch::Exit;
    }
    if now_millis.saturating_sub(last_activity_millis) >= IDLE_TIMEOUT_MILLIS {
        ConsoleWatch::Stop
    } else {
        ConsoleWatch::Wait { seconds: WATCH_PERIOD_SECONDS }
    }
}

/// After a page of `page_len` rows read at `offset`: a short page is the
/// last one; a full page is followed by the page at `offset + page_len`.
pub fn next_page_offset(offset: usize, page_len: usize) -> (r: Option<usize>)
    requires
        offset + page_len <= usize::MAX,
    ensures
        page_len < REMOTE_PAGE_SIZE ==> r is None,
        page_len >= REMOTE_PAGE_SIZE ==> (r == Some((offset + page_len) as usize)),
{
    if page_len < REMOTE_PAGE_SIZE {
        None
    } else {
        Some(offset + page_len)
    }
}

/// The upload batches of `total` rows, as ranges `[start, end)`: batch `k`
/// starts at row `500 * k` and holds 500 rows, the last one what is left.
pub open spec fn upload_batches(total: nat) -> Seq<(int, int)> {
    Seq::new(
        ((total + UPLOAD_CHUNK_ROWS - 1) / (UPLOAD_CHUNK_ROWS as int)) as nat,
        |k: int|
            (
                k * UPLOAD_CHUNK_ROWS,
                if (k + 1) * UPLOAD_CHUNK_ROWS <= total {
                    (k + 1) * UPLOAD_CHUNK_ROWS
                } else {
                    total as int
                },
            ),
    )
}

/// Cuts `total` rows into upload batches of 500, in order, the last one
/// holding what is left; no rows, no batches.
pub fn upload_chunks(total: usize) -> (r: Vec<(usize, usize)>)
    ensures
        r@.len() == upload_batches(total as nat).len(),
        forall|k: int|
            0 <= k < r@.len() ==> (#[trigger] r@[k]).0 as int == upload_batches(total as nat)[k].0 && r@[k].1 as int
                == upload_batches(total as nat)[k].1,
{
    let mut out: Vec<(usize, usize)> = Vec::new();
    let mut start: usize = 0;
    while start < total
        invariant
            start <= total,
            out@.len() * 500 <= total ==> start as int == out@.len() * 500,
            out@.len() * 500 > total ==> start == total,
            out@.len() > 0 ==> (out@.len() - 1) * 500 < total,
            forall|k: int|
                0 <= k < out@.len() ==> (#[trigger] out@[k]).0 as int == k * 500 && out@[k].1 as int == if (k + 1)
                    * 500 <= total {
                    (k + 1) * 500
                } else {
                    total as int
                },
        decreases total - start,
    {
        let end: usize = if total - start > UPLOAD_CHUNK_ROWS {
            start + UPLOAD_CHUNK_ROWS
        } else {
            total
        };
        out.push((start, end));
        start = end;
    }
    proof {
        let n = out@.len() as int;
        let t = total as int;
        assert((t + 499) / 500 == n) by (nonlinear_arith)
            requires
                t <= n * 500,
                n == 0 ==> t == 0,
                n > 0 ==> (n - 1) * 500 < t,
                n >= 0,
        ;
    }
    out
}

/// A synchronization begins only when none is running.
pub fn sync_gate(sync_running: bool) -> (r: SyncGate)
    ensures
        sync_running ==> r == SyncGate::Busy,
        !sync_running ==> r == SyncGate::Begin,
{
    if sync_running {
        SyncGate::Busy
    } else {
        SyncGate::Begin
    }
}

/// What a refused synchronization reports.
pub fn sync_busy_message() -> (r: String)
    ensures
        r@ == "同步正在进行中"@,
{
    String::from_str("同步正在进行中")
}

/// Whether the console runs, and when it last served a request.
#[derive(Debug, Clone, Copy, PartialEq, Eq, Structural)]
pub struct ConsoleState {
    pub running: bool,
    pub last_activity_millis: u64,
}

/// The console after a start at `now_millis`: a console that was running, or
/// whose listener was bound (`bound`), runs with its activity at
/// `now_millis`; one whose listener could not be bound is left as it was.
pub fn console_after_start(state: ConsoleState, now_millis: u64, bound: bool) -> (r: ConsoleState)
    ensures
        state.running || bound ==> r == (ConsoleState { running: true, last_activity_millis: now_millis }),
        !state.running && !bound ==> r == state,
{
    match console_start_step(state.running) {
        ConsoleStart::Touch => ConsoleState { running: true, last_activity_millis: now_millis },
        ConsoleStart::Bind => {
            if bound {
                ConsoleState { running: true, last_activity_millis: now_millis }
            } else {
                state
            }
        },
    }
}

/// How a synchronization round begins.
pub enum SyncStart {
    /// Another round is under way: refuse with this message.
    Busy(String),
    /// The settings do not pass their checks: refuse with this message,
    /// before anything is sent.
    Invalid(String),
    /// Sign in with these cleaned-up settings, then read, merge and upload.
    Authenticate(SupabaseSettings),
}

/// The first step of a synchronization round: refused while another runs;
/// otherwise the settings are cleaned up and checked, and only settings that
/// pass lead on to signing in, the first step that reaches the network.
pub fn start_sync_round(sync_running: bool, settings: SupabaseSettings) -> (r: SyncStart)
    ensures
        sync_running ==> (r matches SyncStart::Busy(m) && m@ == "同步正在进行中"@),
        !sync_running ==> match r {
            SyncStart::Busy(_) => false,
            SyncStart::Invalid(m) => exists|n: SupabaseSettings|
                normalized_settings(settings, n) && settings_problem(n) == Some(m@),
            SyncStart::Authenticate(n) => normalized_settings(settings, n) && settings_problem(n) is None,
        },
{
    if let SyncGate::Busy = sync_gate(sync_running) {
        return SyncStart::Busy(sync_busy_message());
    }
    let n = normalize_supabase_settings(settings);
    match validate_supabase_settings(&n) {
        Ok(()) => SyncStart::Authenticate(n),
        Err(m) => SyncStart::Invalid(m),
    }
}

} // verus!
