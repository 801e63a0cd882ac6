//! Records as the remote service hands them back: their time stamps are
//! brought to the form the store writes, UTC with milliseconds.

use vstd::prelude::*;
use crate::clock::{format_utc_millis, parse_rfc3339, spec_rfc3339_instant, spec_utc_millis_text};
use crate::domain::{Priority, Task, TaskBlock, WorkSession, Workspace};

verus! {

/// The stored form of a remote time stamp: the same instant in UTC with
/// milliseconds; a text that is no time stamp stays as it is.
pub open spec fn remote_stamp(value: Seq<char>) -> Seq<char> {
    match spec_rfc3339_instant(value) {
        Some(parts) => match spec_utc_millis_text(parts.0, parts.1) {
            Some(text) => text,
            None => value,
        },
        None => value,
    }
}

/// The stored form of an optional remote time stamp.
pub open spec fn remote_stamp_opt(value: Option<String>) -> Option<Seq<char>> {
    match value {
        Some(v) => Some(remote_stamp(v@)),
        None => None,
    }
}

/// Brings a remote time stamp to the form the store writes.
pub fn normalize_remote_timestamp(value: &str) -> (r: String)
    ensures
        r@ == remote_stamp(value@),
{
    match parse_rfc3339(value) {
        Some((secs, nanos)) => match format_utc_millis(secs, nanos) {
            Some(text) => text,
            None => value.to_owned(),
        },
        None => value.to_owned(),
    }
}

fn normalize_opt(value: Option<String>) -> (r: Option<String>)
    ensures
        match r {
            Some(t) => remote_stamp_opt(value) == Some(t@),
            None => value is None,
        },
{
    match value {
        Some(v) => Some(normalize_remote_timestamp(v.as_str())),
        None => None,
    }
}

/// `new` is the stored form of the optional remote time stamp `old`.
pub open spec fn stamps_normalized_opt(old: Option<String>, new: Option<String>) -> bool {
    match new {
        Some(t) => remote_stamp_opt(old) == Some(t@),
        None => old is None,
    }
}

/// A remote workspace with its time stamps normalized.
pub fn normalize_remote_workspace(w: Workspace) -> (r: Workspace)
    ensures
        r.created_at@ == remote_stamp(w.created_at@),
        r.updated_at@ == remote_stamp(w.updated_at@),
        stamps_normalized_opt(w.deleted_at, r.deleted_at),
        r == (Workspace { created_at: r.created_at, updated_at: r.updated_at, deleted_at: r.deleted_at, ..w }),
{
    let created_at = normalize_remote_timestamp(w.created_at.as_str());
    let updated_at = normalize_remote_timestamp(w.updated_at.as_str());
    let deleted_at = normalize_opt((w.deleted_at));
    Workspace { created_at, updated_at, deleted_at, ..w }
}

/// A remote priority with its time stamps normalized.
pub fn normalize_remote_priority(p: Priority) -> (r: Priority)
    ensures
        r.created_at@ == remote_stamp(p.created_at@),
        r.updated_at@ == remote_stamp(p.updated_at@),
        stamps_normalized_opt(p.deleted_at, r.deleted_at),
        r == (Priority { created_at: r.created_at, updated_at: r.updated_at, deleted_at: r.deleted_at, ..p }),
{
    let created_at = normalize_remote_timestamp(p.created_at.as_str());
    let updated_at = normalize_remote_timestamp(p.updated_at.as_str());
    let deleted_at = normalize_opt((p.deleted_at));
    Priority { created_at, updated_at, deleted_at, ..p }
}

/// A remote task with its time stamps normalized.
pub fn normalize_remote_task(t: Task) -> (r: Task)
    ensures
        r.created_at@ == remote_stamp(t.created_at@),
        r.updated_at@ == remote_stamp(t.updated_at@),
        stamps_normalized_opt(t.started_at, r.started_at),
        stamps_normalized_opt(t.completed_at, r.completed_at),
        stamps_normalized_opt(t.deleted_at, r.deleted_at),
        r == (Task {
            created_at: r.created_at,
            updated_at: r.updated_at,
            started_at: r.started_at,
            completed_at: r.completed_at,
            deleted_at: r.deleted_at,
            ..t
        }),
{
    let created_at = normalize_remote_timestamp(t.created_at.as_str());
    let updated_at = normalize_remote_timestamp(t.updated_at.as_str());
    let started_at = normalize_opt((t.started_at));
    let completed_at = normalize_opt((t.completed_at));
    let deleted_at = normalize_opt((t.deleted_at));
    Task { created_at, updated_at, started_at, completed_at, deleted_at, ..t }
}

/// A remote block record with its time stamps normalized.
pub fn normalize_remote_block(b: TaskBlock) -> (r: TaskBlock)
    ensures
        r.started_at@ == remote_stamp(b.started_at@),
        r.created_at@ == remote_stamp(b.created_at@),
        r.updated_at@ == remote_stamp(b.updated_at@),
        stamps_normalized_opt(b.ended_at, r.ended_at),
        stamps_normalized_opt(b.deleted_at, r.deleted_at),
        r == (TaskBlock {
            started_at: r.started_at,
            created_at: r.created_at,
            updated_at: r.updated_at,
            ended_at: r.ended_at,
            deleted_at: r.deleted_at,
            ..b
        }),
{
    let started_at = normalize_remote_timestamp(b.started_at.as_str());
    let created_at = normalize_remote_timestamp(b.created_at.as_str());
    let updated_at = normalize_remote_timestamp(b.updated_at.as_str());
    let ended_at = normalize_opt((b.ended_at));
    let deleted_at = normalize_opt((b.deleted_at));
    TaskBlock { started_at, created_at, updated_at, ended_at, deleted_at, ..b }
}

/// A remote work session with its time stamps normalized.
pub fn normalize_remote_session(s: WorkSession) -> (r: WorkSession)
    ensures
        r.started_at@ == remote_stamp(s.started_at@),
        r.created_at@ == remote_stamp(s.created_at@),
        stamps_normalized_opt(s.ended_at, r.ended_at),
        r == (WorkSession { started_at: r.started_at, created_at: r.created_at, ended_at: r.ended_at, ..s }),
{
    let started_at = normalize_remote_timestamp(s.started_at.as_str());
    let created_at = normalize_remote_timestamp(s.created_at.as_str());
    let ended_at = normalize_opt((s.ended_at));
    WorkSession { started_at, created_at, ended_at, ..s }
}

} // verus!
