//! The overview a front end shows: how many live tasks there are, how many of
//! them are completed or in progress, and how many minutes of work were
//! recorded on them.

use vstd::prelude::*;
use crate::domain::{Task, TaskStatus, WorkSession};
use crate::store::TaskStore;
use crate::sync::{time_key, time_key_of};
use crate::text::str_eq;

verus! {

/// Counts of the live tasks and the minutes worked on them.
#[derive(Debug, Clone, Copy, PartialEq, Eq, Structural)]
pub struct ActivitySummary {
    pub task_count: usize,
    pub completed_count: usize,
    pub in_progress_count: usize,
    pub active_minutes: i128,
}

/// Whole seconds of a time stamp; 0 for a text that is none.
pub open spec fn stamp_seconds(text: Seq<char>) -> int {
    time_key(text).0
}

/// Whole minutes of a session, a running one counted up to `now`; none for
/// a session that ends before it starts.
pub open spec fn session_minutes(s: WorkSession, now: i64) -> int {
    let start = stamp_seconds(s.started_at@);
    let end = match s.ended_at {
        Some(e) => stamp_seconds(e@),
        None => now as int,
    };
    if end > start {
        (end - start) / 60
    } else {
        0
    }
}

/// Minutes of all `sessions`.
pub open spec fn minutes_total(sessions: Seq<WorkSession>, now: i64) -> int
    decreases sessions.len(),
{
    if sessions.len() == 0 {
        0
    } else {
        minutes_total(sessions.drop_last(), now) + session_minutes(sessions.last(), now)
    }
}

proof fn lemma_minutes_bounds(sessions: Seq<WorkSession>, now: i64)
    ensures
        0 <= minutes_total(sessions, now) <= sessions.len() * 0x1000_0000_0000_0000,
    decreases sessions.len(),
{
    if sessions.len() > 0 {
        lemma_minutes_bounds(sessions.drop_last(), now);
    }
}

impl TaskStore {
    /// The task is listed and not deleted.
    pub open spec fn live_task(&self, id: Seq<char>) -> bool {
        exists|i: int| self.task_at(id, i) && self.task_rows()[i].deleted_at is None
    }

    /// The sessions of live tasks, in storage order.
    pub open spec fn live_sessions(&self) -> Seq<WorkSession> {
        self.session_rows().filter(|s: WorkSession| self.live_task(s.task_id@))
    }

    /// What the overview shows at `now` (seconds since the epoch).
    pub open spec fn summary_at(&self, now: i64) -> ActivitySummary {
        let live = self.task_rows().filter(|t: Task| t.deleted_at is None);
        ActivitySummary {
            task_count: live.len() as usize,
            completed_count: live.filter(|t: Task| t.status == TaskStatus::Completed).len() as usize,
            in_progress_count: live.filter(|t: Task| t.status == TaskStatus::InProgress).len() as usize,
            active_minutes: minutes_total(self.live_sessions(), now) as i128,
        }
    }

    fn is_live_task(&self, id: &str) -> (r: bool)
        requires
            self.wf(),
        ensures
            r == self.live_task(id@),
    {
        match self.find_task(id) {
            Some(i) => {
                let live = self.tasks[i].deleted_at.is_none();
                proof {
                    if !live {
                        assert forall|j: int| self.task_at(id@, j) implies self.task_rows()[j].deleted_at is Some by {
                            if j < i {
                                assert(self.task_rows()[j].id@ != self.task_rows()[i as int].id@);
                            } else if j > i {
                                assert(self.task_rows()[i as int].id@ != self.task_rows()[j].id@);
                            }
                        }
                    }
                }
                live
            },
            None => false,
        }
    }

    /// The overview at `now`, in seconds since the epoch: live tasks, how many
    /// are completed and in progress, and the whole minutes of their
    /// sessions, a running session counted up to `now`.
    pub fn activity_summary(&self, now: i64) -> (r: ActivitySummary)
        requires
            self.wf(),
        ensures
            r == self.summary_at(now),
    {
        let ghost live_pred = |t: Task| t.deleted_at is None;
        let ghost done_pred = |t: Task| t.status == TaskStatus::Completed;
        let ghost busy_pred = |t: Task| t.status == TaskStatus::InProgress;
        let mut task_count: usize = 0;
        let mut completed_count: usize = 0;
        let mut in_progress_count: usize = 0;
        let mut i: usize = 0;
        while i < self.tasks.len()
            invariant
                i <= self.task_rows().len(),
                live_pred == (|t: Task| t.deleted_at is None),
                done_pred == (|t: Task| t.status == TaskStatus::Completed),
                busy_pred == (|t: Task| t.status == TaskStatus::InProgress),
                task_count == self.task_rows().take(i as int).filter(live_pred).len(),
                completed_count == self.task_rows().take(i as int).filter(live_pred).filter(done_pred).len(),
                in_progress_count == self.task_rows().take(i as int).filter(live_pred).filter(busy_pred).len(),
                task_count <= i,
                completed_count <= task_count,
                in_progress_count <= task_count,
            decreases self.task_rows().len() - i,
        {
            proof {
                reveal(Seq::filter);
                assert(self.task_rows().take(i + 1).drop_last() =~= self.task_rows().take(i as int));
                let before = self.task_rows().take(i as int).filter(live_pred);
                if live_pred(self.task_rows()[i as int]) {
                    assert(self.task_rows().take(i + 1).filter(live_pred) == before.push(self.task_rows()[i as int]));
                    assert(before.push(self.task_rows()[i as int]).drop_last() =~= before);
                }
            }
            let t = &self.tasks[i];
            if t.deleted_at.is_none() {
                task_count = task_count + 1;
                if t.status == TaskStatus::Completed {
                    completed_count = completed_count + 1;
                }
                if t.status == TaskStatus::InProgress {
                    in_progress_count = in_progress_count + 1;
                }
            }
            i = i + 1;
        }
        proof {
            assert(self.task_rows().take(self.task_rows().len() as int) =~= self.task_rows());
        }
        let ghost session_pred = |s: WorkSession| self.live_task(s.task_id@);
        let mut minutes: i128 = 0;
        let mut k: usize = 0;
        while k < self.sessions.len()
            invariant
                k <= self.session_rows().len(),
                self.wf(),
                session_pred == (|s: WorkSession| self.live_task(s.task_id@)),
                minutes == minutes_total(self.session_rows().take(k as int).filter(session_pred), now),
                self.session_rows().take(k as int).filter(session_pred).len() <= k,
            decreases self.session_rows().len() - k,
        {
            proof {
                reveal(Seq::filter);
                assert(self.session_rows().take(k + 1).drop_last() =~= self.session_rows().take(k as int));
                lemma_minutes_bounds(self.session_rows().take(k as int).filter(session_pred), now);
            }
            let s = &self.sessions[k];
            if self.is_live_task(s.task_id.as_str()) {
                let start = time_key_of(s.started_at.as_str()).0;
                let end = match &s.ended_at {
                    Some(e) => time_key_of(e.as_str()).0,
                    None => now,
                };
                let ghost before = self.session_rows().take(k as int).filter(session_pred);
                if end > start {
                    let span = (end as i128) - (start as i128);
                    minutes = minutes + span / 60;
                }
                proof {
                    assert(self.session_rows().take(k + 1).filter(session_pred) == before.push(self.session_rows()[k as int]));
                    assert(before.push(self.session_rows()[k as int]).drop_last() =~= before);
                }
            }
            k = k + 1;
        }
        proof {
            assert(self.session_rows().take(self.session_rows().len() as int) =~= self.session_rows());
        }
        ActivitySummary { task_count, completed_count, in_progress_count, active_minutes: minutes }
    }
}

} // verus!
