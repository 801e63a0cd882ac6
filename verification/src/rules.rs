//! The checks a task must pass before it is created, edited or moved on.

use vstd::prelude::*;
use crate::clock::{date_parses, spec_date_parses};
use crate::domain::{NewTask, Task, TaskStatus};
use crate::error::{CoreError, Result};
use crate::text::{blank, is_blank};

verus! {

/// The form a due date must have.
pub open spec fn due_date_format() -> Seq<char> {
    "%Y-%m-%d"@
}

/// A task title is present and an estimate, if any, is not negative.
pub open spec fn task_fields_ok(title: Seq<char>, estimated: Option<i64>) -> bool {
    !blank(title) && !(estimated matches Some(m) && m < 0)
}

/// The shape `YYYY-MM-DD`: four, two and two ASCII digits joined by `-`.
pub open spec fn date_shape(d: Seq<char>) -> bool {
    &&& d.len() == 10
    &&& forall|i: int|
        #![trigger d[i]]
        0 <= i < 10 ==> if i == 4 || i == 7 {
            d[i] == '-'
        } else {
            '0' <= d[i] && d[i] <= '9'
        }
}

/// A due date, if any, is a calendar date written `YYYY-MM-DD`.
pub open spec fn due_date_ok(due_date: Option<Seq<char>>) -> bool {
    due_date matches Some(d) ==> date_shape(d) && spec_date_parses(d, due_date_format())
}

/// Whether `s` has the shape `YYYY-MM-DD`.
pub fn has_date_shape(s: &str) -> (r: bool)
    ensures
        r == date_shape(s@),
{
    if s.unicode_len() != 10 {
        return false;
    }
    let mut i: usize = 0;
    while i < 10
        invariant
            i <= 10,
            s@.len() == 10,
            forall|k: int|
                #![trigger s@[k]]
                0 <= k < i ==> if k == 4 || k == 7 {
                    s@[k] == '-'
                } else {
                    '0' <= s@[k] && s@[k] <= '9'
                },
        decreases 10 - i,
    {
        let c = s.get_char(i);
        let fits = if i == 4 || i == 7 {
            c == '-'
        } else {
            '0' <= c && c <= '9'
        };
        if !fits {
            return false;
        }
        i = i + 1;
    }
    true
}

/// The view of an optional text.
pub open spec fn opt_view(o: Option<String>) -> Option<Seq<char>> {
    match o {
        Some(s) => Some(s@),
        None => None,
    }
}

/// The view of an optional borrowed text.
pub open spec fn opt_str_view(o: Option<&str>) -> Option<Seq<char>> {
    match o {
        Some(s) => Some(s@),
        None => None,
    }
}

/// Checks a title and an estimate.
pub fn validate_task_fields(title: &str, estimated: Option<i64>) -> (r: Result<()>)
    ensures
        r is Ok <==> task_fields_ok(title@, estimated),
        r matches Err(e) ==> e is InvalidInput,
{
    if is_blank(title) {
        return Err(CoreError::InvalidInput(String::from_str("任务标题不能为空")));
    }
    match estimated {
        Some(v) => {
            if v < 0 {
                return Err(CoreError::InvalidInput(String::from_str("预计分钟数不能为负数")));
            }
        },
        None => {},
    }
    Ok(())
}

/// Checks that a due date, if given, is a calendar date written `YYYY-MM-DD`.
pub fn validate_due_date(due_date: Option<&str>) -> (r: Result<()>)
    ensures
        r is Ok <==> due_date_ok(opt_str_view(due_date)),
        r matches Err(e) ==> e is InvalidInput,
{
    match due_date {
        Some(value) => {
            if !has_date_shape(value) || !date_parses(value, "%Y-%m-%d") {
                return Err(CoreError::InvalidInput(String::from_str("预计完成日期必须是 YYYY-MM-DD")));
            }
            Ok(())
        },
        None => Ok(()),
    }
}

/// The fields of a new task pass the checks.
pub open spec fn new_task_ok(input: NewTask) -> bool {
    &&& task_fields_ok(input.title@, input.estimated_active_minutes)
    &&& due_date_ok(opt_view(input.due_date))
    &&& !blank(input.created_device_id@)
}

/// Checks the fields of a new task.
pub fn validate_new_task(input: &NewTask) -> (r: Result<()>)
    ensures
        r is Ok <==> new_task_ok(*input),
        r matches Err(e) ==> e is InvalidInput,
{
    validate_task_fields(&input.title, input.estimated_active_minutes)?;
    let due = match &input.due_date {
        Some(d) => Some(d.as_str()),
        None => None,
    };
    validate_due_date(due)?;
    if is_blank(&input.created_device_id) {
        return Err(CoreError::InvalidInput(String::from_str("设备 ID 不能为空")));
    }
    Ok(())
}

/// A deleted task cannot change status, and a completed task can only be
/// completed again.
pub fn validate_status_change(task: &Task, status: TaskStatus) -> (r: Result<()>)
    ensures
        r is Ok <==> task.deleted_at is None && !(task.status == TaskStatus::Completed && status
            != TaskStatus::Completed),
        r matches Err(e) ==> e is InvalidState,
{
    if task.deleted_at.is_some() {
        return Err(CoreError::InvalidState(String::from_str("已删除任务不能修改")));
    }
    if task.status == TaskStatus::Completed && status != TaskStatus::Completed {
        return Err(CoreError::InvalidState(String::from_str("已完成任务不能重新打开")));
    }
    Ok(())
}

/// Work can start on a task that is neither deleted, completed nor blocked.
pub fn validate_can_start_work(task: &Task) -> (r: Result<()>)
    ensures
        r is Ok <==> task.deleted_at is None && task.status != TaskStatus::Completed && !task.is_blocked,
        r matches Err(e) ==> e is InvalidState,
{
    if task.deleted_at.is_some() || task.status == TaskStatus::Completed {
        return Err(CoreError::InvalidState(String::from_str("该任务不能开始工作")));
    }
    if task.is_blocked {
        return Err(CoreError::InvalidState(String::from_str("该任务当前被阻塞")));
    }
    Ok(())
}

/// A task that is neither deleted nor completed can be blocked, once at a time.
pub fn validate_can_start_block(task: &Task) -> (r: Result<()>)
    ensures
        match r {
            Ok(_) => task.deleted_at is None && task.status != TaskStatus::Completed && !task.is_blocked,
            Err(e) => if task.deleted_at is Some || task.status == TaskStatus::Completed {
                e is InvalidState
            } else {
                task.is_blocked && e is ActiveBlockExists
            },
        },
{
    if task.deleted_at.is_some() || task.status == TaskStatus::Completed {
        return Err(CoreError::InvalidState(String::from_str("该任务不能被阻塞")));
    }
    if task.is_blocked {
        return Err(CoreError::ActiveBlockExists);
    }
    Ok(())
}

} // verus!
