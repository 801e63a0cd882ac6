//! The error type of the task core.

use vstd::prelude::*;

verus! {

/// Why an operation of the task core was refused.
#[derive(Debug)]
pub enum CoreError {
    /// The stored data would break a storage constraint (a duplicate key or a
    /// second open record for one task), or the storage itself failed.
    Database(String),
    TaskNotFound(String),
    WorkspaceNotFound(String),
    PriorityNotFound(String),
    BlockNotFound(String),
    SessionNotFound(String),
    VersionConflict,
    InvalidStatus(String),
    InvalidState(String),
    InvalidInput(String),
    ActiveBlockExists,
    ActiveSessionExists,
}

/// The result type of the task core.
pub type Result<T> = std::result::Result<T, CoreError>;

/// The error text: a label, then the detail where there is one.
pub open spec fn error_text(e: CoreError) -> Seq<char> {
    match e {
        CoreError::Database(d) => "数据库错误: "@ + d@,
        CoreError::TaskNotFound(d) => "任务不存在: "@ + d@,
        CoreError::WorkspaceNotFound(d) => "工作区不存在: "@ + d@,
        CoreError::PriorityNotFound(d) => "优先级不存在: "@ + d@,
        CoreError::BlockNotFound(d) => "阻塞记录不存在: "@ + d@,
        CoreError::SessionNotFound(d) => "工作会话不存在: "@ + d@,
        CoreError::VersionConflict => "版本冲突"@,
        CoreError::InvalidStatus(d) => "任务状态无效: "@ + d@,
        CoreError::InvalidState(d) => "当前状态不允许执行此操作: "@ + d@,
        CoreError::InvalidInput(d) => "参数无效: "@ + d@,
        CoreError::ActiveBlockExists => "任务已有进行中的阻塞"@,
        CoreError::ActiveSessionExists => "任务已有进行中的工作会话"@,
    }
}

impl CoreError {
    /// The message shown to a user.
    pub fn message(&self) -> (r: String)
        ensures
            r@ == error_text(*self),
    {
        match self {
            CoreError::Database(d) => String::from_str("数据库错误: ").concat(d.as_str()),
            CoreError::TaskNotFound(d) => String::from_str("任务不存在: ").concat(d.as_str()),
            CoreError::WorkspaceNotFound(d) => String::from_str("工作区不存在: ").concat(d.as_str()),
            CoreError::PriorityNotFound(d) => String::from_str("优先级不存在: ").concat(d.as_str()),
            CoreError::BlockNotFound(d) => String::from_str("阻塞记录不存在: ").concat(d.as_str()),
            CoreError::SessionNotFound(d) => String::from_str("工作会话不存在: ").concat(d.as_str()),
            CoreError::VersionConflict => String::from_str("版本冲突"),
            CoreError::InvalidStatus(d) => String::from_str("任务状态无效: ").concat(d.as_str()),
            CoreError::InvalidState(d) => String::from_str("当前状态不允许执行此操作: ").concat(d.as_str()),
            CoreError::InvalidInput(d) => String::from_str("参数无效: ").concat(d.as_str()),
            CoreError::ActiveBlockExists => String::from_str("任务已有进行中的阻塞"),
            CoreError::ActiveSessionExists => String::from_str("任务已有进行中的工作会话"),
        }
    }
}

} // verus!
