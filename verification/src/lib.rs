//! Cross-platform task core: tasks, repeated block records, work sessions,
//! workspaces and workspace-scoped priorities, with the rules that keep them
//! consistent and the merge that reconciles two copies of the data.

pub mod activity;
pub mod clock;
pub mod console;
pub mod correction;
pub mod domain;
pub mod editing;
pub mod error;
pub mod lifecycle;
pub mod listing;
pub mod merge_laws;
pub mod ordering;
pub mod reads;
pub mod remote;
pub mod reorder;
pub mod replica;
pub mod rules;
pub mod service;
pub mod settings;
pub mod store;
pub mod summary;
pub mod sync;
pub mod text;
pub mod timeline;
pub mod workspaces;

pub use domain::{NewTask, Priority, Task, TaskBlock, TaskStatus, WorkSession, Workspace};
pub use error::{CoreError, Result};
pub use service::{BlockTaskCommand, CreateTaskCommand, CreateTaskInput, TaskService, UpdateTaskCommand};
pub use store::TaskStore;
pub use sync::{merge_sync_snapshots, SyncCounts, SyncSnapshot};
pub use text::{is_blank, str_eq, trim};
