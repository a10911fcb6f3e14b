//! Core of a project-maintenance daemon: the per-project pipeline state
//! machine, the unified-diff sanitizer, the agent transcript reader, the
//! status store model, and the bounded commit log.

pub mod codex_client;
pub mod commit_log;
pub mod config;
pub mod gate;
pub mod monitor;
pub mod oracle;
pub mod patcher;
pub mod restarter;
pub mod sanitizer;
pub mod scheduler;
pub mod store;
pub mod text;
pub mod transcript;
