//! Command orchestration for device automation: a shell-style tokenizer,
//! the pure parts of command execution and batch dispatch, a registry of
//! recording sessions with its stop protocol, and a tree renderer for
//! device UI dumps.

pub mod text;
pub mod tokenizer;
pub mod html;
pub mod executor;
pub mod batch;
pub mod session;
pub mod last_error;
