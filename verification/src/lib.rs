//! The conversation core of a terminal coding assistant: event dispatch with
//! deferred interrupts, line-animated streaming, and the session rollout index.

pub mod branches;
pub mod chatwidget;
pub mod embedded;
pub mod error;
pub mod history_cell;
pub mod interrupts;
pub mod json;
pub mod protocol;
pub mod rollout;
pub mod sessions;
pub mod stream;
pub mod text;
pub mod timeline;
