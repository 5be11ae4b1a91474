//! Verified core of the competitive-programming helper tools: output
//! checking, source bundling, problem-page parsing, project templates and the
//! schedulers that drive the comparison runs.

pub mod text;
pub mod checker;
pub mod pattern;
pub mod platform;
pub mod vscode;
pub mod template;
pub mod model;
pub mod problem;
pub mod frame;
pub mod bundle;
pub mod thread_manager;
pub mod schedule;
pub mod walk;
pub mod source;
pub mod service;
pub mod config;
