//! Planning core of a bulk Git repository maintenance tool.
pub mod branches;
pub mod call;
pub mod clean;
pub mod clean_laws;
pub mod cli;
pub mod config;
pub mod cycle;
pub mod dry_run;
pub mod phases;
pub mod pipeline;
pub mod replies;
pub mod repo;
pub mod report;
pub mod shell;
pub mod text;
pub mod text_laws;
pub mod worktrees;
