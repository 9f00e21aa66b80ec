//! Verified core of `tschecker`: the decisions that pick which TypeScript
//! checks run on which changed files of a GitButler branch, how their output
//! is read, and how the four-stage pipeline advances.

pub mod text;
pub mod files;
pub mod gitbutler;
pub mod paths;
pub mod pipeline;
pub mod checks;
pub mod json;
pub mod fixer;
pub mod cli;
pub mod ui;
pub mod update;
pub mod workflow;
