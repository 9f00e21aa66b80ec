//! The command-line options.

use vstd::prelude::*;

verus! {

/// Run TypeScript checks on GitButler branch changes.
#[derive(Debug)]
pub struct Cli {
    /// Check a specific branch by name or CLI ID.
    pub branch: Option<String>,
    /// Check all applied branches.
    pub all: bool,
    /// Path to the monorepo root.
    pub repo_path: String,
    /// Subdirectory containing the TS project (relative to repo root).
    pub project_dir: String,
    /// Max fix attempts per check stage.
    pub max_retries: u32,
    /// Path to the `but` CLI.
    pub but_path: String,
    /// Skip the commit step.
    pub no_commit: bool,
    /// List files for each check stage.
    pub verbose: bool,
    /// Show what would be checked without running.
    pub dry_run: bool,
    /// Run as a post-commit hook.
    pub post_commit: bool,
    /// Rebuild and reinstall from source.
    pub update: bool,
    /// Files to check directly (relative to the project directory), instead
    /// of a branch's changes.
    pub files: Vec<String>,
}

} // verus!
