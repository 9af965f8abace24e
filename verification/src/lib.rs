//! Out-of-tree git checkpoints for AI coding agents.
//!
//! A checkpoint is a commit in a repository of its own, outside the workspace, whose
//! tree is what the workspace held. This library is the logic of the tool: which
//! files a checkpoint takes in (`paths`), how checkpoints are named and where they
//! are kept (`ids`, `hash`), what a snapshot records, how checkpoints are listed and
//! pruned (`checkpoint`), what a restore brings back and removes (`restore`), how
//! changes are shown (`diff`), the review page (`web`, `style`), the server for
//! agents (`mcp`, `json`), what the commands print (`cli`) and the installation into a
//! coding agent (`install`, `hooks`). `timeline` states what snapshots and restores mean for
//! the files of a workspace, and `wording` what the texts are made of. Git, the file
//! system, the network and the clock are the caller's: they come in as plain values.
//!
//! A path is a text whose parts are separated by `/`.

pub mod checkpoint;
pub mod cli;
pub mod diff;
pub mod hash;
pub mod hooks;
pub mod ids;
pub mod install;
pub mod json;
pub mod mcp;
pub mod paths;
pub mod restore;
pub mod style;
pub mod text;
pub mod timeline;
pub mod web;
pub mod wording;

pub use checkpoint::{
    gc_stale_refs, list, snapshot, CheckpointInfo, DEFAULT_GC_RETENTION_DAYS,
};
pub use diff::{diff, FileDiff, FileStatus};
pub use restore::{restore, RestoreReport};
