//! Core engine of a terminal diff-stepping tool.
//!
//! This library computes a structured, line- and word-level diff between two
//! text documents and exposes it as a deterministic, steppable state machine:
//! every position in the walk from "all-old" to "all-new" projects to an
//! exact sequence of renderable lines and spans.

pub mod align;
pub mod change;
pub mod diff;
pub mod git;
pub mod hunks;
pub mod lines;
pub mod multi;
pub mod step;
pub mod token;

pub use change::{Change, ChangeKind, ChangeSpan};
pub use diff::{DiffEngine, DiffError, DiffResult, FileDiff, Hunk};
pub use git::{ChangedFile, FileStatus, GitError};
pub use multi::{FileEntry, MultiFileDiff};
pub use step::{
    AnimationFrame, DiffNavigator, LineKind, StepDirection, StepState, ViewLine, ViewSpan,
    ViewSpanKind,
};
pub use token::tokenize_code;
