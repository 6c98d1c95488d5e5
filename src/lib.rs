//! Shell-prompt segment describing the state of a git working directory:
//! stash labels, staged and unstaged change tallies, branch name and the
//! ahead/behind counts against the upstream branch.
pub mod paint;
pub mod status;
pub mod prompt;
