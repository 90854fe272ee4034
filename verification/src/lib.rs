//! Verified core of a Capistrano-style deployment helper for git
//! repositories: the rules that decide what a deploy or a revert does,
//! separated from the filesystem and process work that carries it out.

pub mod paths;
pub mod releases;
pub mod copy;
pub mod text;
pub mod target;
pub mod git;
pub mod deploy;
pub mod calendar;

