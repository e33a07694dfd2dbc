//! Stacked branches: chains of branches of which each is rebased onto its
//! parent, in a tree that is rooted at the trunk of the repository.
//!
//! The library keeps the graph of these dependencies ([`database`], over the
//! tables of [`graph`] and the schema changes of [`schema`]), says in which
//! order a stack is processed, and plans the commands that rebase, pull and
//! push it ([`commands`]). It runs no command itself. A plan is a
//! [`cascade`]: the caller performs one action after the other and reports
//! how each ended; the cascade stops at the first failure and, however it
//! ends, switches the working copy back to where it began. [`git`] holds the
//! commands, what is made of their outcomes, and the guard that remembers
//! the branch to come back to.

pub mod cascade;
pub mod commands;
pub mod database;
pub mod error;
pub mod git;
pub mod graph;
pub mod pattern;
pub mod schema;
pub mod text;
