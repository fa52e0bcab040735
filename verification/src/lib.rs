//! Stacked branch bookkeeping: the branch graph, rebase planning, pull request
//! reconciliation and cleanup decisions of a stacked-PR workflow, verified with Verus.

pub mod error;
pub mod text;
pub mod state;
pub mod order;
pub mod graph;
pub mod rebase;
pub mod output;
pub mod azure;
pub mod cleanup;
pub mod git;
pub mod sync;
pub mod cli;
pub mod commands;
