//! Verified core of the `cuet` command line tool: target parsing, command
//! policies, state inspection and text rendering.

pub mod checks;
pub mod cli;
pub mod completions;
pub mod environment;
pub mod expression;
pub mod json;
pub mod logger;
pub mod migration;
pub mod order;
pub mod reconciliation;
pub mod terraform;
pub mod text;
pub mod workspace;
