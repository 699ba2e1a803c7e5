//! Aether kernel: the verified core of a deterministic orchestration language
//! for AI agents (safety gates, typed state ledger, DAG scheduling,
//! expression evaluation, ASL registry and Aether-Short expansion).

pub mod text;
pub mod ast;
pub mod json;
pub mod registry;
pub mod ledger;
pub mod schedule;
pub mod eval;
pub mod guest;
pub mod show;
pub mod executor;
pub mod heal;
pub mod run;
pub mod short;
pub mod cli;
pub mod syntax;
pub mod depends;
pub mod grammar;
pub mod laws;
