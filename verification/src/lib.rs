use vstd::prelude::*;

pub mod callables;
pub mod text;
pub mod json;
pub mod policy;
pub mod search;
pub mod sandbox;
pub mod isolation;
pub mod paths;
pub mod storage;
pub mod agent_skills;
pub mod sync;
pub mod runtime;
pub mod mcp;
pub mod upstream;
pub mod config;
pub mod persistence;
pub mod index;
pub mod canonical;
pub mod dependencies;

verus! {
}
