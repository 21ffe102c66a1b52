//! Deterministic, bounded repository mechanics for command hooks.

pub mod causal_context;
pub mod completion;
pub mod delta;
pub mod digest;
pub mod file_cache;
pub mod hook;
pub mod json;
pub mod list;
pub mod log;
pub mod observe;
pub mod order;
pub mod path;
pub mod policy;
pub mod ranked;
pub mod repository_map;
pub mod sorted;
pub mod text;
pub mod xml;
