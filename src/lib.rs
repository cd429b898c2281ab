//! A formatting orchestrator: formatter matching, an invalidation cache, discovery
//! post-processing and the run decisions, each stated by contract.

pub mod cli;
pub mod config;
pub mod engine;
pub mod eval_cache;
pub mod formatter;
pub mod glob;
pub mod meta;
pub mod paths;
pub mod tools;

pub use meta::FileMeta;
pub use paths::{expand_if_path, expand_path, is_absolute};
