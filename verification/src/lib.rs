//! A code-index engine: symbol extraction, search, change detection and search plans.

pub mod architecture;
pub mod daemon;
pub mod git;
pub mod json;
pub mod laws;
pub mod mcp;
pub mod order;
pub mod paths;
pub mod plan;
pub mod ranking;
pub mod scanner;
pub mod search;
pub mod seqs;
pub mod skills;
pub mod steps;
pub mod store;
pub mod terms;
pub mod text;
pub mod types;
pub mod util;
pub mod wire;

pub use daemon::{AutoIndexConfig, AutoIndexDaemon};
pub use scanner::project_name;
pub use store::ClabStore;
pub use types::{AutoIndexStatus, ClabIndex, FileEntry, GitProjectState, SymbolEntry};
