//! Token usage of coding sessions, per project.

pub mod agent;
pub mod archive;
pub mod config;
pub mod content;
pub mod gather;
pub mod merge;
pub mod names;
pub mod numbers;
pub mod period;
pub mod rank;
pub mod report;
pub mod stats;
pub mod table;
pub mod text;
pub mod usage;
