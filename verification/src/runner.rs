//! The benchmark runner that runs inside a pod: its configuration, the
//! commands it runs and the comments it posts.

pub mod bench_criterion;
pub mod bench_standard;
pub mod config;
pub mod git;
pub mod monitor;
pub mod shell;
