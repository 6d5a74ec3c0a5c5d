//! Benchmark controller: trigger parsing, comment rendering, job planning
//! and runner helpers for the DataFusion benchmarking bot.

pub mod benchmarks;
pub mod comment_render;
pub mod config;
pub mod github;
pub mod health;
pub mod job_manager;
pub mod json;
pub mod models;
pub mod poller;
pub mod runner;
pub mod text;
pub mod yaml;
