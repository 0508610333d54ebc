//! Engine of a regression-benchmarking harness built around Valgrind's tools.

pub mod api;
pub mod bin_bench;
pub mod command;
pub mod common;
pub mod costs;
pub mod error;
pub mod flamegraph;
pub mod flamegraph_path;
pub mod graph_rotation;
pub mod invocation;
pub mod lib_bench;
pub mod parser;
pub mod report;
pub mod rotation;
pub mod runner;
pub mod strategy;
pub mod summary;
pub mod synthetic;
pub mod text;
pub mod tool;
pub mod tool_args;
pub mod tool_path;
