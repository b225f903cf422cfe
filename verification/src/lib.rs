//! Core of a continuous-benchmarking pipeline.
//!
//! The output of a benchmark tool is read by an adapter into the canonical
//! result model (`results`): `adapter` holds the selector that tries the
//! parsers in a fixed order of priority, and the parsers themselves are in
//! `rust_bench`, `criterion`, `catch2`, `go_bench`, `google`, `jmh` and
//! `json_format`, over the helpers of `text`, `lines`, `json` and
//! `records`.
//!
//! What is watched, and how, is kept in a `store`: for each branch, testbed
//! and measure a `threshold` points at the `model` in force, and every model
//! a threshold ever had stays in the store. `reconcile` brings the
//! thresholds of a scope to what a report declares, `state` says what every
//! write does, and `laws` holds what is true of all of it.
//!
//! `boundary` computes, from a model and the history of a measure, the
//! limits around the history and the verdict on a new value, in integer
//! arithmetic (`arith`).
//!
//! Every magnitude is a fixed-point number with three fractional digits,
//! held as the whole number of its thousandths; latencies are in
//! nanoseconds.

pub mod adapter;
pub mod arith;
pub mod boundary;
pub mod catch2;
pub mod criterion;
pub mod error;
pub mod go_bench;
pub mod google;
pub mod ids;
pub mod jmh;
pub mod json;
pub mod json_format;
pub mod laws;
pub mod lines;
pub mod model;
pub mod project;
pub mod reconcile;
pub mod records;
pub mod results;
pub mod rust_bench;
pub mod signup;
pub mod state;
pub mod store;
pub mod text;
pub mod threshold;
pub mod up;
