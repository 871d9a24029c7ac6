//! Core of an audio-processing pipeline that turns an uploaded recording
//! into derived artifacts — instrument stems, a transcription of the
//! piano stem, and a rendered score — through a persistent, restartable,
//! cancellable job queue.
//!
//! The store holds the file and asset tables and their invariants; the
//! planner turns "which stage does the user want" into the one job to
//! enqueue next, in strict stage order; the worker functions claim,
//! dispatch and settle jobs and chain toward the stored target. The slow
//! external operations themselves (separation, transcription, rendering)
//! run outside this crate and report back through the worker functions.

pub mod commands;
pub mod config;
mod ext;
pub mod laws;
pub mod models;
pub mod planner;
pub mod store;
pub mod util;
pub mod worker;
