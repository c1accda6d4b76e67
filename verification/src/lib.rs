//! Core of a transcoding front-end: a bounded-concurrency job queue that
//! realizes each job as a chain of external processes (stage N's output feeding
//! stage N+1's input), classifies their diagnostic output, and supports
//! cancellation of queued and in-flight work.
//!
//! The queue itself is a verified state machine: the host program performs the
//! actual spawning, killing and stream reading, and reports the outcomes back
//! through the methods of [`queue::TranscodeQueue`].

pub mod chain;
pub mod classifier;
pub mod command;
pub mod error;
pub mod hash;
pub mod laws;
pub mod parser;
pub mod queue;
pub mod text;
