//! Collects log lines, turns them into events and hands them on in batches.
//!
//! A source reads files as they grow. Lines become events, those of one event are
//! merged, and offsets move on only by receipts for what is stored. Between source
//! and sink, events are gathered into batches, and batches that fail are tried
//! again. What is here decides; reading, sending and waiting are left to the
//! program around it.

pub mod batch;
pub mod config;
pub mod error;
pub mod event;
pub mod json;
pub mod laws;
pub mod list;
pub mod map;
pub mod parser;
pub mod pipeline;
pub mod sink;
pub mod source;
pub mod text;
pub mod time;
pub mod value;

pub use error::Error;
pub use event::LogEvent;
pub use parser::{Aggregator, ChainParser, LogFormat, LogbackParser, Parser, RegexParser};
pub use pipeline::PipelineBuilder;
