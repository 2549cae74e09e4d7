//! Turns lines of text into events.

pub mod access;
pub mod aggregate;
pub mod api;
pub mod chain;
pub mod cri;
pub mod ids;
pub mod logback;
pub mod pattern;
pub mod stamp;

pub use access::{GinParser, NginxParser};
pub use aggregate::Aggregator;
pub use api::Parser;
pub use chain::{BoxedParser, ChainParser, LogFormat};
pub use cri::{ContainerFormat, CriDecoder, DecodedLine, LineDecoder};
pub use logback::LogbackParser;
pub use pattern::{RegexParser, DEFAULT_PATTERN};
