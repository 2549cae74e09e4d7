//! Where events come from.

pub mod checkpoint;
pub mod collection;
pub mod discover;
pub mod file;
pub mod k8s;
pub mod labels;
pub mod path;
pub mod read;
pub mod schedule;
pub mod stdin;
pub mod tail;

pub use file::FileSource;
pub use k8s::PodMeta;
pub use stdin::StdinSource;
