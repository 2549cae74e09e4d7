//! Where events go.

pub mod clickhouse;
pub mod console;
pub mod ddl;
pub mod zone;

pub use clickhouse::ClickhouseSink;
pub use console::ConsoleSink;
