//! Line sources and line sinks over the bytes of a file.

pub mod gzip;
pub mod name;
pub mod reader;
pub mod writer;
