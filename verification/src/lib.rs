//! Filters line-delimited JSON data files against a membership index built
//! from a filter file, and reports the filter entries that no data record
//! matched.
//!
//! The library works on the contents of files and hands contents back;
//! opening, reading and writing the files is the caller's part. A run goes
//! through [`load_index`], then [`filter_data_file`] once for every data
//! file, with the same index, and ends with [`residual_file`].

pub mod config;
pub mod engine;
pub mod file;
pub mod index;
pub mod json;
pub mod laws;
pub mod render;
pub mod residual;
pub mod run;
pub mod types;

pub use config::{Config, OutputFormat};
pub use engine::{build_index, filter_file, has_excluded_category, FileStats};
pub use file::name::{is_gzip_name, output_file_name, residual_file_name};
pub use file::reader::{ReadError, Reader};
pub use file::writer::{WriteError, Writer};
pub use index::MembershipIndex;
pub use residual::{write_residual, ResidualRecord};
pub use run::{filter_data_file, load_index, residual_file, OutputFile, RunError};
pub use types::{BabelFormat, FilterFormat};
