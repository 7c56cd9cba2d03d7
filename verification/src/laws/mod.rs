//! What holds of the index, of the kept lines, of the residual records and of
//! the files written, for every filter file and every run of data files.

pub mod filter;
pub mod index;
pub mod lines;
pub mod residual;
