//! Settings of one filtering run.

use vstd::prelude::*;
use vstd::string::*;

verus! {

/// The format forced on every output file, whatever the input's format.
#[derive(Clone, Copy, Debug, PartialEq, Eq, Structural)]
pub enum OutputFormat {
    Gzipped,
    Plaintext,
}

/// What the filter engine is told: the join keys, the categories that exclude
/// a filter entry, and the output format policy.
#[derive(Debug)]
pub struct Config {
    /// Categories that keep a filter entry out of the index.
    pub exclude_category: Option<Vec<String>>,
    /// Key of the category array in a filter-file line.
    pub filter_file_category_key: String,
    /// Key of the identifier in a filter-file line.
    pub filter_file_identifier: String,
    /// Key of the identifier in a data-file line.
    pub babel_identifier: String,
    /// `None` lets each output file match its input file.
    pub output_format: Option<OutputFormat>,
}

impl Config {
    /// The settings of a run with nothing configured: keys `id`, `curie` and
    /// `category`, no exclusion, output format as the input's.
    pub fn new() -> (config: Config)
        ensures
            config.exclude_category is None,
            config.filter_file_category_key@ == "category"@,
            config.filter_file_identifier@ == "id"@,
            config.babel_identifier@ == "curie"@,
            config.output_format is None,
    {
        Config {
            exclude_category: None,
            filter_file_category_key: String::from_str("category"),
            filter_file_identifier: String::from_str("id"),
            babel_identifier: String::from_str("curie"),
            output_format: None,
        }
    }
}

} // verus!
