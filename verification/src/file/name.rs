//! File names: which ones say "compressed", and what an output file is called.

use vstd::prelude::*;
use vstd::string::*;
use crate::config::OutputFormat;

verus! {

/// The suffix of a compressed file's name.
pub open spec fn gzip_suffix() -> Seq<char> {
    seq!['.', 'g', 'z']
}

/// Whether a file name says that the file is compressed: it ends in `.gz`,
/// and something stands before that.
pub open spec fn has_gzip_suffix(name: Seq<char>) -> bool {
    name.len() > 3 && name.subrange(name.len() - 3, name.len() as int) == gzip_suffix()
}

/// The name of the output file for an input file called `name`: without the
/// suffix where plain text is forced, with it where compression is forced,
/// and the input's own name where nothing is forced.
pub open spec fn output_name(name: Seq<char>, format: Option<OutputFormat>) -> Seq<char> {
    match format {
        Some(OutputFormat::Plaintext) => if has_gzip_suffix(name) {
            name.subrange(0, name.len() - 3)
        } else {
            name
        },
        Some(OutputFormat::Gzipped) => if has_gzip_suffix(name) {
            name
        } else {
            name + gzip_suffix()
        },
        None => name,
    }
}

/// The name of the file that takes the entries nothing matched.
pub open spec fn residual_name() -> Seq<char> {
    "NonBabelNodes.txt.gz"@
}

/// Tells whether a file of this name is read and written compressed. Only the
/// name decides; the file's contents are not looked at.
pub fn is_gzip_name(name: &str) -> (r: bool)
    ensures
        r == has_gzip_suffix(name@),
{
    let n: usize = name.unicode_len();
    if n <= 3 {
        return false;
    }
    let dot = name.get_char(n - 3);
    let g = name.get_char(n - 2);
    let z = name.get_char(n - 1);
    proof {
        let tail = name@.subrange(n - 3, n as int);
        if dot == '.' && g == 'g' && z == 'z' {
            assert(tail =~= gzip_suffix());
        }
    }
    dot == '.' && g == 'g' && z == 'z'
}

/// Names the output file for an input file, under the format policy.
pub fn output_file_name(name: &str, format: Option<OutputFormat>) -> (r: String)
    ensures
        r@ == output_name(name@, format),
{
    let compressed = is_gzip_name(name);
    match format {
        Some(OutputFormat::Plaintext) => {
            if compressed {
                let n: usize = name.unicode_len();
                String::from_str(name.substring_char(0, n - 3))
            } else {
                String::from_str(name)
            }
        },
        Some(OutputFormat::Gzipped) => {
            if compressed {
                String::from_str(name)
            } else {
                let mut out = String::from_str(name);
                proof {
                    reveal_strlit(".gz");
                }
                out.append(".gz");
                out
            }
        },
        None => String::from_str(name),
    }
}

/// The name of the file that takes the entries nothing matched. Its suffix
/// makes it compressed, whatever the format policy.
pub fn residual_file_name() -> (r: String)
    ensures
        r@ == residual_name(),
        has_gzip_suffix(r@),
{
    proof {
        reveal_strlit("NonBabelNodes.txt.gz");
        let name = "NonBabelNodes.txt.gz"@;
        assert(name.subrange(name.len() - 3, name.len() as int) =~= gzip_suffix());
    }
    String::from_str("NonBabelNodes.txt.gz")
}

} // verus!
