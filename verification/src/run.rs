//! The phases of a run, from the contents of files to the contents of files:
//! the filter file gives the index, every data file gives one output file,
//! and what is left of the index gives the residual file.

use vstd::prelude::*;
use crate::config::Config;
use crate::engine::{
    build_index, built_index, excluded_count, filter_entries, filter_file, identifiers,
    index_after, kept_lines, FileStats,
};
use crate::file::name::{
    has_gzip_suffix, output_file_name, output_name, residual_file_name, residual_name,
};
use crate::file::reader::{file_bytes, text_lines, ReadError, Reader};
use crate::file::writer::{file_contents, lines_bytes, WriteError, Writer};
use crate::index::{is_listing, MembershipIndex};
use crate::residual::{rendered_lines, residuals_of, write_residual};
use crate::types::FilterFormatView;

verus! {

/// A file to be written: its name, without a directory, and its contents.
#[derive(Debug, PartialEq, Eq)]
pub struct OutputFile {
    pub name: String,
    pub contents: Vec<u8>,
}

/// Why a data file gave no output file.
#[derive(Clone, Copy, Debug, PartialEq, Eq)]
pub enum RunError {
    /// The data file cannot be read.
    Read(ReadError),
    /// The output file's contents cannot be had.
    Write(WriteError),
}

/// The contents of the output file for some kept lines, under the name that
/// the output file has.
pub open spec fn output_contents(name: Seq<char>, lines: Seq<Seq<char>>) -> Option<Seq<u8>> {
    file_contents(has_gzip_suffix(name), lines_bytes(lines))
}

/// Builds the membership index from the contents of the filter file called
/// `name`. Fails where the name says the file is compressed and its contents
/// are no gzip stream.
pub fn load_index(name: &str, contents: Vec<u8>, config: &Config) -> (r: Result<
    (MembershipIndex, usize),
    ReadError,
>)
    ensures
        match r {
            Ok((index, removed)) => file_bytes(name@, contents@) matches Some(bytes) && index@
                == built_index(
                filter_entries(
                    text_lines(bytes),
                    config.filter_file_identifier@,
                    config.filter_file_category_key@,
                ),
                config.exclude_category.deep_view(),
            ) && removed == excluded_count(
                filter_entries(
                    text_lines(bytes),
                    config.filter_file_identifier@,
                    config.filter_file_category_key@,
                ),
                config.exclude_category.deep_view(),
            ),
            Err(e) => file_bytes(name@, contents@) is None && e == ReadError::Gzip,
        },
{
    match Reader::new(name, contents) {
        Ok(reader) => Ok(build_index(reader, config)),
        Err(e) => Err(e),
    }
}

/// Filters the data file called `name`: names the output file under the
/// format policy, keeps the lines whose identifier the index holds, and
/// frames them as the output file's name says. The entries that matched
/// leave the index. Where the data file cannot be read the index stays as it
/// was.
pub fn filter_data_file(
    index: &mut MembershipIndex,
    name: &str,
    contents: Vec<u8>,
    config: &Config,
) -> (r: Result<(OutputFile, FileStats), RunError>)
    ensures
        match r {
            Ok((file, stats)) => {
                &&& file.name@ == output_name(name@, config.output_format)
                &&& file_bytes(name@, contents@) matches Some(bytes)
                &&& final(index)@ == index_after(
                    old(index)@,
                    identifiers(text_lines(bytes), config.babel_identifier@),
                )
                &&& output_contents(
                    file.name@,
                    kept_lines(old(index)@, text_lines(bytes), config.babel_identifier@),
                ) == Some(file.contents@)
                &&& stats.lines_read == text_lines(bytes).len()
                &&& stats.lines_kept == kept_lines(
                    old(index)@,
                    text_lines(bytes),
                    config.babel_identifier@,
                ).len()
            },
            Err(RunError::Read(e)) => {
                &&& file_bytes(name@, contents@) is None
                &&& e == ReadError::Gzip
                &&& final(index)@ == old(index)@
            },
            Err(RunError::Write(e)) => {
                &&& file_bytes(name@, contents@) matches Some(bytes)
                &&& final(index)@ == index_after(
                    old(index)@,
                    identifiers(text_lines(bytes), config.babel_identifier@),
                )
                &&& output_contents(
                    output_name(name@, config.output_format),
                    kept_lines(old(index)@, text_lines(bytes), config.babel_identifier@),
                ) is None
            },
        },
{
    let reader = match Reader::new(name, contents) {
        Ok(reader) => reader,
        Err(e) => {
            return Err(RunError::Read(e));
        },
    };
    let output = output_file_name(name, config.output_format);
    let mut writer = Writer::new(output.as_str());
    let stats = filter_file(index, reader, &mut writer, config.babel_identifier.as_str());
    match writer.finish() {
        Ok(contents) => Ok((OutputFile { name: output, contents }, stats)),
        Err(e) => Err(RunError::Write(e)),
    }
}

/// Makes the residual file of what is left of the index: one record for every
/// entry that has a display name and categories, in the order in which the
/// index hands them out, compressed. Returns the file and the number of
/// records in it.
pub fn residual_file(index: MembershipIndex, config: &Config) -> (r: Result<
    (OutputFile, usize),
    WriteError,
>)
    ensures
        exists|listing: Seq<(Seq<char>, FilterFormatView)>|
            #![trigger is_listing(listing, index@)]
            is_listing(listing, index@) && match r {
                Ok((file, written)) => file.name@ == residual_name() && written == residuals_of(
                    listing,
                ).len() && output_contents(
                    residual_name(),
                    rendered_lines(residuals_of(listing), config.babel_identifier@),
                ) == Some(file.contents@),
                Err(e) => output_contents(
                    residual_name(),
                    rendered_lines(residuals_of(listing), config.babel_identifier@),
                ) is None,
            },
{
    let name = residual_file_name();
    let mut writer = Writer::new(name.as_str());
    let written: usize = write_residual(index, &mut writer, config.babel_identifier.as_str());
    match writer.finish() {
        Ok(contents) => Ok((OutputFile { name, contents }, written)),
        Err(e) => Err(e),
    }
}

} // verus!
