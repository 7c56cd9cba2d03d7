//! The line sink: the lines of an output file, compressed where its name
//! says so.

use vstd::prelude::*;
use vstd::string::*;
use vstd::utf8::encode_utf8;
use crate::file::gzip::{compress, gunzip, gzip};
use crate::file::name::{has_gzip_suffix, is_gzip_name};

verus! {

/// Why the contents of an output file cannot be had.
#[derive(Clone, Copy, Debug, PartialEq, Eq, Structural)]
pub enum WriteError {
    /// The encoder failed to compress the lines.
    Gzip,
}

/// The bytes of one line in a file: its text in UTF-8, and a newline.
pub open spec fn line_bytes(line: Seq<char>) -> Seq<u8> {
    encode_utf8(line).push(10u8)
}

/// The bytes of some lines in a file, one after the other.
pub open spec fn lines_bytes(lines: Seq<Seq<char>>) -> Seq<u8>
    decreases lines.len(),
{
    if lines.len() == 0 {
        Seq::empty()
    } else {
        lines_bytes(lines.drop_last()) + line_bytes(lines.last())
    }
}

/// The contents of a file that holds `bytes`, compressed or not.
pub open spec fn file_contents(compressed: bool, bytes: Seq<u8>) -> Option<Seq<u8>> {
    if compressed {
        gzip(bytes)
    } else {
        Some(bytes)
    }
}

/// What a reader finds in a file with these contents, compressed or not.
pub open spec fn contents_read(compressed: bool, contents: Seq<u8>) -> Option<Seq<u8>> {
    if compressed {
        gunzip(contents)
    } else {
        Some(contents)
    }
}

/// A line sink that gathers the bytes of one output file.
pub struct Writer {
    compressed: bool,
    bytes: Vec<u8>,
}

impl View for Writer {
    type V = Seq<u8>;

    /// The bytes of the lines written so far, before any compression.
    closed spec fn view(&self) -> Seq<u8> {
        self.bytes@
    }
}

impl Writer {
    /// Whether the file's contents come out compressed.
    pub closed spec fn compressed(&self) -> bool {
        self.compressed
    }

    /// Opens a line sink for the file called `name`. Where the name ends in
    /// `.gz` the file's contents will be compressed.
    pub fn new(name: &str) -> (writer: Writer)
        ensures
            writer@ == Seq::<u8>::empty(),
            writer.compressed() == has_gzip_suffix(name@),
    {
        Writer { compressed: is_gzip_name(name), bytes: Vec::new() }
    }

    /// Appends `line` and a newline.
    pub fn write_line(&mut self, line: &str)
        ensures
            final(self)@ == old(self)@ + line_bytes(line@),
            final(self).compressed() == old(self).compressed(),
    {
        let text = line.as_bytes();
        self.bytes.extend_from_slice(text);
        self.bytes.push(10u8);
    }

    /// The contents of the file: the lines written, compressed where the
    /// file's name asked for it. Contents that were compressed decompress to
    /// the lines written.
    pub fn finish(self) -> (r: Result<Vec<u8>, WriteError>)
        ensures
            match r {
                Ok(contents) => file_contents(self.compressed(), self@) == Some(contents@)
                    && contents_read(self.compressed(), contents@) == Some(self@),
                Err(e) => file_contents(self.compressed(), self@) is None,
            },
    {
        if self.compressed {
            match compress(self.bytes.as_slice()) {
                Some(contents) => Ok(contents),
                None => Err(WriteError::Gzip),
            }
        } else {
            Ok(self.bytes)
        }
    }
}

} // verus!
