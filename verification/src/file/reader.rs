//! The line source: the lines of a file, decompressed where its name says so.

use vstd::prelude::*;
use vstd::slice::*;
use vstd::utf8::*;
use crate::file::gzip::{decompress, gunzip};
use crate::file::name::{has_gzip_suffix, is_gzip_name};

verus! {

/// Why a file, or a line of it, cannot be read.
#[derive(Clone, Copy, Debug, PartialEq, Eq, Structural)]
pub enum ReadError {
    /// The file's name says it is compressed, and its bytes are no gzip stream.
    Gzip,
    /// The line is no UTF-8 text.
    Utf8,
}

/// The number of bytes before the first newline, or the number of all bytes
/// where there is no newline.
pub open spec fn newline_at(bytes: Seq<u8>) -> nat
    decreases bytes.len(),
{
    if bytes.len() == 0 || bytes[0] == 10u8 {
        0
    } else {
        1 + newline_at(bytes.skip(1))
    }
}

/// A line without the carriage return that stood before its newline.
pub open spec fn without_cr(line: Seq<u8>) -> Seq<u8> {
    if line.len() > 0 && line.last() == 13u8 {
        line.drop_last()
    } else {
        line
    }
}

/// The first line of a file that holds something: the bytes before the first
/// newline, without a carriage return just before it; or all bytes where
/// there is no newline.
pub open spec fn first_line(bytes: Seq<u8>) -> Seq<u8> {
    let n = newline_at(bytes) as int;
    if n < bytes.len() {
        without_cr(bytes.take(n))
    } else {
        bytes
    }
}

/// What follows the first line and its newline.
pub open spec fn after_first_line(bytes: Seq<u8>) -> Seq<u8> {
    let n = newline_at(bytes) as int;
    if n < bytes.len() {
        bytes.skip(n + 1)
    } else {
        Seq::empty()
    }
}

/// The lines of a file. A line ends at a newline, which is no part of it, nor
/// is a carriage return just before the newline. What follows the last
/// newline is a line too, unless nothing follows.
pub open spec fn split_lines(bytes: Seq<u8>) -> Seq<Seq<u8>>
    decreases bytes.len(),
{
    if bytes.len() == 0 {
        Seq::empty()
    } else {
        seq![first_line(bytes)] + split_lines(after_first_line(bytes))
    }
}

/// The text of a line, where the line is UTF-8.
pub open spec fn line_text(line: Seq<u8>) -> Option<Seq<char>> {
    if valid_utf8(line) {
        Some(decode_utf8(line))
    } else {
        None
    }
}

/// The lines of a file as text, `None` for a line that is no UTF-8.
pub open spec fn text_lines(bytes: Seq<u8>) -> Seq<Option<Seq<char>>> {
    split_lines(bytes).map_values(|line: Seq<u8>| line_text(line))
}

/// The bytes that a file of this name holds once decompressed: the file's own
/// bytes unless the name says it is compressed.
pub open spec fn file_bytes(name: Seq<char>, contents: Seq<u8>) -> Option<Seq<u8>> {
    if has_gzip_suffix(name) {
        gunzip(contents)
    } else {
        Some(contents)
    }
}

/// What a line, as the reader hands it out, says as text.
pub open spec fn read_text(line: Result<String, ReadError>) -> Option<Seq<char>> {
    match line {
        Ok(text) => Some(text@),
        Err(_) => None,
    }
}

/// The texts of the lines that a reader handed out.
pub open spec fn read_texts(lines: Seq<Result<String, ReadError>>) -> Seq<Option<Seq<char>>> {
    lines.map_values(|line: Result<String, ReadError>| read_text(line))
}

/// Calls `String::from_utf8`. Trusted: it succeeds on UTF-8 and only there,
/// and the string then holds the characters that the bytes encode.
#[verifier::external_body]
fn string_from_utf8(bytes: Vec<u8>) -> (r: Option<String>)
    ensures
        r is Some <==> valid_utf8(bytes@),
        r matches Some(text) ==> text@ == decode_utf8(bytes@),
{
    String::from_utf8(bytes).ok()
}

/// The first newline stands where no byte before it is one.
pub proof fn lemma_newline_at(bytes: Seq<u8>, n: int)
    requires
        0 <= n <= bytes.len(),
        forall|k: int| 0 <= k < n ==> bytes[k] != 10u8,
        n < bytes.len() ==> bytes[n] == 10u8,
    ensures
        newline_at(bytes) == n,
    decreases n,
{
    if n > 0 {
        lemma_newline_at(bytes.skip(1), n - 1);
    }
}

/// A line source over the bytes of one file. It hands out the lines one
/// after the other.
pub struct Reader {
    bytes: Vec<u8>,
    next: usize,
}

impl View for Reader {
    type V = Seq<u8>;

    /// The bytes of the lines that were not handed out yet.
    closed spec fn view(&self) -> Seq<u8> {
        self.bytes@.skip(self.next as int)
    }
}

impl Reader {
    #[verifier::type_invariant]
    closed spec fn well_formed(&self) -> bool {
        self.next <= self.bytes.len()
    }

    /// Opens a line source on the contents of the file called `name`, which
    /// is the file's name without its directory. Where the name ends in `.gz`
    /// the contents are decompressed; whether they are compressed is not
    /// looked at otherwise.
    pub fn new(name: &str, contents: Vec<u8>) -> (r: Result<Reader, ReadError>)
        ensures
            match r {
                Ok(reader) => file_bytes(name@, contents@) == Some(reader@),
                Err(e) => file_bytes(name@, contents@) is None && e == ReadError::Gzip,
            },
    {
        if is_gzip_name(name) {
            match decompress(contents.as_slice()) {
                Some(bytes) => {
                    Ok(Reader { bytes, next: 0 })
                },
                None => Err(ReadError::Gzip),
            }
        } else {
            Ok(Reader { bytes: contents, next: 0 })
        }
    }

    /// The number of bytes that were not handed out yet.
    pub fn remaining(&self) -> (n: usize)
        ensures
            n == self@.len(),
    {
        proof {
            use_type_invariant(&*self);
        }
        self.bytes.len() - self.next
    }

    /// Hands out the next line, `None` where no line is left. A line that is
    /// no UTF-8 comes out as an error.
    pub fn next_line(&mut self) -> (r: Option<Result<String, ReadError>>)
        ensures
            match r {
                Some(line) => old(self)@.len() > 0 && read_text(line) == line_text(
                    first_line(old(self)@),
                ) && final(self)@ == after_first_line(old(self)@),
                None => old(self)@.len() == 0 && final(self)@ == old(self)@,
            },
            r matches Some(Err(e)) ==> e == ReadError::Utf8,
    {
        proof {
            use_type_invariant(&*self);
        }
        let n: usize = self.bytes.len();
        let start: usize = self.next;
        if start >= n {
            return None;
        }
        let ghost rest = self.bytes@.skip(start as int);
        let mut i: usize = start;
        while i < n && self.bytes[i] != 10u8
            invariant
                n == self.bytes.len(),
                start <= i <= n,
                forall|k: int| start <= k < i ==> self.bytes@[k] != 10u8,
            decreases n - i,
        {
            i += 1;
        }
        let end: usize = if i < n && start < i && self.bytes[i - 1] == 13u8 {
            i - 1
        } else {
            i
        };
        let line = slice_to_vec(slice_subrange(self.bytes.as_slice(), start, end));
        proof {
            lemma_newline_at(rest, i - start);
            assert(line@ == first_line(rest));
        }
        self.next = if i < n {
            i + 1
        } else {
            n
        };
        match string_from_utf8(line) {
            Some(text) => Some(Ok(text)),
            None => Some(Err(ReadError::Utf8)),
        }
    }

    /// The lines that are left, in their order. A line that is no UTF-8 comes
    /// out as an error, in its place.
    pub fn lines(self) -> (lines: Vec<Result<String, ReadError>>)
        ensures
            read_texts(lines@) == text_lines(self@),
            forall|i: int|
                0 <= i < lines.len() ==> ((#[trigger] lines[i]) matches Err(e) ==> e
                    == ReadError::Utf8),
    {
        let mut reader = self;
        let mut lines: Vec<Result<String, ReadError>> = Vec::new();
        loop
            invariant
                read_texts(lines@) + text_lines(reader@) == text_lines(self@),
                forall|i: int|
                    0 <= i < lines.len() ==> ((#[trigger] lines[i]) matches Err(e) ==> e
                        == ReadError::Utf8),
            decreases reader@.len(),
        {
            let ghost before = reader@;
            match reader.next_line() {
                Some(line) => {
                    lines.push(line);
                    proof {
                        lemma_text_lines(before);
                    }
                },
                None => {
                    return lines;
                },
            }
        }
    }
}

/// The lines of a file that holds something are its first line and the lines
/// of what follows it, which is shorter.
pub proof fn lemma_text_lines(bytes: Seq<u8>)
    requires
        bytes.len() > 0,
    ensures
        text_lines(bytes) == seq![line_text(first_line(bytes))] + text_lines(
            after_first_line(bytes),
        ),
        after_first_line(bytes).len() < bytes.len(),
{
}

} // verus!
