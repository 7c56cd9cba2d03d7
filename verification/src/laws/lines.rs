//! What holds of files of lines: what was written is what is read.

use vstd::prelude::*;
use vstd::utf8::*;
use crate::engine::{identifiers, kept_lines};
use crate::file::reader::{
    after_first_line, first_line, lemma_newline_at, line_text, newline_at, split_lines,
    text_lines, without_cr,
};
use crate::file::writer::{line_bytes, lines_bytes};
use crate::laws::filter::{kept_positions, lemma_kept_lines, lemma_kept_positions};
use crate::render::{decimal, escaped, escaped_char, quoted, quoted_list};
use crate::residual::{rendered, rendered_lines, ResidualRecordView};
use crate::types::FilterFormatView;

verus! {

/// Whether a text can stand on one line of a file and be read back as it
/// is: it holds no newline and does not end in a carriage return.
pub open spec fn fits_a_line(text: Seq<char>) -> bool {
    &&& forall|i: int| 0 <= i < text.len() ==> #[trigger] text[i] != '\n'
    &&& text.len() > 0 ==> text.last() != '\r'
}

proof fn lemma_one_byte_scalar(c: u32)
    by (bit_vector)
    requires
        has_width_1_encoding(c),
    ensures
        leading_byte_width_1(c) == 10u8 <==> c == 10u32,
        leading_byte_width_1(c) == 13u8 <==> c == 13u32,
{
}

proof fn lemma_high_bytes(c: u32)
    by (bit_vector)
    ensures
        leading_byte_width_2(c) >= 0x80u8,
        leading_byte_width_3(c) >= 0x80u8,
        leading_byte_width_4(c) >= 0x80u8,
        last_continuation_byte(c) >= 0x80u8,
        second_last_continuation_byte(c) >= 0x80u8,
        third_last_continuation_byte(c) >= 0x80u8,
{
}

/// The bytes of a character other than the newline hold no newline, and
/// likewise for the carriage return.
proof fn lemma_scalar_bytes(c: char)
    ensures
        encode_scalar(c as u32).len() > 0,
        c != '\n' ==> forall|k: int|
            0 <= k < encode_scalar(c as u32).len() ==> #[trigger] encode_scalar(c as u32)[k]
                != 10u8,
        c != '\r' ==> forall|k: int|
            0 <= k < encode_scalar(c as u32).len() ==> #[trigger] encode_scalar(c as u32)[k]
                != 13u8,
{
    let scalar = c as u32;
    char_is_scalar(c);
    char_u32_cast(c, scalar);
    char_u32_cast('\n', 10u32);
    char_u32_cast('\r', 13u32);
    lemma_high_bytes(scalar);
    if has_width_1_encoding(scalar) {
        lemma_one_byte_scalar(scalar);
    }
}

/// The UTF-8 bytes of a text that holds no newline hold no newline byte, and
/// they end in a carriage return only where the text does.
proof fn lemma_encoded_line(text: Seq<char>)
    requires
        fits_a_line(text),
    ensures
        forall|k: int|
            0 <= k < encode_utf8(text).len() ==> #[trigger] encode_utf8(text)[k] != 10u8,
        encode_utf8(text).len() > 0 ==> encode_utf8(text).last() != 13u8,
        text.len() > 0 ==> encode_utf8(text).len() > 0,
    decreases text.len(),
{
    if text.len() > 0 {
        let head = encode_scalar(text[0] as u32);
        let rest = text.drop_first();
        lemma_scalar_bytes(text[0]);
        assert forall|i: int| 0 <= i < rest.len() implies #[trigger] rest[i] != '\n' by {
            assert(rest[i] == text[i + 1]);
        }
        if rest.len() > 0 {
            assert(rest.last() == text.last());
            lemma_encoded_line(rest);
        } else {
            assert(encode_utf8(rest) =~= Seq::<u8>::empty());
            assert(text[0] == text.last());
        }
        assert(encode_utf8(text) == head + encode_utf8(rest));
    }
}

/// The bytes of some lines are the bytes of the first line, then the bytes of
/// the others.
proof fn lemma_lines_bytes_first(lines: Seq<Seq<char>>)
    requires
        lines.len() > 0,
    ensures
        lines_bytes(lines) == line_bytes(lines[0]) + lines_bytes(lines.drop_first()),
    decreases lines.len(),
{
    if lines.len() == 1 {
        assert(lines.drop_last() =~= Seq::<Seq<char>>::empty());
        assert(lines.drop_first() =~= Seq::<Seq<char>>::empty());
        assert(lines_bytes(lines.drop_last()) =~= Seq::<u8>::empty());
        assert(lines.last() == lines[0]);
        assert(lines_bytes(lines) =~= line_bytes(lines[0]));
        assert(line_bytes(lines[0]) + lines_bytes(lines.drop_first()) =~= line_bytes(lines[0]));
    } else {
        let front = lines.drop_last();
        lemma_lines_bytes_first(front);
        assert(front.drop_first() == lines.drop_first().drop_last());
        assert(lines.drop_first().last() == lines.last());
        assert(line_bytes(lines[0]) + lines_bytes(front.drop_first()) + line_bytes(lines.last())
            == line_bytes(lines[0]) + (lines_bytes(front.drop_first()) + line_bytes(
            lines.last(),
        )));
    }
}

/// What was written is what is read: lines that hold no newline and do not
/// end in a carriage return, written one after the other, are read back as
/// the same lines.
pub proof fn lemma_lines_read_back(lines: Seq<Seq<char>>)
    requires
        forall|i: int| 0 <= i < lines.len() ==> fits_a_line(#[trigger] lines[i]),
    ensures
        text_lines(lines_bytes(lines)) == lines.map_values(|line: Seq<char>| Some(line)),
    decreases lines.len(),
{
    broadcast use {encode_utf8_valid_utf8, encode_utf8_decode_utf8};

    if lines.len() == 0 {
        assert(text_lines(lines_bytes(lines)) =~= lines.map_values(|line: Seq<char>| Some(line)));
    } else {
        let rest = lines.drop_first();
        let encoded = encode_utf8(lines[0]);
        let bytes = lines_bytes(lines);
        assert forall|i: int| 0 <= i < rest.len() implies fits_a_line(#[trigger] rest[i]) by {
            assert(rest[i] == lines[i + 1]);
        }
        lemma_lines_read_back(rest);
        lemma_lines_bytes_first(lines);
        lemma_encoded_line(lines[0]);
        assert(bytes == encoded.push(10u8) + lines_bytes(rest));
        let n = encoded.len() as int;
        assert forall|k: int| 0 <= k < n implies bytes[k] != 10u8 by {
            assert(bytes[k] == encoded[k]);
        }
        assert(bytes[n] == 10u8);
        lemma_newline_at(bytes, n);
        assert(bytes.take(n) == encoded);
        assert(bytes.skip(n + 1) == lines_bytes(rest));
        assert(without_cr(encoded) == encoded);
        assert(split_lines(bytes) == seq![encoded] + split_lines(lines_bytes(rest)));
        assert(line_text(encoded) == Some(lines[0]));
        assert(text_lines(bytes) =~= lines.map_values(|line: Seq<char>| Some(line))) by {
            let read = text_lines(bytes);
            let read_rest = text_lines(lines_bytes(rest));
            assert(read_rest.len() == split_lines(lines_bytes(rest)).len());
            assert(read_rest.len() == rest.len());
            assert(read.len() == lines.len());
            assert forall|i: int| 0 <= i < lines.len() implies read[i] == Some(lines[i]) by {
                if i > 0 {
                    assert(split_lines(bytes)[i] == split_lines(lines_bytes(rest))[i - 1]);
                    assert(read_rest[i - 1] == Some(rest[i - 1]));
                }
            }
        }
    }
}

/// Whether a text holds no newline.
pub open spec fn one_line(text: Seq<char>) -> bool {
    forall|i: int| 0 <= i < text.len() ==> #[trigger] text[i] != '\n'
}

proof fn lemma_one_line_joined(a: Seq<char>, b: Seq<char>)
    requires
        one_line(a),
        one_line(b),
    ensures
        one_line(a + b),
{
    assert forall|i: int| 0 <= i < (a + b).len() implies #[trigger] (a + b)[i] != '\n' by {
        if i < a.len() {
            assert((a + b)[i] == a[i]);
        } else {
            assert((a + b)[i] == b[i - a.len()]);
        }
    }
}

/// A text as it stands inside a JSON string holds no newline.
pub proof fn lemma_escaped_one_line(text: Seq<char>)
    ensures
        one_line(escaped(text)),
    decreases text.len(),
{
    if text.len() > 0 {
        lemma_escaped_one_line(text.drop_last());
        assert(one_line(escaped_char(text.last())));
        lemma_one_line_joined(escaped(text.drop_last()), escaped_char(text.last()));
    }
}

proof fn lemma_quoted_one_line(text: Seq<char>)
    ensures
        one_line(quoted(text)),
{
    reveal_strlit("\"");
    lemma_escaped_one_line(text);
    lemma_one_line_joined("\""@, escaped(text));
    lemma_one_line_joined("\""@ + escaped(text), "\""@);
}

proof fn lemma_quoted_list_one_line(items: Seq<Seq<char>>)
    ensures
        one_line(quoted_list(items)),
    decreases items.len(),
{
    if items.len() == 1 {
        lemma_quoted_one_line(items[0]);
    } else if items.len() > 1 {
        reveal_strlit(",");
        lemma_quoted_list_one_line(items.drop_last());
        lemma_quoted_one_line(items.last());
        lemma_one_line_joined(quoted_list(items.drop_last()), ","@);
        lemma_one_line_joined(quoted_list(items.drop_last()) + ","@, quoted(items.last()));
    }
}

proof fn lemma_decimal_one_line(n: nat)
    ensures
        one_line(decimal(n)),
    decreases n,
{
    if n >= 10 {
        lemma_decimal_one_line(n / 10);
    }
}

/// The line written for a record is one line: it holds no newline, and it
/// does not end in a carriage return.
pub proof fn lemma_rendered_fits_a_line(record: ResidualRecordView, id_key: Seq<char>)
    ensures
        fits_a_line(rendered(record, id_key)),
{
    reveal_strlit("{");
    reveal_strlit(":");
    reveal_strlit(",\"names\":[");
    reveal_strlit("],\"types\":[");
    reveal_strlit("],\"preferred_name\":[");
    reveal_strlit("],\"shortest_name_length\":");
    reveal_strlit("}");
    lemma_quoted_one_line(id_key);
    lemma_quoted_one_line(record.identifier);
    lemma_quoted_list_one_line(record.names);
    lemma_quoted_list_one_line(record.types);
    lemma_decimal_one_line(record.shortest_name_length);
    let a = "{"@ + quoted(id_key);
    lemma_one_line_joined("{"@, quoted(id_key));
    let b = a + ":"@;
    lemma_one_line_joined(a, ":"@);
    let c = b + quoted(record.identifier);
    lemma_one_line_joined(b, quoted(record.identifier));
    let d = c + ",\"names\":["@;
    lemma_one_line_joined(c, ",\"names\":["@);
    let e = d + quoted_list(record.names);
    lemma_one_line_joined(d, quoted_list(record.names));
    let f = e + "],\"types\":["@;
    lemma_one_line_joined(e, "],\"types\":["@);
    let g = f + quoted_list(record.types);
    lemma_one_line_joined(f, quoted_list(record.types));
    let h = g + "],\"preferred_name\":["@;
    lemma_one_line_joined(g, "],\"preferred_name\":["@);
    let i = h + quoted_list(record.names);
    lemma_one_line_joined(h, quoted_list(record.names));
    let j = i + "],\"shortest_name_length\":"@;
    lemma_one_line_joined(i, "],\"shortest_name_length\":"@);
    let k = j + decimal(record.shortest_name_length);
    lemma_one_line_joined(j, decimal(record.shortest_name_length));
    lemma_one_line_joined(k, "}"@);
    assert(rendered(record, id_key) == k + "}"@);
    assert(rendered(record, id_key).last() == '}');
}

/// The residual file reads back as it was written: its lines are the lines
/// written for the records, one record to a line.
pub proof fn lemma_residual_reads_back(records: Seq<ResidualRecordView>, id_key: Seq<char>)
    ensures
        text_lines(lines_bytes(rendered_lines(records, id_key))) == rendered_lines(
            records,
            id_key,
        ).map_values(|line: Seq<char>| Some(line)),
{
    let lines = rendered_lines(records, id_key);
    assert forall|i: int| 0 <= i < lines.len() implies fits_a_line(#[trigger] lines[i]) by {
        lemma_rendered_fits_a_line(records[i], id_key);
    }
    lemma_lines_read_back(lines);
}

/// No newline stands before the first newline, which is at most the end.
proof fn lemma_before_newline(bytes: Seq<u8>)
    ensures
        newline_at(bytes) <= bytes.len(),
        forall|k: int| 0 <= k < newline_at(bytes) ==> #[trigger] bytes[k] != 10u8,
    decreases bytes.len(),
{
    if bytes.len() > 0 && bytes[0] != 10u8 {
        let rest = bytes.skip(1);
        lemma_before_newline(rest);
        assert forall|k: int| 0 <= k < newline_at(bytes) implies #[trigger] bytes[k]
            != 10u8 by {
            if k > 0 {
                assert(bytes[k] == rest[k - 1]);
            }
        }
    }
}

/// No line of a file holds a newline byte.
proof fn lemma_split_lines_hold_no_newline(bytes: Seq<u8>, i: int)
    requires
        0 <= i < split_lines(bytes).len(),
    ensures
        forall|k: int|
            0 <= k < split_lines(bytes)[i].len() ==> #[trigger] split_lines(bytes)[i][k] != 10u8,
    decreases bytes.len(),
{
    lemma_before_newline(bytes);
    let n = newline_at(bytes) as int;
    if i == 0 {
        let line = first_line(bytes);
        assert(split_lines(bytes)[0] == line);
        assert forall|k: int| 0 <= k < line.len() implies #[trigger] line[k] != 10u8 by {
            if n < bytes.len() {
                assert(line[k] == bytes.take(n)[k]);
            }
        }
    } else {
        let rest = after_first_line(bytes);
        assert(split_lines(bytes)[i] == split_lines(rest)[i - 1]);
        lemma_split_lines_hold_no_newline(rest, i - 1);
    }
}

/// The UTF-8 bytes of a text that holds a newline hold a newline byte.
proof fn lemma_encoded_newline(text: Seq<char>, k: int)
    requires
        0 <= k < text.len(),
        text[k] == '\n',
    ensures
        exists|p: int| 0 <= p < encode_utf8(text).len() && #[trigger] encode_utf8(text)[p] == 10u8,
    decreases k,
{
    let head = encode_scalar(text[0] as u32);
    let rest = text.drop_first();
    assert(encode_utf8(text) == head + encode_utf8(rest));
    if k == 0 {
        char_u32_cast('\n', 10u32);
        lemma_one_byte_scalar(10u32);
        assert(encode_utf8(text)[0] == 10u8);
    } else {
        assert(rest[k - 1] == text[k]);
        lemma_encoded_newline(rest, k - 1);
        let p = choose|p: int|
            0 <= p < encode_utf8(rest).len() && #[trigger] encode_utf8(rest)[p] == 10u8;
        assert(encode_utf8(text)[head.len() + p] == 10u8);
    }
}

/// Every line read from a file holds no newline.
pub proof fn lemma_read_lines_hold_no_newline(bytes: Seq<u8>, i: int)
    requires
        0 <= i < text_lines(bytes).len(),
        text_lines(bytes)[i] is Some,
    ensures
        one_line(text_lines(bytes)[i].unwrap()),
{
    let line = split_lines(bytes)[i];
    let text = decode_utf8(line);
    lemma_split_lines_hold_no_newline(bytes, i);
    decode_utf8_encode_utf8(line);
    assert forall|k: int| 0 <= k < text.len() implies #[trigger] text[k] != '\n' by {
        if text[k] == '\n' {
            lemma_encoded_newline(text, k);
        }
    }
}

/// The output of a data file reads back as the kept lines, provided that no
/// kept line ends in a carriage return. (Such a line is the last of a file
/// that does not end in a newline, or had two carriage returns before its
/// newline.)
pub proof fn lemma_output_reads_back(
    index: Map<Seq<char>, FilterFormatView>,
    bytes: Seq<u8>,
    id_key: Seq<char>,
)
    requires
        forall|k: int|
            0 <= k < kept_lines(index, text_lines(bytes), id_key).len() ==> (#[trigger] kept_lines(
                index,
                text_lines(bytes),
                id_key,
            )[k]).len() > 0 ==> kept_lines(index, text_lines(bytes), id_key)[k].last() != '\r',
    ensures
        text_lines(lines_bytes(kept_lines(index, text_lines(bytes), id_key))) == kept_lines(
            index,
            text_lines(bytes),
            id_key,
        ).map_values(|line: Seq<char>| Some(line)),
{
    let lines = text_lines(bytes);
    let kept = kept_lines(index, lines, id_key);
    let positions = kept_positions(index, identifiers(lines, id_key));
    lemma_kept_lines(index, lines, id_key);
    lemma_kept_positions(index, identifiers(lines, id_key));
    assert forall|k: int| 0 <= k < kept.len() implies fits_a_line(#[trigger] kept[k]) by {
        assert(0 <= positions[k] < lines.len());
        assert(lines[positions[k]] == Some(kept[k]));
        lemma_read_lines_hold_no_newline(bytes, positions[k]);
    }
    lemma_lines_read_back(kept);
}

} // verus!
