//! The wire form of every frame, and what a buffer decodes to: the two
//! mathematical functions that the encoder and the decoder are held to.

use crate::decimal::{int_text, parse_i64_spec};
use crate::error::ErrorKind;
use crate::frame::FrameView;
use crate::map::insert_all;
use crate::scan::{
    crlf, crlf_at, fixed_token, length_header, line_end, ARRAY, BOOLEAN, BULK_STRING, CR, DOUBLE,
    INTEGER, LF, MAPPING, MEMBERS, NULL, SIMPLE_ERROR, SIMPLE_STRING,
};
use vstd::prelude::*;
use vstd::utf8::{decode_utf8, encode_utf8, valid_utf8};

verus! {

/// How deep compound frames may nest in a buffer that is decoded: a frame inside
/// that many arrays, sets and maps is still read, one inside more is refused.
pub const MAX_DEPTH: usize = 32;

/// What reading from the front of a buffer gives: a value and the number of bytes
/// it occupies, or the reason why there is none.
pub type Parsed<T> = Result<(T, int), ErrorKind>;

/// A line: the prefix byte, the body, the terminator.
pub open spec fn line(prefix: u8, body: Seq<u8>) -> Seq<u8> {
    seq![prefix] + body + crlf()
}

/// `_\r\n`
pub open spec fn null_wire() -> Seq<u8> {
    seq![NULL, CR, LF]
}

/// `$-1\r\n`
pub open spec fn null_bulk_wire() -> Seq<u8> {
    seq![BULK_STRING, 45u8, 49u8, CR, LF]
}

/// `*-1\r\n`
pub open spec fn null_array_wire() -> Seq<u8> {
    seq![ARRAY, 45u8, 49u8, CR, LF]
}

/// `#t\r\n` or `#f\r\n`
pub open spec fn boolean_wire(b: bool) -> Seq<u8> {
    if b {
        seq![BOOLEAN, 116u8, CR, LF]
    } else {
        seq![BOOLEAN, 102u8, CR, LF]
    }
}

/// `+text\r\n`, `-text\r\n` or `,text\r\n`, by the prefix.
pub open spec fn text_wire(prefix: u8, text: Seq<char>) -> Seq<u8> {
    line(prefix, encode_utf8(text))
}

/// `:<number>\r\n`
pub open spec fn integer_wire(v: i64) -> Seq<u8> {
    line(INTEGER, int_text(v as int))
}

/// `$<length>\r\n<data>\r\n`. A bulk string without bytes is `$0\r\n\r\n`: it
/// is a value of its own, and not the null bulk string.
pub open spec fn bulk_wire(data: Seq<u8>) -> Seq<u8> {
    line(BULK_STRING, int_text(data.len() as int)) + data + crlf()
}

/// The wire form of a frame.
pub open spec fn frame_wire(v: FrameView) -> Seq<u8>
    decreases v, 0nat,
{
    match v {
        FrameView::SimpleString(t) => text_wire(SIMPLE_STRING, t),
        FrameView::Error(t) => text_wire(SIMPLE_ERROR, t),
        FrameView::Integer(i) => integer_wire(i),
        FrameView::BulkString(b) => bulk_wire(b),
        FrameView::NullBulkString => null_bulk_wire(),
        FrameView::Array(items) => line(ARRAY, int_text(items.len() as int)) + items_wire(
            items,
            items.len(),
        ),
        FrameView::NullArray => null_array_wire(),
        FrameView::Null => null_wire(),
        FrameView::Boolean(b) => boolean_wire(b),
        FrameView::Double(t) => text_wire(DOUBLE, t),
        FrameView::Mapping(entries) => line(MAPPING, int_text(entries.len() as int)) + pairs_wire(
            entries,
            entries.len(),
        ),
        FrameView::Members(items) => line(MEMBERS, int_text(items.len() as int)) + items_wire(
            items,
            items.len(),
        ),
    }
}

/// The wire forms of the first `n` frames of `items`, one after the other.
pub open spec fn items_wire(items: Seq<FrameView>, n: nat) -> Seq<u8>
    decreases items, n,
{
    if n == 0 || n > items.len() {
        Seq::empty()
    } else {
        items_wire(items, (n - 1) as nat) + frame_wire(items[n - 1])
    }
}

/// The wire forms of the first `n` entries of a map: each key as a simple string,
/// then its value.
pub open spec fn pairs_wire(entries: Seq<(Seq<char>, FrameView)>, n: nat) -> Seq<u8>
    decreases entries, n,
{
    if n == 0 || n > entries.len() {
        Seq::empty()
    } else {
        pairs_wire(entries, (n - 1) as nat) + text_wire(SIMPLE_STRING, entries[n - 1].0)
            + frame_wire(entries[n - 1].1)
    }
}

/// A line of text: the body must be UTF-8.
pub open spec fn parse_text(bytes: Seq<u8>, prefix: u8) -> Parsed<Seq<char>> {
    match line_end(bytes, prefix) {
        Err(k) => Err(k),
        Ok(end) => {
            let body = bytes.subrange(1, end);
            if valid_utf8(body) {
                Ok((decode_utf8(body), end + 2))
            } else {
                Err(ErrorKind::Utf8Error)
            }
        },
    }
}

/// An integer frame: the body must be a decimal number of 64 bits.
pub open spec fn parse_integer(bytes: Seq<u8>) -> Parsed<i64> {
    match line_end(bytes, INTEGER) {
        Err(k) => Err(k),
        Ok(end) => match parse_i64_spec(bytes.subrange(1, end)) {
            Some(v) => Ok((v, end + 2)),
            None => Err(ErrorKind::InvalidFrame),
        },
    }
}

/// A bulk string: `None` for the null marker, else the bytes. The data must be
/// there in full, and the terminator after it.
pub open spec fn parse_bulk(bytes: Seq<u8>) -> Parsed<Option<Seq<u8>>> {
    match length_header(bytes, BULK_STRING) {
        Err(k) => Err(k),
        Ok((end, n)) => if n == -1 {
            Ok((None, end + 2))
        } else if bytes.len() < end + 2 + n + 2 {
            Err(ErrorKind::NotComplete)
        } else if !crlf_at(bytes, end + 2 + n) {
            Err(ErrorKind::InvalidFrame)
        } else {
            Ok((Some(bytes.subrange(end + 2, end + 2 + n)), end + 2 + n + 2))
        },
    }
}

/// The null frame.
pub open spec fn parse_null(bytes: Seq<u8>) -> Parsed<()> {
    match fixed_token(bytes, null_wire()) {
        Err(k) => Err(k),
        Ok(_) => Ok(((), 3)),
    }
}

/// The null bulk string, by its literal.
pub open spec fn parse_null_bulk(bytes: Seq<u8>) -> Parsed<()> {
    match fixed_token(bytes, null_bulk_wire()) {
        Err(k) => Err(k),
        Ok(_) => Ok(((), 5)),
    }
}

/// The null array, by its literal.
pub open spec fn parse_null_array(bytes: Seq<u8>) -> Parsed<()> {
    match fixed_token(bytes, null_array_wire()) {
        Err(k) => Err(k),
        Ok(_) => Ok(((), 5)),
    }
}

/// A boolean frame.
pub open spec fn parse_boolean(bytes: Seq<u8>) -> Parsed<bool> {
    match fixed_token(bytes, boolean_wire(true)) {
        Ok(_) => Ok((true, 4)),
        Err(ErrorKind::NotComplete) => Err(ErrorKind::NotComplete),
        Err(_) => match fixed_token(bytes, boolean_wire(false)) {
            Ok(_) => Ok((false, 4)),
            Err(k) => Err(k),
        },
    }
}

/// The text of a frame that can be the key of a map entry: a simple string, a
/// simple error, or a bulk string that is UTF-8.
pub open spec fn key_text(frame: FrameView) -> Option<Seq<char>> {
    match frame {
        FrameView::SimpleString(t) => Some(t),
        FrameView::Error(t) => Some(t),
        FrameView::BulkString(b) => if valid_utf8(b) {
            Some(decode_utf8(b))
        } else {
            None
        },
        _ => None,
    }
}

/// Any frame, chosen by the leading byte. `depth` is how many levels of compound
/// frames may still be entered.
pub open spec fn parse_frame(bytes: Seq<u8>, depth: nat) -> Parsed<FrameView>
    decreases depth, 1nat, 0nat,
{
    if bytes.len() == 0 {
        Err(ErrorKind::NotComplete)
    } else if bytes[0] == SIMPLE_STRING {
        match parse_text(bytes, SIMPLE_STRING) {
            Ok((t, n)) => Ok((FrameView::SimpleString(t), n)),
            Err(k) => Err(k),
        }
    } else if bytes[0] == SIMPLE_ERROR {
        match parse_text(bytes, SIMPLE_ERROR) {
            Ok((t, n)) => Ok((FrameView::Error(t), n)),
            Err(k) => Err(k),
        }
    } else if bytes[0] == INTEGER {
        match parse_integer(bytes) {
            Ok((i, n)) => Ok((FrameView::Integer(i), n)),
            Err(k) => Err(k),
        }
    } else if bytes[0] == BULK_STRING {
        match parse_bulk(bytes) {
            Ok((Some(b), n)) => Ok((FrameView::BulkString(b), n)),
            Ok((None, n)) => Ok((FrameView::NullBulkString, n)),
            Err(k) => Err(k),
        }
    } else if bytes[0] == ARRAY {
        match parse_array(bytes, depth) {
            Ok((Some(items), n)) => Ok((FrameView::Array(items), n)),
            Ok((None, n)) => Ok((FrameView::NullArray, n)),
            Err(k) => Err(k),
        }
    } else if bytes[0] == NULL {
        match parse_null(bytes) {
            Ok((_, n)) => Ok((FrameView::Null, n)),
            Err(k) => Err(k),
        }
    } else if bytes[0] == BOOLEAN {
        match parse_boolean(bytes) {
            Ok((b, n)) => Ok((FrameView::Boolean(b), n)),
            Err(k) => Err(k),
        }
    } else if bytes[0] == DOUBLE {
        match parse_text(bytes, DOUBLE) {
            Ok((t, n)) => Ok((FrameView::Double(t), n)),
            Err(k) => Err(k),
        }
    } else if bytes[0] == MAPPING {
        match parse_map(bytes, depth) {
            Ok((entries, n)) => Ok((FrameView::Mapping(entries), n)),
            Err(k) => Err(k),
        }
    } else if bytes[0] == MEMBERS {
        match parse_set(bytes, depth) {
            Ok((items, n)) => Ok((FrameView::Members(items), n)),
            Err(k) => Err(k),
        }
    } else {
        Err(ErrorKind::InvalidFrameType)
    }
}

/// `count` frames in a row. The first that fails decides the outcome: when it is
/// incomplete, so is the whole.
pub open spec fn parse_items(bytes: Seq<u8>, count: nat, depth: nat) -> Parsed<Seq<FrameView>>
    decreases depth, 2nat, count,
{
    if count == 0 {
        Ok((Seq::empty(), 0))
    } else {
        match parse_items(bytes, (count - 1) as nat, depth) {
            Err(k) => Err(k),
            Ok((items, n)) => match parse_frame(bytes.skip(n), depth) {
                Err(k) => Err(k),
                Ok((item, m)) => Ok((items.push(item), n + m)),
            },
        }
    }
}

/// `count` map entries in a row, in the order of the wire: a key, which must be a
/// frame with text, then any frame as its value.
pub open spec fn parse_pairs(bytes: Seq<u8>, count: nat, depth: nat) -> Parsed<
    Seq<(Seq<char>, FrameView)>,
>
    decreases depth, 2nat, count,
{
    if count == 0 {
        Ok((Seq::empty(), 0))
    } else {
        match parse_pairs(bytes, (count - 1) as nat, depth) {
            Err(k) => Err(k),
            Ok((pairs, n)) => match parse_frame(bytes.skip(n), depth) {
                Err(k) => Err(k),
                Ok((key, m)) => match key_text(key) {
                    None => Err(ErrorKind::InvalidFrameType),
                    Some(text) => match parse_frame(bytes.skip(n + m), depth) {
                        Err(k) => Err(k),
                        Ok((value, l)) => Ok((pairs.push((text, value)), n + m + l)),
                    },
                },
            },
        }
    }
}

/// An array: `None` for the null marker, else the frames. An array that would
/// nest deeper than `depth` allows is `InvalidFrame`.
pub open spec fn parse_array(bytes: Seq<u8>, depth: nat) -> Parsed<Option<Seq<FrameView>>>
    decreases depth, 0nat, 0nat,
{
    match length_header(bytes, ARRAY) {
        Err(k) => Err(k),
        Ok((end, n)) => if n == -1 {
            Ok((None, end + 2))
        } else if depth == 0 {
            Err(ErrorKind::InvalidFrame)
        } else {
            match parse_items(bytes.skip(end + 2), n as nat, (depth - 1) as nat) {
                Err(k) => Err(k),
                Ok((items, m)) => Ok((Some(items), end + 2 + m)),
            }
        },
    }
}

/// A set: like an array, without a null form.
pub open spec fn parse_set(bytes: Seq<u8>, depth: nat) -> Parsed<Seq<FrameView>>
    decreases depth, 0nat, 0nat,
{
    match length_header(bytes, MEMBERS) {
        Err(k) => Err(k),
        Ok((end, n)) => if depth == 0 {
            Err(ErrorKind::InvalidFrame)
        } else {
            match parse_items(bytes.skip(end + 2), n as nat, (depth - 1) as nat) {
                Err(k) => Err(k),
                Ok((items, m)) => Ok((items, end + 2 + m)),
            }
        },
    }
}

/// A map: the entries of the wire, inserted one by one, so that the result is in
/// key order and a key that comes twice keeps its last value.
pub open spec fn parse_map(bytes: Seq<u8>, depth: nat) -> Parsed<Seq<(Seq<char>, FrameView)>>
    decreases depth, 0nat, 0nat,
{
    match length_header(bytes, MAPPING) {
        Err(k) => Err(k),
        Ok((end, n)) => if depth == 0 {
            Err(ErrorKind::InvalidFrame)
        } else {
            match parse_pairs(bytes.skip(end + 2), n as nat, (depth - 1) as nat) {
                Err(k) => Err(k),
                Ok((pairs, m)) => Ok((insert_all(pairs, pairs.len()), end + 2 + m)),
            }
        },
    }
}

/// A length that no buffer can hold is never complete.
pub open spec fn within_usize(n: int) -> Result<int, ErrorKind> {
    if n > usize::MAX {
        Err(ErrorKind::NotComplete)
    } else {
        Ok(n)
    }
}

/// The length of a line that starts with `prefix`.
pub open spec fn expected_line(bytes: Seq<u8>, prefix: u8) -> Result<int, ErrorKind> {
    match line_end(bytes, prefix) {
        Ok(end) => Ok(end + 2),
        Err(k) => Err(k),
    }
}

/// The length that a bulk string announces: header, data and terminator. A data
/// length beyond the length of the whole buffer counts as incomplete.
pub open spec fn expected_bulk(bytes: Seq<u8>) -> Result<int, ErrorKind> {
    match length_header(bytes, BULK_STRING) {
        Err(k) => Err(k),
        Ok((end, n)) => if n == -1 {
            Ok(end + 2)
        } else if n > bytes.len() {
            Err(ErrorKind::NotComplete)
        } else {
            within_usize(end + 2 + n + 2)
        },
    }
}

/// The length that the frame at the front of `bytes` will have once it is
/// complete, as far as its headers show: no body is read, and the result may
/// exceed what the buffer holds.
pub open spec fn expected_frame(bytes: Seq<u8>, depth: nat) -> Result<int, ErrorKind>
    decreases depth, 1nat, 0nat,
{
    if bytes.len() == 0 {
        Err(ErrorKind::NotComplete)
    } else if bytes[0] == SIMPLE_STRING || bytes[0] == SIMPLE_ERROR || bytes[0] == INTEGER
        || bytes[0] == DOUBLE {
        expected_line(bytes, bytes[0])
    } else if bytes[0] == BULK_STRING {
        expected_bulk(bytes)
    } else if bytes[0] == NULL {
        Ok(3)
    } else if bytes[0] == BOOLEAN {
        Ok(4)
    } else if bytes[0] == ARRAY || bytes[0] == MEMBERS {
        expected_compound(bytes, bytes[0], 1, depth)
    } else if bytes[0] == MAPPING {
        expected_compound(bytes, MAPPING, 2, depth)
    } else {
        Err(ErrorKind::InvalidFrameType)
    }
}

/// The length of `count` frames in a row. A frame is looked at only if those
/// before it end inside the buffer.
pub open spec fn expected_items(bytes: Seq<u8>, count: nat, depth: nat) -> Result<int, ErrorKind>
    decreases depth, 2nat, count,
{
    if count == 0 {
        Ok(0)
    } else {
        match expected_items(bytes, (count - 1) as nat, depth) {
            Err(k) => Err(k),
            Ok(n) => if n > bytes.len() {
                Err(ErrorKind::NotComplete)
            } else {
                match expected_frame(bytes.skip(n), depth) {
                    Err(k) => Err(k),
                    Ok(m) => within_usize(n + m),
                }
            },
        }
    }
}

/// The length of a compound frame: the header, and `per_entry` frames for each
/// entry that the header counts.
pub open spec fn expected_compound(
    bytes: Seq<u8>,
    prefix: u8,
    per_entry: nat,
    depth: nat,
) -> Result<int, ErrorKind>
    decreases depth, 0nat, 0nat,
{
    match length_header(bytes, prefix) {
        Err(k) => Err(k),
        Ok((end, n)) => if n == -1 {
            Ok(end + 2)
        } else if depth == 0 {
            Err(ErrorKind::InvalidFrame)
        } else {
            match expected_items(bytes.skip(end + 2), (n * per_entry) as nat, (depth - 1) as nat) {
                Err(k) => Err(k),
                Ok(m) => within_usize(end + 2 + m),
            }
        },
    }
}

/// The wire form of a bulk string as a value of its own type: `None` is the null
/// bulk string.
pub open spec fn bulk_string_wire(v: Option<Seq<u8>>) -> Seq<u8> {
    match v {
        Some(data) => bulk_wire(data),
        None => null_bulk_wire(),
    }
}

/// The wire form of an array as a value of its own type: `None` is the null array.
pub open spec fn array_wire(v: Option<Seq<FrameView>>) -> Seq<u8> {
    match v {
        Some(items) => frame_wire(FrameView::Array(items)),
        None => null_array_wire(),
    }
}

} // verus!
