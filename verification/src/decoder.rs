//! Decoding: from the bytes at the front of a buffer to a frame, or to the reason
//! why there is none yet.

use crate::buffer::{consume, contents, peek};
use crate::decimal::parse_i64;
use crate::error::{utf8_text, ErrorKind, RespError};
use crate::frame::{
    frame_views, BulkString, FrameView, NullBulkString, RespArray, RespDouble, RespFrame, RespNull,
    RespNullArray, RespSet, SimpleError, SimpleString,
};
use crate::map::{insert_all, lemma_insert_all_prefix, RespMap};
use crate::scan::{
    extract_simple_frame_data, match_fixed_token, parse_length, ARRAY, BOOLEAN, BULK_STRING, CR,
    CRLF_LEN, DOUBLE, INTEGER, LF, MAPPING, MEMBERS, NULL, SIMPLE_ERROR, SIMPLE_STRING,
};
use crate::wire::{
    boolean_wire, expected_bulk, expected_compound, expected_frame, expected_items, expected_line,
    key_text, null_array_wire, null_bulk_wire, null_wire, parse_array, parse_boolean, parse_bulk,
    parse_frame, parse_integer, parse_items, parse_map, parse_null, parse_null_array,
    parse_null_bulk, parse_pairs, parse_set, parse_text, Parsed, MAX_DEPTH,
};
use bytes::BytesMut;
use vstd::prelude::*;
use vstd::slice::{slice_subrange, slice_to_vec};

verus! {

/// That a read gave what the bytes decode to: the value with that view and the
/// same count of bytes, or an error of that kind.
pub open spec fn agrees<T: View>(
    r: Result<(T, usize), RespError>,
    parsed: Parsed<T::V>,
    len: nat,
) -> bool {
    match parsed {
        Ok((v, n)) => r matches Ok((x, m)) && x@ == v && m == n && 0 < n <= len,
        Err(k) => r matches Err(e) && e.kind() == k,
    }
}

/// Reads a line of text.
pub fn read_text(buf: &[u8], prefix: u8) -> (r: Result<(String, usize), RespError>)
    ensures
        agrees(r, parse_text(buf@, prefix), buf@.len()),
{
    let end: usize = match extract_simple_frame_data(buf, prefix) {
        Ok(end) => end,
        Err(e) => {
            return Err(e);
        },
    };
    match utf8_text(slice_subrange(buf, 1, end)) {
        Ok(text) => Ok((text.to_owned(), end + CRLF_LEN)),
        Err(e) => Err(RespError::Utf8Error(e)),
    }
}

/// Reads an integer frame.
pub fn read_integer(buf: &[u8]) -> (r: Result<(i64, usize), RespError>)
    ensures
        agrees(r, parse_integer(buf@), buf@.len()),
{
    let end: usize = match extract_simple_frame_data(buf, INTEGER) {
        Ok(end) => end,
        Err(e) => {
            return Err(e);
        },
    };
    match parse_i64(slice_subrange(buf, 1, end)) {
        Some(v) => Ok((v, end + CRLF_LEN)),
        None => Err(RespError::InvalidFrame("not a 64-bit decimal integer".to_owned())),
    }
}

/// Reads a bulk string: `None` for the null marker.
pub fn read_bulk(buf: &[u8]) -> (r: Result<(Option<Vec<u8>>, usize), RespError>)
    ensures
        match parse_bulk(buf@) {
            Ok((v, n)) => r matches Ok((x, m)) && m == n && 0 < n <= buf@.len() && match v {
                Some(data) => x matches Some(d) && d@ == data,
                None => x is None,
            },
            Err(k) => r matches Err(e) && e.kind() == k,
        },
{
    let (end, n) = match parse_length(buf, BULK_STRING) {
        Ok(header) => header,
        Err(e) => {
            return Err(e);
        },
    };
    let start: usize = end + CRLF_LEN;
    if n == -1 {
        return Ok((None, start));
    }
    let len: usize = n as usize;
    let available: usize = buf.len() - start;
    if available < len || available - len < CRLF_LEN {
        return Err(RespError::NotComplete);
    }
    if buf[start + len] != CR || buf[start + len + 1] != LF {
        return Err(RespError::InvalidFrame("bulk string data without terminator".to_owned()));
    }
    let data: Vec<u8> = slice_to_vec(slice_subrange(buf, start, start + len));
    Ok((Some(data), start + len + CRLF_LEN))
}

/// Reads the null frame.
pub fn read_null(buf: &[u8]) -> (r: Result<(RespNull, usize), RespError>)
    ensures
        agrees(r, parse_null(buf@), buf@.len()),
{
    let token: [u8; 3] = [NULL, CR, LF];
    assert(token@ =~= null_wire());
    match match_fixed_token(buf, token.as_slice()) {
        Ok(_) => Ok((RespNull, 3)),
        Err(e) => Err(e),
    }
}

/// Reads the null bulk string.
pub fn read_null_bulk(buf: &[u8]) -> (r: Result<(NullBulkString, usize), RespError>)
    ensures
        agrees(r, parse_null_bulk(buf@), buf@.len()),
{
    // `$-1\r\n`
    let token: [u8; 5] = [BULK_STRING, 45, 49, CR, LF];
    assert(token@ =~= null_bulk_wire());
    match match_fixed_token(buf, token.as_slice()) {
        Ok(_) => Ok((NullBulkString, 5)),
        Err(e) => Err(e),
    }
}

/// Reads the null array.
pub fn read_null_array(buf: &[u8]) -> (r: Result<(RespNullArray, usize), RespError>)
    ensures
        agrees(r, parse_null_array(buf@), buf@.len()),
{
    // `*-1\r\n`
    let token: [u8; 5] = [ARRAY, 45, 49, CR, LF];
    assert(token@ =~= null_array_wire());
    match match_fixed_token(buf, token.as_slice()) {
        Ok(_) => Ok((RespNullArray, 5)),
        Err(e) => Err(e),
    }
}

/// Reads a boolean frame.
pub fn read_boolean(buf: &[u8]) -> (r: Result<(bool, usize), RespError>)
    ensures
        agrees(r, parse_boolean(buf@), buf@.len()),
{
    // `#t\r\n` and `#f\r\n`
    let yes: [u8; 4] = [BOOLEAN, 116, CR, LF];
    let no: [u8; 4] = [BOOLEAN, 102, CR, LF];
    assert(yes@ =~= boolean_wire(true));
    assert(no@ =~= boolean_wire(false));
    match match_fixed_token(buf, yes.as_slice()) {
        Ok(_) => Ok((true, 4)),
        Err(RespError::NotComplete) => Err(RespError::NotComplete),
        Err(_) => match match_fixed_token(buf, no.as_slice()) {
            Ok(_) => Ok((false, 4)),
            Err(e) => Err(e),
        },
    }
}

/// The text of a frame that stands as a key, if it has one.
fn key_of(frame: RespFrame) -> (r: Option<String>)
    ensures
        match key_text(frame@) {
            Some(t) => r matches Some(s) && s@ == t,
            None => r is None,
        },
{
    match frame {
        RespFrame::SimpleString(s) => Some(s.0),
        RespFrame::Error(e) => Some(e.0),
        RespFrame::BulkString(BulkString(Some(data))) => match utf8_text(data.as_slice()) {
            Ok(text) => Some(text.to_owned()),
            Err(_) => None,
        },
        _ => None,
    }
}

/// Once a frame of a sequence fails, the sequence fails in the same way, however
/// many more frames are asked for.
pub proof fn lemma_parse_items_fails(bytes: Seq<u8>, failed: nat, count: nat, depth: nat)
    requires
        parse_items(bytes, failed, depth) is Err,
        failed <= count,
    ensures
        parse_items(bytes, count, depth) == parse_items(bytes, failed, depth),
    decreases count,
{
    if failed < count {
        lemma_parse_items_fails(bytes, failed, (count - 1) as nat, depth);
    }
}

/// The same, for the entries of a map.
pub proof fn lemma_parse_pairs_fails(bytes: Seq<u8>, failed: nat, count: nat, depth: nat)
    requires
        parse_pairs(bytes, failed, depth) is Err,
        failed <= count,
    ensures
        parse_pairs(bytes, count, depth) == parse_pairs(bytes, failed, depth),
    decreases count,
{
    if failed < count {
        lemma_parse_pairs_fails(bytes, failed, (count - 1) as nat, depth);
    }
}

/// Reads any frame, entering at most `depth` levels of compound frames.
pub fn read_frame(buf: &[u8], depth: usize) -> (r: Result<(RespFrame, usize), RespError>)
    ensures
        agrees(r, parse_frame(buf@, depth as nat), buf@.len()),
    decreases depth, 1nat, 0nat,
{
    if buf.len() == 0 {
        return Err(RespError::NotComplete);
    }
    let first: u8 = buf[0];
    if first == SIMPLE_STRING {
        match read_text(buf, SIMPLE_STRING) {
            Ok((s, n)) => Ok((RespFrame::SimpleString(SimpleString(s)), n)),
            Err(e) => Err(e),
        }
    } else if first == SIMPLE_ERROR {
        match read_text(buf, SIMPLE_ERROR) {
            Ok((s, n)) => Ok((RespFrame::Error(SimpleError(s)), n)),
            Err(e) => Err(e),
        }
    } else if first == INTEGER {
        match read_integer(buf) {
            Ok((i, n)) => Ok((RespFrame::Integer(i), n)),
            Err(e) => Err(e),
        }
    } else if first == BULK_STRING {
        match read_bulk(buf) {
            Ok((Some(data), n)) => Ok((RespFrame::BulkString(BulkString(Some(data))), n)),
            Ok((None, n)) => Ok((RespFrame::NullBulkString(NullBulkString), n)),
            Err(e) => Err(e),
        }
    } else if first == ARRAY {
        match read_array(buf, depth) {
            Ok((Some(items), n)) => Ok((RespFrame::Array(RespArray(Some(items))), n)),
            Ok((None, n)) => Ok((RespFrame::NullArray(RespNullArray), n)),
            Err(e) => Err(e),
        }
    } else if first == NULL {
        match read_null(buf) {
            Ok((_, n)) => Ok((RespFrame::Null(RespNull), n)),
            Err(e) => Err(e),
        }
    } else if first == BOOLEAN {
        match read_boolean(buf) {
            Ok((b, n)) => Ok((RespFrame::Boolean(b), n)),
            Err(e) => Err(e),
        }
    } else if first == DOUBLE {
        match read_text(buf, DOUBLE) {
            Ok((s, n)) => Ok((RespFrame::Double(RespDouble(s)), n)),
            Err(e) => Err(e),
        }
    } else if first == MAPPING {
        match read_map(buf, depth) {
            Ok((m, n)) => Ok((RespFrame::Mapping(m), n)),
            Err(e) => Err(e),
        }
    } else if first == MEMBERS {
        match read_set(buf, depth) {
            Ok((items, n)) => Ok((RespFrame::Members(RespSet(items)), n)),
            Err(e) => Err(e),
        }
    } else {
        Err(RespError::InvalidFrameType("unknown leading byte".to_owned()))
    }
}

/// Reads `count` frames in a row. Nothing is kept of a sequence that is not there
/// in full.
fn read_items(buf: &[u8], count: usize, depth: usize) -> (r: Result<
    (Vec<RespFrame>, usize),
    RespError,
>)
    ensures
        match parse_items(buf@, count as nat, depth as nat) {
            Ok((v, n)) => r matches Ok((x, m)) && frame_views(x@) == v && m == n && 0 <= n
                <= buf@.len(),
            Err(k) => r matches Err(e) && e.kind() == k,
        },
    decreases depth, 2nat, count,
{
    let mut items: Vec<RespFrame> = Vec::new();
    let mut pos: usize = 0;
    let mut i: usize = 0;
    assert(frame_views(items@) =~= Seq::<FrameView>::empty());
    while i < count
        invariant
            i <= count,
            pos <= buf@.len(),
            parse_items(buf@, i as nat, depth as nat) == Ok::<(Seq<FrameView>, int), ErrorKind>(
                (frame_views(items@), pos as int),
            ),
        decreases count - i,
    {
        let rest: &[u8] = slice_subrange(buf, pos, buf.len());
        match read_frame(rest, depth) {
            Ok((frame, n)) => {
                let ghost before = frame_views(items@);
                items.push(frame);
                assert(frame_views(items@) =~= before.push(frame@));
                pos = pos + n;
            },
            Err(e) => {
                proof {
                    lemma_parse_items_fails(buf@, (i + 1) as nat, count as nat, depth as nat);
                }
                return Err(e);
            },
        }
        i += 1;
    }
    Ok((items, pos))
}

/// Reads `count` map entries in a row into a map.
fn read_pairs(buf: &[u8], count: usize, depth: usize) -> (r: Result<(RespMap, usize), RespError>)
    ensures
        match parse_pairs(buf@, count as nat, depth as nat) {
            Ok((v, n)) => r matches Ok((x, m)) && x@ == insert_all(v, v.len()) && m == n && 0 <= n
                <= buf@.len(),
            Err(k) => r matches Err(e) && e.kind() == k,
        },
    decreases depth, 2nat, count,
{
    let mut map: RespMap = RespMap::new();
    let ghost mut pairs: Seq<(Seq<char>, FrameView)> = Seq::empty();
    let mut pos: usize = 0;
    let mut i: usize = 0;
    while i < count
        invariant
            i <= count,
            pos <= buf@.len(),
            pairs.len() == i,
            parse_pairs(buf@, i as nat, depth as nat) == Ok::<
                (Seq<(Seq<char>, FrameView)>, int),
                ErrorKind,
            >((pairs, pos as int)),
            map@ == insert_all(pairs, i as nat),
        decreases count - i,
    {
        let rest: &[u8] = slice_subrange(buf, pos, buf.len());
        let (key_frame, n) = match read_frame(rest, depth) {
            Ok(read) => read,
            Err(e) => {
                proof {
                    lemma_parse_pairs_fails(buf@, (i + 1) as nat, count as nat, depth as nat);
                }
                return Err(e);
            },
        };
        let key: String = match key_of(key_frame) {
            Some(key) => key,
            None => {
                proof {
                    lemma_parse_pairs_fails(buf@, (i + 1) as nat, count as nat, depth as nat);
                }
                return Err(RespError::InvalidFrameType("map key without text".to_owned()));
            },
        };
        let after_key: usize = pos + n;
        let rest: &[u8] = slice_subrange(buf, after_key, buf.len());
        let (value, m) = match read_frame(rest, depth) {
            Ok(read) => read,
            Err(e) => {
                proof {
                    lemma_parse_pairs_fails(buf@, (i + 1) as nat, count as nat, depth as nat);
                }
                return Err(e);
            },
        };
        proof {
            let entry = (key@, value@);
            lemma_insert_all_prefix(pairs, seq![entry], i as nat);
            assert(pairs + seq![entry] =~= pairs.push(entry));
            pairs = pairs.push(entry);
        }
        map.insert(key, value);
        pos = after_key + m;
        i += 1;
    }
    Ok((map, pos))
}

/// Reads an array: `None` for the null marker.
pub fn read_array(buf: &[u8], depth: usize) -> (r: Result<
    (Option<Vec<RespFrame>>, usize),
    RespError,
>)
    ensures
        match parse_array(buf@, depth as nat) {
            Ok((v, n)) => r matches Ok((x, m)) && m == n && 0 < n <= buf@.len() && match v {
                Some(items) => x matches Some(stored) && frame_views(stored@) == items,
                None => x is None,
            },
            Err(k) => r matches Err(e) && e.kind() == k,
        },
    decreases depth, 0nat, 0nat,
{
    let (end, n) = match parse_length(buf, ARRAY) {
        Ok(header) => header,
        Err(e) => {
            return Err(e);
        },
    };
    let start: usize = end + CRLF_LEN;
    if n == -1 {
        return Ok((None, start));
    }
    if depth == 0 {
        return Err(RespError::InvalidFrame("frames nested too deeply".to_owned()));
    }
    match read_items(slice_subrange(buf, start, buf.len()), n as usize, depth - 1) {
        Ok((items, m)) => Ok((Some(items), start + m)),
        Err(e) => Err(e),
    }
}

/// Reads a set.
pub fn read_set(buf: &[u8], depth: usize) -> (r: Result<(Vec<RespFrame>, usize), RespError>)
    ensures
        match parse_set(buf@, depth as nat) {
            Ok((v, n)) => r matches Ok((x, m)) && frame_views(x@) == v && m == n && 0 < n
                <= buf@.len(),
            Err(k) => r matches Err(e) && e.kind() == k,
        },
    decreases depth, 0nat, 0nat,
{
    let (end, n) = match parse_length(buf, MEMBERS) {
        Ok(header) => header,
        Err(e) => {
            return Err(e);
        },
    };
    let start: usize = end + CRLF_LEN;
    if depth == 0 {
        return Err(RespError::InvalidFrame("frames nested too deeply".to_owned()));
    }
    match read_items(slice_subrange(buf, start, buf.len()), n as usize, depth - 1) {
        Ok((items, m)) => Ok((items, start + m)),
        Err(e) => Err(e),
    }
}

/// Reads a map.
pub fn read_map(buf: &[u8], depth: usize) -> (r: Result<(RespMap, usize), RespError>)
    ensures
        agrees(r, parse_map(buf@, depth as nat), buf@.len()),
    decreases depth, 0nat, 0nat,
{
    let (end, n) = match parse_length(buf, MAPPING) {
        Ok(header) => header,
        Err(e) => {
            return Err(e);
        },
    };
    let start: usize = end + CRLF_LEN;
    if depth == 0 {
        return Err(RespError::InvalidFrame("frames nested too deeply".to_owned()));
    }
    match read_pairs(slice_subrange(buf, start, buf.len()), n as usize, depth - 1) {
        Ok((map, m)) => Ok((map, start + m)),
        Err(e) => Err(e),
    }
}

/// That a length is the one the headers announce, or an error of that kind.
pub open spec fn length_agrees(
    r: Result<usize, RespError>,
    expected: Result<int, ErrorKind>,
) -> bool {
    match expected {
        Ok(n) => r == Ok::<usize, RespError>(n as usize) && 0 <= n <= usize::MAX,
        Err(k) => r matches Err(e) && e.kind() == k,
    }
}

/// The length of a line that starts with `prefix`.
pub fn expect_line(buf: &[u8], prefix: u8) -> (r: Result<usize, RespError>)
    ensures
        length_agrees(r, expected_line(buf@, prefix)),
{
    match extract_simple_frame_data(buf, prefix) {
        Ok(end) => Ok(end + CRLF_LEN),
        Err(e) => Err(e),
    }
}

/// The length that a bulk string announces.
pub fn expect_bulk(buf: &[u8]) -> (r: Result<usize, RespError>)
    ensures
        length_agrees(r, expected_bulk(buf@)),
{
    let (end, n) = match parse_length(buf, BULK_STRING) {
        Ok(header) => header,
        Err(e) => {
            return Err(e);
        },
    };
    if n == -1 {
        return Ok(end + CRLF_LEN);
    }
    let len: usize = n as usize;
    if len > buf.len() {
        return Err(RespError::NotComplete);
    }
    match (end + CRLF_LEN).checked_add(len) {
        Some(sum) => match sum.checked_add(CRLF_LEN) {
            Some(total) => Ok(total),
            None => Err(RespError::NotComplete),
        },
        None => Err(RespError::NotComplete),
    }
}

/// Once a frame of a sequence has no length, the sequence has none, however many
/// more frames are asked for.
pub proof fn lemma_expected_items_fails(bytes: Seq<u8>, failed: nat, count: nat, depth: nat)
    requires
        expected_items(bytes, failed, depth) is Err,
        failed <= count,
    ensures
        expected_items(bytes, count, depth) == expected_items(bytes, failed, depth),
    decreases count,
{
    if failed < count {
        lemma_expected_items_fails(bytes, failed, (count - 1) as nat, depth);
    }
}

/// The length that the frame at the front of the buffer announces.
pub fn expect_frame(buf: &[u8], depth: usize) -> (r: Result<usize, RespError>)
    ensures
        length_agrees(r, expected_frame(buf@, depth as nat)),
    decreases depth, 1nat, 0nat,
{
    if buf.len() == 0 {
        return Err(RespError::NotComplete);
    }
    let first: u8 = buf[0];
    if first == SIMPLE_STRING || first == SIMPLE_ERROR || first == INTEGER || first == DOUBLE {
        expect_line(buf, first)
    } else if first == BULK_STRING {
        expect_bulk(buf)
    } else if first == NULL {
        Ok(3)
    } else if first == BOOLEAN {
        Ok(4)
    } else if first == ARRAY || first == MEMBERS {
        expect_compound(buf, first, 1, depth)
    } else if first == MAPPING {
        expect_compound(buf, MAPPING, 2, depth)
    } else {
        Err(RespError::InvalidFrameType("unknown leading byte".to_owned()))
    }
}

/// The length of `count` frames in a row.
fn expect_items(buf: &[u8], count: usize, depth: usize) -> (r: Result<usize, RespError>)
    ensures
        length_agrees(r, expected_items(buf@, count as nat, depth as nat)),
    decreases depth, 2nat, count,
{
    let mut pos: usize = 0;
    let mut i: usize = 0;
    while i < count
        invariant
            i <= count,
            expected_items(buf@, i as nat, depth as nat) == Ok::<int, ErrorKind>(pos as int),
        decreases count - i,
    {
        proof {
            if expected_items(buf@, (i + 1) as nat, depth as nat) is Err {
                lemma_expected_items_fails(buf@, (i + 1) as nat, count as nat, depth as nat);
            }
        }
        if pos > buf.len() {
            return Err(RespError::NotComplete);
        }
        let n: usize = match expect_frame(slice_subrange(buf, pos, buf.len()), depth) {
            Ok(n) => n,
            Err(e) => {
                return Err(e);
            },
        };
        pos = match pos.checked_add(n) {
            Some(sum) => sum,
            None => {
                return Err(RespError::NotComplete);
            },
        };
        i += 1;
    }
    Ok(pos)
}

/// The length of a compound frame with `per_entry` frames in each entry.
fn expect_compound(buf: &[u8], prefix: u8, per_entry: usize, depth: usize) -> (r: Result<
    usize,
    RespError,
>)
    requires
        1 <= per_entry <= 2,
    ensures
        length_agrees(r, expected_compound(buf@, prefix, per_entry as nat, depth as nat)),
    decreases depth, 0nat, 0nat,
{
    let (end, n) = match parse_length(buf, prefix) {
        Ok(header) => header,
        Err(e) => {
            return Err(e);
        },
    };
    let start: usize = end + CRLF_LEN;
    if n == -1 {
        return Ok(start);
    }
    if depth == 0 {
        return Err(RespError::InvalidFrame("frames nested too deeply".to_owned()));
    }
    let entries: usize = n as usize;
    let count: usize = if per_entry == 1 {
        entries
    } else {
        entries + entries
    };
    match expect_items(slice_subrange(buf, start, buf.len()), count, depth - 1) {
        Ok(m) => match start.checked_add(m) {
            Some(total) => Ok(total),
            None => Err(RespError::NotComplete),
        },
        Err(e) => Err(e),
    }
}

/// That decoding gave what the buffer's bytes decode to, and took exactly those
/// bytes off its front; or gave an error of that kind and left the buffer as it
/// was.
pub open spec fn decode_agrees<T: View>(
    r: Result<T, RespError>,
    parsed: Parsed<T::V>,
    before: Seq<u8>,
    after: Seq<u8>,
) -> bool {
    match parsed {
        Ok((v, n)) => r matches Ok(x) && x@ == v && 0 < n <= before.len() && after == before.skip(
            n,
        ),
        Err(k) => r matches Err(e) && e.kind() == k && after == before,
    }
}

/// A value that can be read from the front of a buffer.
pub trait RespDecoder: Sized + View {
    /// The leading byte of the wire form, as text.
    const PREFIX: &'static str;

    /// What the bytes at the front of a buffer decode to: the value and the
    /// number of bytes that it occupies, or why there is none.
    spec fn parse(bytes: Seq<u8>) -> Parsed<Self::V>;

    /// The length that the headers at the front of a buffer announce.
    spec fn expected(bytes: Seq<u8>) -> Result<int, ErrorKind>;

    /// Reads one value and takes its bytes off the buffer. On any error, and so
    /// whenever the value is not there in full, the buffer stays as it was.
    fn decode(buf: &mut BytesMut) -> (r: Result<Self, RespError>)
        ensures
            decode_agrees(
                r,
                Self::parse(contents(*old(buf))),
                contents(*old(buf)),
                contents(*final(buf)),
            ),
    ;

    /// How many bytes the value at the front of `buf` occupies once it is there
    /// in full, as far as its headers show.
    fn expect_length(buf: &[u8]) -> (r: Result<usize, RespError>)
        ensures
            length_agrees(r, Self::expected(buf@)),
    ;
}

impl RespDecoder for RespFrame {
    const PREFIX: &'static str = "";

    open spec fn parse(bytes: Seq<u8>) -> Parsed<FrameView> {
        parse_frame(bytes, MAX_DEPTH as nat)
    }

    open spec fn expected(bytes: Seq<u8>) -> Result<int, ErrorKind> {
        expected_frame(bytes, MAX_DEPTH as nat)
    }

    fn decode(buf: &mut BytesMut) -> (r: Result<Self, RespError>)
        ensures
            decode_agrees(
                r,
                parse_frame(contents(*old(buf)), MAX_DEPTH as nat),
                contents(*old(buf)),
                contents(*final(buf)),
            ),
    {
        match read_frame(peek(buf), MAX_DEPTH) {
            Ok((frame, n)) => {
                consume(buf, n);
                Ok(frame)
            },
            Err(e) => Err(e),
        }
    }

    fn expect_length(buf: &[u8]) -> (r: Result<usize, RespError>)
        ensures
            length_agrees(r, expected_frame(buf@, MAX_DEPTH as nat)),
    {
        expect_frame(buf, MAX_DEPTH)
    }
}

impl RespDecoder for SimpleString {
    const PREFIX: &'static str = "+";

    open spec fn parse(bytes: Seq<u8>) -> Parsed<Seq<char>> {
        parse_text(bytes, SIMPLE_STRING)
    }

    open spec fn expected(bytes: Seq<u8>) -> Result<int, ErrorKind> {
        expected_line(bytes, SIMPLE_STRING)
    }

    fn decode(buf: &mut BytesMut) -> (r: Result<Self, RespError>)
        ensures
            decode_agrees(
                r,
                parse_text(contents(*old(buf)), SIMPLE_STRING),
                contents(*old(buf)),
                contents(*final(buf)),
            ),
    {
        match read_text(peek(buf), SIMPLE_STRING) {
            Ok((text, n)) => {
                consume(buf, n);
                Ok(SimpleString(text))
            },
            Err(e) => Err(e),
        }
    }

    fn expect_length(buf: &[u8]) -> (r: Result<usize, RespError>)
        ensures
            length_agrees(r, expected_line(buf@, SIMPLE_STRING)),
    {
        expect_line(buf, SIMPLE_STRING)
    }
}

impl RespDecoder for SimpleError {
    const PREFIX: &'static str = "-";

    open spec fn parse(bytes: Seq<u8>) -> Parsed<Seq<char>> {
        parse_text(bytes, SIMPLE_ERROR)
    }

    open spec fn expected(bytes: Seq<u8>) -> Result<int, ErrorKind> {
        expected_line(bytes, SIMPLE_ERROR)
    }

    fn decode(buf: &mut BytesMut) -> (r: Result<Self, RespError>)
        ensures
            decode_agrees(
                r,
                parse_text(contents(*old(buf)), SIMPLE_ERROR),
                contents(*old(buf)),
                contents(*final(buf)),
            ),
    {
        match read_text(peek(buf), SIMPLE_ERROR) {
            Ok((text, n)) => {
                consume(buf, n);
                Ok(SimpleError(text))
            },
            Err(e) => Err(e),
        }
    }

    fn expect_length(buf: &[u8]) -> (r: Result<usize, RespError>)
        ensures
            length_agrees(r, expected_line(buf@, SIMPLE_ERROR)),
    {
        expect_line(buf, SIMPLE_ERROR)
    }
}

impl RespDecoder for RespDouble {
    const PREFIX: &'static str = ",";

    open spec fn parse(bytes: Seq<u8>) -> Parsed<Seq<char>> {
        parse_text(bytes, DOUBLE)
    }

    open spec fn expected(bytes: Seq<u8>) -> Result<int, ErrorKind> {
        expected_line(bytes, DOUBLE)
    }

    fn decode(buf: &mut BytesMut) -> (r: Result<Self, RespError>)
        ensures
            decode_agrees(
                r,
                parse_text(contents(*old(buf)), DOUBLE),
                contents(*old(buf)),
                contents(*final(buf)),
            ),
    {
        match read_text(peek(buf), DOUBLE) {
            Ok((text, n)) => {
                consume(buf, n);
                Ok(RespDouble(text))
            },
            Err(e) => Err(e),
        }
    }

    fn expect_length(buf: &[u8]) -> (r: Result<usize, RespError>)
        ensures
            length_agrees(r, expected_line(buf@, DOUBLE)),
    {
        expect_line(buf, DOUBLE)
    }
}

impl RespDecoder for i64 {
    const PREFIX: &'static str = ":";

    open spec fn parse(bytes: Seq<u8>) -> Parsed<i64> {
        parse_integer(bytes)
    }

    open spec fn expected(bytes: Seq<u8>) -> Result<int, ErrorKind> {
        expected_line(bytes, INTEGER)
    }

    fn decode(buf: &mut BytesMut) -> (r: Result<Self, RespError>)
        ensures
            decode_agrees(
                r,
                parse_integer(contents(*old(buf))),
                contents(*old(buf)),
                contents(*final(buf)),
            ),
    {
        match read_integer(peek(buf)) {
            Ok((value, n)) => {
                consume(buf, n);
                Ok(value)
            },
            Err(e) => Err(e),
        }
    }

    fn expect_length(buf: &[u8]) -> (r: Result<usize, RespError>)
        ensures
            length_agrees(r, expected_line(buf@, INTEGER)),
    {
        expect_line(buf, INTEGER)
    }
}

impl RespDecoder for bool {
    const PREFIX: &'static str = "#";

    open spec fn parse(bytes: Seq<u8>) -> Parsed<bool> {
        parse_boolean(bytes)
    }

    open spec fn expected(bytes: Seq<u8>) -> Result<int, ErrorKind> {
        Ok(4)
    }

    fn decode(buf: &mut BytesMut) -> (r: Result<Self, RespError>)
        ensures
            decode_agrees(
                r,
                parse_boolean(contents(*old(buf))),
                contents(*old(buf)),
                contents(*final(buf)),
            ),
    {
        match read_boolean(peek(buf)) {
            Ok((value, n)) => {
                consume(buf, n);
                Ok(value)
            },
            Err(e) => Err(e),
        }
    }

    fn expect_length(buf: &[u8]) -> (r: Result<usize, RespError>)
        ensures
            length_agrees(r, Ok::<int, ErrorKind>(4)),
    {
        Ok(4)
    }
}

impl RespDecoder for RespNull {
    const PREFIX: &'static str = "_";

    open spec fn parse(bytes: Seq<u8>) -> Parsed<()> {
        parse_null(bytes)
    }

    open spec fn expected(bytes: Seq<u8>) -> Result<int, ErrorKind> {
        Ok(3)
    }

    fn decode(buf: &mut BytesMut) -> (r: Result<Self, RespError>)
        ensures
            decode_agrees(
                r,
                parse_null(contents(*old(buf))),
                contents(*old(buf)),
                contents(*final(buf)),
            ),
    {
        match read_null(peek(buf)) {
            Ok((value, n)) => {
                consume(buf, n);
                Ok(value)
            },
            Err(e) => Err(e),
        }
    }

    fn expect_length(buf: &[u8]) -> (r: Result<usize, RespError>)
        ensures
            length_agrees(r, Ok::<int, ErrorKind>(3)),
    {
        Ok(3)
    }
}

impl RespDecoder for NullBulkString {
    const PREFIX: &'static str = "$";

    open spec fn parse(bytes: Seq<u8>) -> Parsed<()> {
        parse_null_bulk(bytes)
    }

    open spec fn expected(bytes: Seq<u8>) -> Result<int, ErrorKind> {
        Ok(5)
    }

    fn decode(buf: &mut BytesMut) -> (r: Result<Self, RespError>)
        ensures
            decode_agrees(
                r,
                parse_null_bulk(contents(*old(buf))),
                contents(*old(buf)),
                contents(*final(buf)),
            ),
    {
        match read_null_bulk(peek(buf)) {
            Ok((value, n)) => {
                consume(buf, n);
                Ok(value)
            },
            Err(e) => Err(e),
        }
    }

    fn expect_length(buf: &[u8]) -> (r: Result<usize, RespError>)
        ensures
            length_agrees(r, Ok::<int, ErrorKind>(5)),
    {
        Ok(5)
    }
}

impl RespDecoder for RespNullArray {
    const PREFIX: &'static str = "*";

    open spec fn parse(bytes: Seq<u8>) -> Parsed<()> {
        parse_null_array(bytes)
    }

    open spec fn expected(bytes: Seq<u8>) -> Result<int, ErrorKind> {
        Ok(5)
    }

    fn decode(buf: &mut BytesMut) -> (r: Result<Self, RespError>)
        ensures
            decode_agrees(
                r,
                parse_null_array(contents(*old(buf))),
                contents(*old(buf)),
                contents(*final(buf)),
            ),
    {
        match read_null_array(peek(buf)) {
            Ok((value, n)) => {
                consume(buf, n);
                Ok(value)
            },
            Err(e) => Err(e),
        }
    }

    fn expect_length(buf: &[u8]) -> (r: Result<usize, RespError>)
        ensures
            length_agrees(r, Ok::<int, ErrorKind>(5)),
    {
        Ok(5)
    }
}

impl RespDecoder for BulkString {
    const PREFIX: &'static str = "$";

    open spec fn parse(bytes: Seq<u8>) -> Parsed<Option<Seq<u8>>> {
        parse_bulk(bytes)
    }

    open spec fn expected(bytes: Seq<u8>) -> Result<int, ErrorKind> {
        expected_bulk(bytes)
    }

    fn decode(buf: &mut BytesMut) -> (r: Result<Self, RespError>)
        ensures
            decode_agrees(
                r,
                parse_bulk(contents(*old(buf))),
                contents(*old(buf)),
                contents(*final(buf)),
            ),
    {
        match read_bulk(peek(buf)) {
            Ok((data, n)) => {
                consume(buf, n);
                Ok(BulkString(data))
            },
            Err(e) => Err(e),
        }
    }

    fn expect_length(buf: &[u8]) -> (r: Result<usize, RespError>)
        ensures
            length_agrees(r, expected_bulk(buf@)),
    {
        expect_bulk(buf)
    }
}

impl RespDecoder for RespArray {
    const PREFIX: &'static str = "*";

    open spec fn parse(bytes: Seq<u8>) -> Parsed<Option<Seq<FrameView>>> {
        parse_array(bytes, MAX_DEPTH as nat)
    }

    open spec fn expected(bytes: Seq<u8>) -> Result<int, ErrorKind> {
        expected_compound(bytes, ARRAY, 1, MAX_DEPTH as nat)
    }

    fn decode(buf: &mut BytesMut) -> (r: Result<Self, RespError>)
        ensures
            decode_agrees(
                r,
                parse_array(contents(*old(buf)), MAX_DEPTH as nat),
                contents(*old(buf)),
                contents(*final(buf)),
            ),
    {
        match read_array(peek(buf), MAX_DEPTH) {
            Ok((items, n)) => {
                consume(buf, n);
                Ok(RespArray(items))
            },
            Err(e) => Err(e),
        }
    }

    fn expect_length(buf: &[u8]) -> (r: Result<usize, RespError>)
        ensures
            length_agrees(r, expected_compound(buf@, ARRAY, 1, MAX_DEPTH as nat)),
    {
        expect_compound(buf, ARRAY, 1, MAX_DEPTH)
    }
}

impl RespDecoder for RespSet {
    const PREFIX: &'static str = "~";

    open spec fn parse(bytes: Seq<u8>) -> Parsed<Seq<FrameView>> {
        parse_set(bytes, MAX_DEPTH as nat)
    }

    open spec fn expected(bytes: Seq<u8>) -> Result<int, ErrorKind> {
        expected_compound(bytes, MEMBERS, 1, MAX_DEPTH as nat)
    }

    fn decode(buf: &mut BytesMut) -> (r: Result<Self, RespError>)
        ensures
            decode_agrees(
                r,
                parse_set(contents(*old(buf)), MAX_DEPTH as nat),
                contents(*old(buf)),
                contents(*final(buf)),
            ),
    {
        match read_set(peek(buf), MAX_DEPTH) {
            Ok((items, n)) => {
                consume(buf, n);
                Ok(RespSet(items))
            },
            Err(e) => Err(e),
        }
    }

    fn expect_length(buf: &[u8]) -> (r: Result<usize, RespError>)
        ensures
            length_agrees(r, expected_compound(buf@, MEMBERS, 1, MAX_DEPTH as nat)),
    {
        expect_compound(buf, MEMBERS, 1, MAX_DEPTH)
    }
}

impl RespDecoder for RespMap {
    const PREFIX: &'static str = "%";

    open spec fn parse(bytes: Seq<u8>) -> Parsed<Seq<(Seq<char>, FrameView)>> {
        parse_map(bytes, MAX_DEPTH as nat)
    }

    open spec fn expected(bytes: Seq<u8>) -> Result<int, ErrorKind> {
        expected_compound(bytes, MAPPING, 2, MAX_DEPTH as nat)
    }

    fn decode(buf: &mut BytesMut) -> (r: Result<Self, RespError>)
        ensures
            decode_agrees(
                r,
                parse_map(contents(*old(buf)), MAX_DEPTH as nat),
                contents(*old(buf)),
                contents(*final(buf)),
            ),
    {
        match read_map(peek(buf), MAX_DEPTH) {
            Ok((map, n)) => {
                consume(buf, n);
                Ok(map)
            },
            Err(e) => Err(e),
        }
    }

    fn expect_length(buf: &[u8]) -> (r: Result<usize, RespError>)
        ensures
            length_agrees(r, expected_compound(buf@, MAPPING, 2, MAX_DEPTH as nat)),
    {
        expect_compound(buf, MAPPING, 2, MAX_DEPTH)
    }
}

} // verus!
