//! Scanning for the terminator, and the three shapes every frame starts with: a
//! terminated line, a length header, a fixed literal.

use crate::decimal::{parse_i64, parse_int};
use crate::error::{ErrorKind, RespError};
use vstd::prelude::*;
use vstd::slice::slice_subrange;

verus! {

/// Carriage return, the first byte of the terminator.
pub const CR: u8 = 13;

/// Line feed, the second byte of the terminator.
pub const LF: u8 = 10;

/// The length of the terminator.
pub const CRLF_LEN: usize = 2;

/// `+`, the leading byte of a simple string.
pub const SIMPLE_STRING: u8 = 43;

/// `-`, the leading byte of a simple error.
pub const SIMPLE_ERROR: u8 = 45;

/// `:`, the leading byte of an integer.
pub const INTEGER: u8 = 58;

/// `$`, the leading byte of a bulk string.
pub const BULK_STRING: u8 = 36;

/// `*`, the leading byte of an array.
pub const ARRAY: u8 = 42;

/// `_`, the leading byte of the null frame.
pub const NULL: u8 = 95;

/// `#`, the leading byte of a boolean.
pub const BOOLEAN: u8 = 35;

/// `,`, the leading byte of a double.
pub const DOUBLE: u8 = 44;

/// `%`, the leading byte of a map.
pub const MAPPING: u8 = 37;

/// `~`, the leading byte of a set.
pub const MEMBERS: u8 = 126;

/// The terminator.
pub open spec fn crlf() -> Seq<u8> {
    seq![CR, LF]
}

/// Whether a terminator starts at index `i`.
pub open spec fn crlf_at(bytes: Seq<u8>, i: int) -> bool {
    0 <= i && i + 1 < bytes.len() && bytes[i] == CR && bytes[i + 1] == LF
}

/// Where the first terminator at or after `start` begins, if there is one.
pub open spec fn first_crlf(bytes: Seq<u8>, start: int) -> Option<int>
    decreases bytes.len() - start,
{
    if start < 0 || start + 1 >= bytes.len() {
        None
    } else if crlf_at(bytes, start) {
        Some(start)
    } else {
        first_crlf(bytes, start + 1)
    }
}

/// `first_crlf` finds a terminator exactly when one is there, and then the
/// earliest.
pub proof fn lemma_first_crlf(bytes: Seq<u8>, start: int)
    requires
        0 <= start,
    ensures
        match first_crlf(bytes, start) {
            Some(i) => start <= i && crlf_at(bytes, i) && forall|j: int|
                start <= j < i ==> !crlf_at(bytes, j),
            None => forall|j: int| start <= j ==> !crlf_at(bytes, j),
        },
    decreases bytes.len() - start,
{
    if start + 1 >= bytes.len() {
    } else if crlf_at(bytes, start) {
    } else {
        lemma_first_crlf(bytes, start + 1);
    }
}

/// A terminator with none before it is the first.
pub proof fn lemma_first_crlf_is(bytes: Seq<u8>, start: int, i: int)
    requires
        0 <= start <= i,
        crlf_at(bytes, i),
        forall|j: int| start <= j < i ==> !crlf_at(bytes, j),
    ensures
        first_crlf(bytes, start) == Some(i),
    decreases i - start,
{
    if start < i {
        lemma_first_crlf_is(bytes, start + 1, i);
    }
}

/// Bytes without a terminator have no first terminator.
pub proof fn lemma_first_crlf_none(bytes: Seq<u8>, start: int)
    requires
        0 <= start,
        forall|j: int| start <= j ==> !crlf_at(bytes, j),
    ensures
        first_crlf(bytes, start) is None,
{
    lemma_first_crlf(bytes, start);
}

/// Looks for the terminator from `start` on. `None` says that it is not among the
/// bytes seen so far; it may still arrive.
pub fn find_crlf(buf: &[u8], start: usize) -> (r: Option<usize>)
    ensures
        match first_crlf(buf@, start as int) {
            Some(i) => r == Some(i as usize) && i + 1 < buf@.len() <= usize::MAX,
            None => r is None,
        },
{
    let n: usize = buf.len();
    let mut i: usize = start;
    while i < n && i + 1 < n
        invariant
            start <= i,
            n == buf@.len(),
            first_crlf(buf@, start as int) == first_crlf(buf@, i as int),
        decreases n - i,
    {
        if buf[i] == CR && buf[i + 1] == LF {
            return Some(i);
        }
        i += 1;
    }
    None
}

/// Where the body of a line ends: the buffer starts with `prefix`, and the first
/// terminator after it begins at the index returned.
pub open spec fn line_end(bytes: Seq<u8>, prefix: u8) -> Result<int, ErrorKind> {
    if bytes.len() == 0 {
        Err(ErrorKind::NotComplete)
    } else if bytes[0] != prefix {
        Err(ErrorKind::InvalidFrameType)
    } else {
        match first_crlf(bytes, 1) {
            Some(end) => Ok(end),
            None => Err(ErrorKind::NotComplete),
        }
    }
}

/// Finds the end of a line that starts with `prefix`.
pub fn extract_simple_frame_data(buf: &[u8], prefix: u8) -> (r: Result<usize, RespError>)
    ensures
        match line_end(buf@, prefix) {
            Ok(end) => r == Ok::<usize, RespError>(end as usize) && 1 <= end && end + 2
                <= buf@.len() <= usize::MAX,
            Err(k) => r is Err && r->Err_0.kind() == k,
        },
{
    if buf.len() == 0 {
        return Err(RespError::NotComplete);
    }
    if buf[0] != prefix {
        return Err(RespError::InvalidFrameType("unexpected leading byte".to_owned()));
    }
    proof {
        lemma_first_crlf(buf@, 1);
    }
    match find_crlf(buf, 1) {
        Some(end) => Ok(end),
        None => Err(RespError::NotComplete),
    }
}

/// Whether frames with this prefix have a null form, written as the length `-1`:
/// bulk strings and arrays do.
pub open spec fn has_null_form(prefix: u8) -> bool {
    prefix == BULK_STRING || prefix == ARRAY
}

/// A length header: `prefix`, a decimal number, the terminator. The result is the
/// index at which the terminator begins, and the number, which is at least `-1`,
/// and `-1` only where the prefix has a null form.
///
/// Text that is no number of the machine's word size is `InvalidFrame`; any other
/// negative number is `InvalidFrameLength`.
pub open spec fn length_header(bytes: Seq<u8>, prefix: u8) -> Result<(int, int), ErrorKind> {
    match line_end(bytes, prefix) {
        Err(k) => Err(k),
        Ok(end) => match parse_int(bytes.subrange(1, end)) {
            None => Err(ErrorKind::InvalidFrame),
            Some(n) => if n < isize::MIN || n > isize::MAX {
                Err(ErrorKind::InvalidFrame)
            } else if n < -1 || (n == -1 && !has_null_form(prefix)) {
                Err(ErrorKind::InvalidFrameLength(n as isize))
            } else {
                Ok((end, n))
            },
        },
    }
}

/// Reads a length header.
pub fn parse_length(buf: &[u8], prefix: u8) -> (r: Result<(usize, isize), RespError>)
    ensures
        match length_header(buf@, prefix) {
            Ok((end, n)) => r == Ok::<(usize, isize), RespError>((end as usize, n as isize)) && 1
                <= end && end + 2 <= buf@.len() <= usize::MAX && -1 <= n <= isize::MAX,
            Err(k) => r is Err && r->Err_0.kind() == k,
        },
{
    let end: usize = match extract_simple_frame_data(buf, prefix) {
        Ok(end) => end,
        Err(e) => {
            return Err(e);
        },
    };
    let value: i64 = match parse_i64(slice_subrange(buf, 1, end)) {
        Some(v) => v,
        None => {
            return Err(RespError::InvalidFrame("length is not a number".to_owned()));
        },
    };
    if value < isize::MIN as i64 || value > isize::MAX as i64 {
        return Err(RespError::InvalidFrame("length is not a number".to_owned()));
    }
    let n: isize = value as isize;
    if n < -1 || (n == -1 && prefix != BULK_STRING && prefix != ARRAY) {
        return Err(RespError::InvalidFrameLength(n));
    }
    Ok((end, n))
}

/// A fixed literal at the front of the buffer: incomplete while the buffer is
/// shorter than the literal, of the wrong type once it is long enough and differs.
pub open spec fn fixed_token(bytes: Seq<u8>, token: Seq<u8>) -> Result<(), ErrorKind> {
    if bytes.len() < token.len() {
        Err(ErrorKind::NotComplete)
    } else if bytes.subrange(0, token.len() as int) != token {
        Err(ErrorKind::InvalidFrameType)
    } else {
        Ok(())
    }
}

/// Checks that the buffer starts with `token`.
pub fn match_fixed_token(buf: &[u8], token: &[u8]) -> (r: Result<(), RespError>)
    ensures
        match fixed_token(buf@, token@) {
            Ok(_) => r is Ok,
            Err(k) => r is Err && r->Err_0.kind() == k,
        },
{
    let n: usize = token.len();
    if buf.len() < n {
        return Err(RespError::NotComplete);
    }
    let mut i: usize = 0;
    while i < n
        invariant
            i <= n,
            n == token@.len(),
            n <= buf@.len(),
            forall|j: int| 0 <= j < i ==> buf@[j] == token@[j],
        decreases n - i,
    {
        if buf[i] != token[i] {
            assert(buf@.subrange(0, n as int)[i as int] != token@[i as int]);
            return Err(RespError::InvalidFrameType("unexpected literal".to_owned()));
        }
        i += 1;
    }
    assert(buf@.subrange(0, n as int) =~= token@);
    Ok(())
}

} // verus!
