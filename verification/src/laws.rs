//! What holds of encoding and decoding together: a frame that is written out and
//! read back is the same frame, and a frame of which only a part has arrived is
//! reported as incomplete, never as something else.

use crate::decimal::{int_text, lemma_int_text_parses, lemma_int_text_plain, parse_int};
use crate::error::ErrorKind;
use crate::frame::FrameView;
use crate::map::{lemma_insert_all_of_sorted, lemma_insert_all_sorted, sorted_keys};
use crate::scan::{
    crlf, crlf_at, has_null_form, lemma_first_crlf, lemma_first_crlf_is, lemma_first_crlf_none,
    length_header, line_end, ARRAY, BOOLEAN, BULK_STRING, CR, DOUBLE, INTEGER, LF, MAPPING,
    MEMBERS, NULL, SIMPLE_ERROR, SIMPLE_STRING,
};
use crate::wire::{
    array_wire, boolean_wire, bulk_string_wire, bulk_wire, expected_frame, expected_items,
    frame_wire, integer_wire, items_wire, line, null_array_wire, null_bulk_wire, null_wire,
    pairs_wire, parse_array, parse_boolean, parse_bulk, parse_frame, parse_integer, parse_items,
    parse_map, parse_null, parse_pairs, parse_set, parse_text, text_wire,
};
use vstd::prelude::*;
use vstd::utf8::{encode_utf8, encode_utf8_decode_utf8, encode_utf8_valid_utf8};

verus! {

/// Bytes in which no terminator occurs.
pub open spec fn no_crlf(body: Seq<u8>) -> bool {
    forall|i: int| !crlf_at(body, i)
}

/// Text whose UTF-8 bytes hold no terminator: what a simple string, a simple
/// error, a double or a map key can carry.
pub open spec fn plain_text(text: Seq<char>) -> bool {
    no_crlf(encode_utf8(text))
}

/// In a line whose body holds no terminator, followed by whatever, the body ends
/// where the line's own terminator begins.
pub proof fn lemma_line(prefix: u8, body: Seq<u8>, rest: Seq<u8>)
    requires
        no_crlf(body),
    ensures
        line_end(line(prefix, body) + rest, prefix) == Ok::<int, ErrorKind>(1 + body.len() as int),
        (line(prefix, body) + rest).subrange(1, 1 + body.len() as int) == body,
        line(prefix, body).len() == body.len() + 3,
{
    let l = line(prefix, body) + rest;
    let e = 1 + body.len() as int;
    assert(l[e] == CR && l[e + 1] == LF);
    assert forall|j: int| 1 <= j < e implies !crlf_at(l, j) by {
        if j + 1 < e {
            assert(l[j] == body[j - 1] && l[j + 1] == body[j]);
            assert(!crlf_at(body, j - 1));
        }
    }
    lemma_first_crlf_is(l, 1, e);
    assert(l.subrange(1, e) =~= body);
}

/// A line of which the end is missing is incomplete.
pub proof fn lemma_line_cut(prefix: u8, body: Seq<u8>, rest: Seq<u8>, k: int)
    requires
        no_crlf(body),
        0 <= k < body.len() + 3,
    ensures
        line_end((line(prefix, body) + rest).take(k), prefix) == Err::<int, ErrorKind>(
            ErrorKind::NotComplete,
        ),
{
    let l = line(prefix, body) + rest;
    let c = l.take(k);
    let e = 1 + body.len() as int;
    if k > 0 {
        assert(c[0] == prefix);
        lemma_line(prefix, body, rest);
        lemma_first_crlf(l, 1);
        assert forall|j: int| 1 <= j implies !crlf_at(c, j) by {
            if crlf_at(c, j) {
                assert(c[j] == l[j] && c[j + 1] == l[j + 1]);
                assert(crlf_at(l, j));
            }
        }
        lemma_first_crlf_none(c, 1);
    }
}

/// The canonical text of an integer holds no terminator.
pub proof fn lemma_int_text_no_crlf(v: int)
    ensures
        no_crlf(int_text(v)),
{
    lemma_int_text_plain(v);
}

/// A text line reads back as its text.
pub proof fn lemma_text_round_trip(prefix: u8, text: Seq<char>, rest: Seq<u8>)
    requires
        plain_text(text),
    ensures
        parse_text(text_wire(prefix, text) + rest, prefix) == Ok::<(Seq<char>, int), ErrorKind>(
            (text, text_wire(prefix, text).len() as int),
        ),
{
    lemma_line(prefix, encode_utf8(text), rest);
    encode_utf8_valid_utf8(text);
    encode_utf8_decode_utf8(text);
}

/// An integer frame reads back as its number.
pub proof fn lemma_integer_round_trip(v: i64, rest: Seq<u8>)
    ensures
        parse_integer(integer_wire(v) + rest) == Ok::<(i64, int), ErrorKind>(
            (v, integer_wire(v).len() as int),
        ),
{
    lemma_int_text_no_crlf(v as int);
    lemma_line(INTEGER, int_text(v as int), rest);
    lemma_int_text_parses(v as int);
}

/// A length header reads back as its number.
pub proof fn lemma_header_round_trip(prefix: u8, n: int, rest: Seq<u8>)
    requires
        0 <= n <= isize::MAX || (n == -1 && has_null_form(prefix)),
    ensures
        length_header(line(prefix, int_text(n)) + rest, prefix) == Ok::<(int, int), ErrorKind>(
            (1 + int_text(n).len() as int, n),
        ),
        line(prefix, int_text(n)).len() == int_text(n).len() + 3,
{
    lemma_int_text_no_crlf(n);
    lemma_line(prefix, int_text(n), rest);
    lemma_int_text_parses(n);
}

/// A length header of which the end is missing is incomplete.
pub proof fn lemma_header_cut(prefix: u8, n: int, rest: Seq<u8>, k: int)
    requires
        0 <= k < int_text(n).len() + 3,
    ensures
        length_header((line(prefix, int_text(n)) + rest).take(k), prefix) == Err::<
            (int, int),
            ErrorKind,
        >(ErrorKind::NotComplete),
{
    lemma_int_text_no_crlf(n);
    lemma_line_cut(prefix, int_text(n), rest, k);
}

/// `$-1\r\n` and `*-1\r\n` are length headers with the number `-1`.
pub proof fn lemma_null_markers()
    ensures
        int_text(-1) == seq![45u8, 49u8],
        null_bulk_wire() == line(BULK_STRING, int_text(-1)),
        null_array_wire() == line(ARRAY, int_text(-1)),
{
    assert(int_text(-1) =~= seq![45u8, 49u8]);
    assert(null_bulk_wire() =~= line(BULK_STRING, int_text(-1)));
    assert(null_array_wire() =~= line(ARRAY, int_text(-1)));
}

/// A bulk string reads back as its bytes; without bytes, as the bulk string
/// without bytes.
pub proof fn lemma_bulk_round_trip(data: Seq<u8>, rest: Seq<u8>)
    requires
        data.len() <= isize::MAX,
    ensures
        parse_bulk(bulk_wire(data) + rest) == Ok::<(Option<Seq<u8>>, int), ErrorKind>(
            (Some(data), bulk_wire(data).len() as int),
        ),
{
    let n = data.len() as int;
    let head = line(BULK_STRING, int_text(n));
    let w = bulk_wire(data) + rest;
    lemma_header_round_trip(BULK_STRING, n, data + crlf() + rest);
    assert(w =~= head + (data + crlf() + rest));
    let start = head.len() as int;
    assert(w[start + n] == CR && w[start + n + 1] == LF);
    assert(w.subrange(start, start + n) =~= data);
}

/// The null bulk string reads back as null.
pub proof fn lemma_null_bulk_round_trip(rest: Seq<u8>)
    ensures
        parse_bulk(null_bulk_wire() + rest) == Ok::<(Option<Seq<u8>>, int), ErrorKind>((None, 5)),
{
    lemma_null_markers();
    lemma_header_round_trip(BULK_STRING, -1, rest);
}

/// A bulk string of which the end is missing is incomplete.
pub proof fn lemma_bulk_cut(data: Seq<u8>, k: int)
    requires
        data.len() <= isize::MAX,
        0 <= k < bulk_wire(data).len(),
    ensures
        parse_bulk(bulk_wire(data).take(k)) == Err::<(Option<Seq<u8>>, int), ErrorKind>(
            ErrorKind::NotComplete,
        ),
{
    let n = data.len() as int;
    let head = line(BULK_STRING, int_text(n));
    let tail = data + crlf();
    let w = bulk_wire(data);
    assert(w =~= head + tail);
    if k < head.len() {
        lemma_header_cut(BULK_STRING, n, tail, k);
    } else {
        let part = tail.take(k - head.len());
        assert(w.take(k) =~= head + part);
        lemma_header_round_trip(BULK_STRING, n, part);
    }
}

/// The null frame reads back as itself.
pub proof fn lemma_null_round_trip(rest: Seq<u8>)
    ensures
        parse_null(null_wire() + rest) == Ok::<((), int), ErrorKind>(((), 3)),
{
    assert((null_wire() + rest).subrange(0, 3) =~= null_wire());
}

/// A boolean frame reads back as its value.
pub proof fn lemma_boolean_round_trip(b: bool, rest: Seq<u8>)
    ensures
        parse_boolean(boolean_wire(b) + rest) == Ok::<(bool, int), ErrorKind>((b, 4)),
{
    let w = boolean_wire(b) + rest;
    assert(w.subrange(0, 4) =~= boolean_wire(b));
    assert(boolean_wire(true)[1] != boolean_wire(false)[1]);
}

/// A frame that can travel: its texts hold no terminator, its lengths are what a
/// length field can say, its maps are in key order, and its compound frames nest
/// at most `depth` deep.
pub open spec fn valid_frame(v: FrameView, depth: nat) -> bool
    decreases v,
{
    match v {
        FrameView::SimpleString(t) => plain_text(t),
        FrameView::Error(t) => plain_text(t),
        FrameView::Double(t) => plain_text(t),
        FrameView::BulkString(b) => b.len() <= isize::MAX,
        FrameView::Array(items) => depth > 0 && valid_frames(items, (depth - 1) as nat),
        FrameView::Members(items) => depth > 0 && valid_frames(items, (depth - 1) as nat),
        FrameView::Mapping(entries) => depth > 0 && valid_entries(entries, (depth - 1) as nat),
        _ => true,
    }
}

/// As many frames as a count field can say, each valid.
pub open spec fn valid_frames(items: Seq<FrameView>, depth: nat) -> bool
    decreases items,
{
    &&& items.len() <= isize::MAX
    &&& forall|i: int| 0 <= i < items.len() ==> valid_frame(#[trigger] items[i], depth)
}

/// As many entries as a count field can say, in key order, each with a plain key
/// and a valid value.
pub open spec fn valid_entries(entries: Seq<(Seq<char>, FrameView)>, depth: nat) -> bool
    decreases entries,
{
    &&& entries.len() <= isize::MAX
    &&& sorted_keys(entries)
    &&& forall|i: int|
        0 <= i < entries.len() ==> plain_text((#[trigger] entries[i]).0) && valid_frame(
            entries[i].1,
            depth,
        )
}

/// A simple string reads back, as a frame, as itself.
pub proof fn lemma_simple_string_round_trip(text: Seq<char>, depth: nat, rest: Seq<u8>)
    requires
        plain_text(text),
    ensures
        parse_frame(text_wire(SIMPLE_STRING, text) + rest, depth) == Ok::<
            (FrameView, int),
            ErrorKind,
        >((FrameView::SimpleString(text), text_wire(SIMPLE_STRING, text).len() as int)),
{
    lemma_text_round_trip(SIMPLE_STRING, text, rest);
    assert((text_wire(SIMPLE_STRING, text) + rest)[0] == SIMPLE_STRING);
}

/// Round trip of a frame that holds no other frame.
pub proof fn lemma_scalar_round_trip(v: FrameView, depth: nat, rest: Seq<u8>)
    requires
        valid_frame(v, depth),
        !(v is Array),
        !(v is Members),
        !(v is Mapping),
    ensures
        parse_frame(frame_wire(v) + rest, depth) == Ok::<(FrameView, int), ErrorKind>(
            (v, frame_wire(v).len() as int),
        ),
{
    let w = frame_wire(v) + rest;
    match v {
        FrameView::SimpleString(t) => {
            lemma_text_round_trip(SIMPLE_STRING, t, rest);
            assert(w[0] == SIMPLE_STRING);
        },
        FrameView::Error(t) => {
            lemma_text_round_trip(SIMPLE_ERROR, t, rest);
            assert(w[0] == SIMPLE_ERROR);
        },
        FrameView::Integer(i) => {
            lemma_integer_round_trip(i, rest);
            assert(w[0] == INTEGER);
        },
        FrameView::BulkString(b) => {
            lemma_bulk_round_trip(b, rest);
            assert(w[0] == BULK_STRING);
        },
        FrameView::NullBulkString => {
            lemma_null_bulk_round_trip(rest);
            assert(w[0] == BULK_STRING);
        },
        FrameView::NullArray => {
            lemma_null_markers();
            lemma_header_round_trip(ARRAY, -1, rest);
            assert(w[0] == ARRAY);
        },
        FrameView::Null => {
            lemma_null_round_trip(rest);
            assert(w[0] == NULL);
        },
        FrameView::Boolean(b) => {
            lemma_boolean_round_trip(b, rest);
            assert(w[0] == BOOLEAN);
        },
        FrameView::Double(t) => {
            lemma_text_round_trip(DOUBLE, t, rest);
            assert(w[0] == DOUBLE);
        },
        _ => {},
    }
}

/// Round trip, with whatever follows: the wire form of a valid frame, followed by
/// any bytes, decodes to that frame and to the length of the wire form.
pub proof fn lemma_frame_round_trip(v: FrameView, depth: nat, rest: Seq<u8>)
    requires
        valid_frame(v, depth),
    ensures
        parse_frame(frame_wire(v) + rest, depth) == Ok::<(FrameView, int), ErrorKind>(
            (v, frame_wire(v).len() as int),
        ),
    decreases v, 0nat,
{
    match v {
        FrameView::Array(items) => {
            lemma_sequence_round_trip(ARRAY, items, depth, rest);
        },
        FrameView::Members(items) => {
            lemma_sequence_round_trip(MEMBERS, items, depth, rest);
        },
        FrameView::Mapping(entries) => {
            lemma_map_round_trip(entries, depth, rest);
        },
        _ => {
            lemma_scalar_round_trip(v, depth, rest);
        },
    }
}

/// Round trip of an array (`*`) or a set (`~`).
pub proof fn lemma_sequence_round_trip(prefix: u8, items: Seq<FrameView>, depth: nat, rest: Seq<u8>)
    requires
        prefix == ARRAY || prefix == MEMBERS,
        depth > 0,
        valid_frames(items, (depth - 1) as nat),
    ensures
        parse_frame(
            line(prefix, int_text(items.len() as int)) + items_wire(items, items.len()) + rest,
            depth,
        ) == Ok::<(FrameView, int), ErrorKind>(
            (
                if prefix == ARRAY {
                    FrameView::Array(items)
                } else {
                    FrameView::Members(items)
                },
                (line(prefix, int_text(items.len() as int)) + items_wire(
                    items,
                    items.len(),
                )).len() as int,
            ),
        ),
    decreases items, items.len() + 1,
{
    let n = items.len();
    let head = line(prefix, int_text(n as int));
    let body = items_wire(items, n);
    let w = head + body + rest;
    lemma_header_round_trip(prefix, n as int, body + rest);
    assert(w =~= head + (body + rest));
    assert(w[0] == prefix);
    assert(w.skip(head.len() as int) =~= body + rest);
    lemma_items_round_trip(items, n, (depth - 1) as nat, rest);
    assert(items.take(n as int) =~= items);
    if prefix == ARRAY {
        assert(parse_array(w, depth) == Ok::<(Option<Seq<FrameView>>, int), ErrorKind>(
            (Some(items), (head.len() + body.len()) as int),
        ));
    } else {
        assert(parse_set(w, depth) == Ok::<(Seq<FrameView>, int), ErrorKind>(
            (items, (head.len() + body.len()) as int),
        ));
    }
}

/// Round trip of a map.
pub proof fn lemma_map_round_trip(
    entries: Seq<(Seq<char>, FrameView)>,
    depth: nat,
    rest: Seq<u8>,
)
    requires
        depth > 0,
        valid_entries(entries, (depth - 1) as nat),
    ensures
        parse_frame(
            line(MAPPING, int_text(entries.len() as int)) + pairs_wire(entries, entries.len())
                + rest,
            depth,
        ) == Ok::<(FrameView, int), ErrorKind>(
            (
                FrameView::Mapping(entries),
                (line(MAPPING, int_text(entries.len() as int)) + pairs_wire(
                    entries,
                    entries.len(),
                )).len() as int,
            ),
        ),
    decreases entries, entries.len() + 1,
{
    let n = entries.len();
    let head = line(MAPPING, int_text(n as int));
    let body = pairs_wire(entries, n);
    let w = head + body + rest;
    lemma_header_round_trip(MAPPING, n as int, body + rest);
    assert(w =~= head + (body + rest));
    assert(w[0] == MAPPING);
    assert(w.skip(head.len() as int) =~= body + rest);
    lemma_pairs_round_trip(entries, n, (depth - 1) as nat, rest);
    assert(entries.take(n as int) =~= entries);
    lemma_insert_all_of_sorted(entries, n);
    assert(parse_map(w, depth) == Ok::<(Seq<(Seq<char>, FrameView)>, int), ErrorKind>(
        (entries, (head.len() + body.len()) as int),
    ));
}

/// Round trip of the first `n` of a sequence of valid frames.
pub proof fn lemma_items_round_trip(items: Seq<FrameView>, n: nat, depth: nat, rest: Seq<u8>)
    requires
        n <= items.len(),
        forall|i: int| 0 <= i < n ==> valid_frame(#[trigger] items[i], depth),
    ensures
        parse_items(items_wire(items, n) + rest, n, depth) == Ok::<
            (Seq<FrameView>, int),
            ErrorKind,
        >((items.take(n as int), items_wire(items, n).len() as int)),
    decreases items, n,
{
    if n == 0 {
        assert(items.take(0) =~= Seq::<FrameView>::empty());
    } else {
        let before = items_wire(items, (n - 1) as nat);
        let last = frame_wire(items[n - 1]);
        let w = items_wire(items, n) + rest;
        assert(w =~= before + (last + rest));
        lemma_items_round_trip(items, (n - 1) as nat, depth, last + rest);
        assert(w.skip(before.len() as int) =~= last + rest);
        lemma_frame_round_trip(items[n - 1], depth, rest);
        assert(items.take(n - 1).push(items[n - 1]) =~= items.take(n as int));
    }
}

/// Round trip of the first `n` entries of a map.
pub proof fn lemma_pairs_round_trip(
    entries: Seq<(Seq<char>, FrameView)>,
    n: nat,
    depth: nat,
    rest: Seq<u8>,
)
    requires
        n <= entries.len(),
        forall|i: int|
            0 <= i < n ==> plain_text((#[trigger] entries[i]).0) && valid_frame(
                entries[i].1,
                depth,
            ),
    ensures
        parse_pairs(pairs_wire(entries, n) + rest, n, depth) == Ok::<
            (Seq<(Seq<char>, FrameView)>, int),
            ErrorKind,
        >((entries.take(n as int), pairs_wire(entries, n).len() as int)),
    decreases entries, n,
{
    if n == 0 {
        assert(entries.take(0) =~= Seq::<(Seq<char>, FrameView)>::empty());
    } else {
        let before = pairs_wire(entries, (n - 1) as nat);
        let key = text_wire(SIMPLE_STRING, entries[n - 1].0);
        let value = frame_wire(entries[n - 1].1);
        let w = pairs_wire(entries, n) + rest;
        assert(w =~= before + (key + value + rest));
        assert(before + key + value + rest =~= before + (key + value + rest));
        lemma_pairs_round_trip(entries, (n - 1) as nat, depth, key + value + rest);
        assert(w.skip(before.len() as int) =~= key + (value + rest));
        lemma_simple_string_round_trip(entries[n - 1].0, depth, value + rest);
        assert(w.skip((before.len() + key.len()) as int) =~= value + rest);
        lemma_frame_round_trip(entries[n - 1].1, depth, rest);
        assert(entries.take(n - 1).push(entries[n - 1]) =~= entries.take(n as int));
    }
}

/// Round trip: a valid frame, written out and read back, is the same frame, and
/// reading consumes exactly what was written. This holds of every variant, with
/// the bulk string without bytes, the null bulk string, the empty array, the null
/// array and the map without entries.
pub proof fn lemma_round_trip(v: FrameView, depth: nat)
    requires
        valid_frame(v, depth),
    ensures
        parse_frame(frame_wire(v), depth) == Ok::<(FrameView, int), ErrorKind>(
            (v, frame_wire(v).len() as int),
        ),
{
    lemma_frame_round_trip(v, depth, Seq::empty());
    assert(frame_wire(v) + Seq::<u8>::empty() =~= frame_wire(v));
}

/// Incremental decoding: any proper prefix of the wire form of a valid frame is
/// incomplete; it is not mistaken for a frame, nor for a malformed one.
pub proof fn lemma_frame_cut(v: FrameView, depth: nat, k: int)
    requires
        valid_frame(v, depth),
        0 <= k < frame_wire(v).len(),
    ensures
        parse_frame(frame_wire(v).take(k), depth) == Err::<(FrameView, int), ErrorKind>(
            ErrorKind::NotComplete,
        ),
    decreases v, 0nat,
{
    let w = frame_wire(v);
    let c = w.take(k);
    let nothing = Seq::<u8>::empty();
    if k > 0 {
        assert(c[0] == w[0]);
        match v {
            FrameView::SimpleString(t) => {
                assert(w + nothing =~= w);
                lemma_line_cut(SIMPLE_STRING, encode_utf8(t), nothing, k);
            },
            FrameView::Error(t) => {
                assert(w + nothing =~= w);
                lemma_line_cut(SIMPLE_ERROR, encode_utf8(t), nothing, k);
            },
            FrameView::Double(t) => {
                assert(w + nothing =~= w);
                lemma_line_cut(DOUBLE, encode_utf8(t), nothing, k);
            },
            FrameView::Integer(i) => {
                assert(w + nothing =~= w);
                lemma_int_text_no_crlf(i as int);
                lemma_line_cut(INTEGER, int_text(i as int), nothing, k);
            },
            FrameView::BulkString(b) => {
                lemma_bulk_cut(b, k);
            },
            FrameView::NullBulkString => {
                lemma_null_markers();
                assert(w + nothing =~= w);
                lemma_header_cut(BULK_STRING, -1, nothing, k);
            },
            FrameView::NullArray => {
                lemma_null_markers();
                assert(w + nothing =~= w);
                lemma_header_cut(ARRAY, -1, nothing, k);
            },
            FrameView::Null => {},
            FrameView::Boolean(b) => {},
            FrameView::Array(items) => {
                let n = items.len();
                let head = line(ARRAY, int_text(n as int));
                let body = items_wire(items, n);
                if k < head.len() {
                    lemma_header_cut(ARRAY, n as int, body, k);
                } else {
                    let part = body.take(k - head.len());
                    assert(c =~= head + part);
                    lemma_header_round_trip(ARRAY, n as int, part);
                    assert(c.skip(head.len() as int) =~= part);
                    lemma_items_cut(items, n, (depth - 1) as nat, k - head.len());
                }
            },
            FrameView::Members(items) => {
                let n = items.len();
                let head = line(MEMBERS, int_text(n as int));
                let body = items_wire(items, n);
                if k < head.len() {
                    lemma_header_cut(MEMBERS, n as int, body, k);
                } else {
                    let part = body.take(k - head.len());
                    assert(c =~= head + part);
                    lemma_header_round_trip(MEMBERS, n as int, part);
                    assert(c.skip(head.len() as int) =~= part);
                    lemma_items_cut(items, n, (depth - 1) as nat, k - head.len());
                }
            },
            FrameView::Mapping(entries) => {
                let n = entries.len();
                let head = line(MAPPING, int_text(n as int));
                let body = pairs_wire(entries, n);
                if k < head.len() {
                    lemma_header_cut(MAPPING, n as int, body, k);
                } else {
                    let part = body.take(k - head.len());
                    assert(c =~= head + part);
                    lemma_header_round_trip(MAPPING, n as int, part);
                    assert(c.skip(head.len() as int) =~= part);
                    lemma_pairs_cut(entries, n, (depth - 1) as nat, k - head.len());
                }
            },
        }
    }
}

/// A simple string of which the end is missing is incomplete.
pub proof fn lemma_simple_string_cut(text: Seq<char>, depth: nat, k: int)
    requires
        plain_text(text),
        0 <= k < text_wire(SIMPLE_STRING, text).len(),
    ensures
        parse_frame(text_wire(SIMPLE_STRING, text).take(k), depth) == Err::<
            (FrameView, int),
            ErrorKind,
        >(ErrorKind::NotComplete),
{
    let w = text_wire(SIMPLE_STRING, text);
    if k > 0 {
        assert(w.take(k)[0] == SIMPLE_STRING);
        assert(w + Seq::<u8>::empty() =~= w);
        lemma_line_cut(SIMPLE_STRING, encode_utf8(text), Seq::empty(), k);
    }
}

/// A sequence of valid frames of which the end is missing is incomplete.
pub proof fn lemma_items_cut(items: Seq<FrameView>, n: nat, depth: nat, k: int)
    requires
        n <= items.len(),
        forall|i: int| 0 <= i < n ==> valid_frame(#[trigger] items[i], depth),
        0 <= k < items_wire(items, n).len(),
    ensures
        parse_items(items_wire(items, n).take(k), n, depth) == Err::<
            (Seq<FrameView>, int),
            ErrorKind,
        >(ErrorKind::NotComplete),
    decreases items, n,
{
    let before = items_wire(items, (n - 1) as nat);
    let last = frame_wire(items[n - 1]);
    let c = items_wire(items, n).take(k);
    if k < before.len() {
        assert(c =~= before.take(k));
        lemma_items_cut(items, (n - 1) as nat, depth, k);
    } else {
        let part = last.take(k - before.len());
        assert(c =~= before + part);
        lemma_items_round_trip(items, (n - 1) as nat, depth, part);
        assert(c.skip(before.len() as int) =~= part);
        lemma_frame_cut(items[n - 1], depth, k - before.len());
    }
}

/// The entries of a map of which the end is missing are incomplete.
pub proof fn lemma_pairs_cut(entries: Seq<(Seq<char>, FrameView)>, n: nat, depth: nat, k: int)
    requires
        n <= entries.len(),
        forall|i: int|
            0 <= i < n ==> plain_text((#[trigger] entries[i]).0) && valid_frame(
                entries[i].1,
                depth,
            ),
        0 <= k < pairs_wire(entries, n).len(),
    ensures
        parse_pairs(pairs_wire(entries, n).take(k), n, depth) == Err::<
            (Seq<(Seq<char>, FrameView)>, int),
            ErrorKind,
        >(ErrorKind::NotComplete),
    decreases entries, n,
{
    let before = pairs_wire(entries, (n - 1) as nat);
    let key = text_wire(SIMPLE_STRING, entries[n - 1].0);
    let value = frame_wire(entries[n - 1].1);
    let c = pairs_wire(entries, n).take(k);
    assert(pairs_wire(entries, n) =~= before + (key + value));
    if k < before.len() {
        assert(c =~= before.take(k));
        lemma_pairs_cut(entries, (n - 1) as nat, depth, k);
    } else if k < before.len() + key.len() {
        let part = key.take(k - before.len());
        assert(c =~= before + part);
        lemma_pairs_round_trip(entries, (n - 1) as nat, depth, part);
        assert(c.skip(before.len() as int) =~= part);
        lemma_simple_string_cut(entries[n - 1].0, depth, k - before.len());
    } else {
        let part = value.take(k - before.len() - key.len());
        assert(c =~= before + (key + part));
        lemma_pairs_round_trip(entries, (n - 1) as nat, depth, key + part);
        assert(c.skip(before.len() as int) =~= key + part);
        lemma_simple_string_round_trip(entries[n - 1].0, depth, part);
        assert(c.skip((before.len() + key.len()) as int) =~= part);
        lemma_frame_cut(entries[n - 1].1, depth, k - before.len() - key.len());
    }
}

/// Where more frames are asked for than are there, the sequence is incomplete.
pub proof fn lemma_items_missing(items: Seq<FrameView>, count: nat, depth: nat)
    requires
        forall|i: int| 0 <= i < items.len() ==> valid_frame(#[trigger] items[i], depth),
        items.len() < count,
    ensures
        parse_items(items_wire(items, items.len()), count, depth) == Err::<
            (Seq<FrameView>, int),
            ErrorKind,
        >(ErrorKind::NotComplete),
    decreases count,
{
    let w = items_wire(items, items.len());
    if count - 1 > items.len() {
        lemma_items_missing(items, (count - 1) as nat, depth);
    } else {
        lemma_items_round_trip(items, items.len(), depth, Seq::empty());
        assert(w + Seq::<u8>::empty() =~= w);
        assert(w.skip(w.len() as int) =~= Seq::<u8>::empty());
        assert((count - 1) as nat == items.len());
        assert(parse_frame(w.skip(w.len() as int), depth) is Err);
    }
}

/// Where more entries are asked for than are there, the entries are incomplete.
pub proof fn lemma_pairs_missing(entries: Seq<(Seq<char>, FrameView)>, count: nat, depth: nat)
    requires
        forall|i: int|
            0 <= i < entries.len() ==> plain_text((#[trigger] entries[i]).0) && valid_frame(
                entries[i].1,
                depth,
            ),
        entries.len() < count,
    ensures
        parse_pairs(pairs_wire(entries, entries.len()), count, depth) == Err::<
            (Seq<(Seq<char>, FrameView)>, int),
            ErrorKind,
        >(ErrorKind::NotComplete),
    decreases count,
{
    let w = pairs_wire(entries, entries.len());
    if count - 1 > entries.len() {
        lemma_pairs_missing(entries, (count - 1) as nat, depth);
    } else {
        lemma_pairs_round_trip(entries, entries.len(), depth, Seq::empty());
        assert(w + Seq::<u8>::empty() =~= w);
        assert(w.skip(w.len() as int) =~= Seq::<u8>::empty());
        assert((count - 1) as nat == entries.len());
        assert(parse_frame(w.skip(w.len() as int), depth) is Err);
    }
}

/// Recursive completeness of arrays and sets: a header that counts more frames
/// than follow it in full gives an incomplete frame, not a shorter array.
pub proof fn lemma_items_frame_missing(prefix: u8, count: nat, items: Seq<FrameView>, depth: nat)
    requires
        prefix == ARRAY || prefix == MEMBERS,
        depth > 0,
        forall|i: int|
            0 <= i < items.len() ==> valid_frame(#[trigger] items[i], (depth - 1) as nat),
        items.len() < count <= isize::MAX,
    ensures
        parse_frame(
            line(prefix, int_text(count as int)) + items_wire(items, items.len()),
            depth,
        ) == Err::<(FrameView, int), ErrorKind>(ErrorKind::NotComplete),
{
    let head = line(prefix, int_text(count as int));
    let body = items_wire(items, items.len());
    let w = head + body;
    lemma_header_round_trip(prefix, count as int, body);
    assert(w[0] == prefix);
    assert(w.skip(head.len() as int) =~= body);
    lemma_items_missing(items, count, (depth - 1) as nat);
}

/// Recursive completeness of maps: a header that counts more entries than follow
/// it in full gives an incomplete frame, not a smaller map.
pub proof fn lemma_map_frame_missing(
    count: nat,
    entries: Seq<(Seq<char>, FrameView)>,
    depth: nat,
)
    requires
        depth > 0,
        forall|i: int|
            0 <= i < entries.len() ==> plain_text((#[trigger] entries[i]).0) && valid_frame(
                entries[i].1,
                (depth - 1) as nat,
            ),
        entries.len() < count <= isize::MAX,
    ensures
        parse_frame(
            line(MAPPING, int_text(count as int)) + pairs_wire(entries, entries.len()),
            depth,
        ) == Err::<(FrameView, int), ErrorKind>(ErrorKind::NotComplete),
{
    let head = line(MAPPING, int_text(count as int));
    let body = pairs_wire(entries, entries.len());
    let w = head + body;
    lemma_header_round_trip(MAPPING, count as int, body);
    assert(w[0] == MAPPING);
    assert(w.skip(head.len() as int) =~= body);
    lemma_pairs_missing(entries, count, (depth - 1) as nat);
}

/// Negative-length rejection: a bulk string, array, map or set whose length field
/// holds a negative number, other than `-1` where the frame type has a null form,
/// is refused with that number, however the number is written and whatever
/// follows the header.
pub proof fn lemma_negative_length(bytes: Seq<u8>, end: int, n: int, depth: nat)
    requires
        bytes.len() > 0,
        bytes[0] == BULK_STRING || bytes[0] == ARRAY || bytes[0] == MAPPING || bytes[0] == MEMBERS,
        line_end(bytes, bytes[0]) == Ok::<int, ErrorKind>(end),
        parse_int(bytes.subrange(1, end)) == Some(n),
        isize::MIN <= n < 0,
        !(n == -1 && has_null_form(bytes[0])),
    ensures
        parse_frame(bytes, depth) == Err::<(FrameView, int), ErrorKind>(
            ErrorKind::InvalidFrameLength(n as isize),
        ),
{
}

/// The same of a length field in canonical text.
pub proof fn lemma_negative_length_canonical(prefix: u8, n: int, rest: Seq<u8>, depth: nat)
    requires
        prefix == BULK_STRING || prefix == ARRAY || prefix == MAPPING || prefix == MEMBERS,
        isize::MIN <= n < 0,
        !(n == -1 && has_null_form(prefix)),
    ensures
        parse_frame(line(prefix, int_text(n)) + rest, depth) == Err::<(FrameView, int), ErrorKind>(
            ErrorKind::InvalidFrameLength(n as isize),
        ),
{
    let bytes = line(prefix, int_text(n)) + rest;
    lemma_int_text_no_crlf(n);
    lemma_line(prefix, int_text(n), rest);
    lemma_int_text_parses(n);
    assert(bytes[0] == prefix);
    lemma_negative_length(bytes, 1 + int_text(n).len() as int, n, depth);
}

/// Whether a byte starts a frame.
pub open spec fn known_prefix(b: u8) -> bool {
    b == SIMPLE_STRING || b == SIMPLE_ERROR || b == INTEGER || b == BULK_STRING || b == ARRAY
        || b == NULL || b == BOOLEAN || b == DOUBLE || b == MAPPING || b == MEMBERS
}

/// Unknown prefix: a buffer that starts with a byte that starts no frame is of an
/// invalid frame type, whatever follows.
pub proof fn lemma_unknown_prefix(bytes: Seq<u8>, depth: nat)
    requires
        bytes.len() > 0,
        !known_prefix(bytes[0]),
    ensures
        parse_frame(bytes, depth) == Err::<(FrameView, int), ErrorKind>(
            ErrorKind::InvalidFrameType,
        ),
{
}

/// Incremental decoding, both halves: while only a part of a valid frame's wire
/// form has arrived, decoding reports it incomplete; once the rest has been
/// appended, decoding gives the frame and consumes the whole wire form.
pub proof fn lemma_incremental(v: FrameView, depth: nat, k: int)
    requires
        valid_frame(v, depth),
        0 <= k < frame_wire(v).len(),
    ensures
        parse_frame(frame_wire(v).take(k), depth) == Err::<(FrameView, int), ErrorKind>(
            ErrorKind::NotComplete,
        ),
        parse_frame(frame_wire(v).take(k) + frame_wire(v).skip(k), depth) == Ok::<
            (FrameView, int),
            ErrorKind,
        >((v, frame_wire(v).len() as int)),
{
    lemma_frame_cut(v, depth, k);
    lemma_frame_round_trip(v, depth, Seq::empty());
    assert(frame_wire(v).take(k) + frame_wire(v).skip(k) =~= frame_wire(v) + Seq::<u8>::empty());
}

/// Round trip of a bulk string as a value of its own type: every bulk string that
/// a length field can describe, the one without bytes and the null one too, reads
/// back as itself.
pub proof fn lemma_bulk_string_round_trip(v: Option<Seq<u8>>, rest: Seq<u8>)
    requires
        v matches Some(data) ==> data.len() <= isize::MAX,
    ensures
        parse_bulk(bulk_string_wire(v) + rest) == Ok::<(Option<Seq<u8>>, int), ErrorKind>(
            (v, bulk_string_wire(v).len() as int),
        ),
{
    match v {
        Some(data) => {
            lemma_bulk_round_trip(data, rest);
        },
        None => {
            lemma_null_bulk_round_trip(rest);
        },
    }
}

/// Round trip of an array as a value of its own type: every valid array, the one
/// without frames and the null one too, reads back as itself.
pub proof fn lemma_array_round_trip(v: Option<Seq<FrameView>>, depth: nat, rest: Seq<u8>)
    requires
        v matches Some(items) ==> depth > 0 && valid_frames(items, (depth - 1) as nat),
    ensures
        parse_array(array_wire(v) + rest, depth) == Ok::<(Option<Seq<FrameView>>, int), ErrorKind>(
            (v, array_wire(v).len() as int),
        ),
{
    match v {
        Some(items) => {
            lemma_sequence_round_trip(ARRAY, items, depth, rest);
            assert((array_wire(v) + rest)[0] == ARRAY);
        },
        None => {
            lemma_null_markers();
            lemma_header_round_trip(ARRAY, -1, rest);
        },
    }
}

/// The bulk string without bytes and the null bulk string differ on the wire and
/// as decoded frames.
pub proof fn lemma_empty_is_not_null(depth: nat)
    ensures
        frame_wire(FrameView::BulkString(Seq::empty())) != frame_wire(FrameView::NullBulkString),
        parse_frame(frame_wire(FrameView::BulkString(Seq::empty())), depth) == Ok::<
            (FrameView, int),
            ErrorKind,
        >((FrameView::BulkString(Seq::empty()), 6)),
        parse_frame(frame_wire(FrameView::NullBulkString), depth) == Ok::<
            (FrameView, int),
            ErrorKind,
        >((FrameView::NullBulkString, 5)),
{
    let empty = FrameView::BulkString(Seq::empty());
    lemma_round_trip(empty, depth);
    lemma_round_trip(FrameView::NullBulkString, depth);
    assert(int_text(0) =~= seq![48u8]);
    assert(frame_wire(empty).len() == 6);
}

/// A map that was decoded is in key order, whatever the order of the entries on
/// the wire.
pub proof fn lemma_decoded_map_sorted(bytes: Seq<u8>, depth: nat)
    ensures
        parse_map(bytes, depth) matches Ok((entries, _)) ==> sorted_keys(entries),
{
    if let Ok((end, n)) = length_header(bytes, MAPPING) {
        if depth > 0 {
            if let Ok((pairs, _)) = parse_pairs(bytes.skip(end + 2), n as nat, (depth - 1) as nat) {
                lemma_insert_all_sorted(pairs, pairs.len());
            }
        }
    }
}

/// What decoding consumes is at least one byte and lies within the buffer.
pub proof fn lemma_parse_frame_bounds(bytes: Seq<u8>, depth: nat)
    ensures
        parse_frame(bytes, depth) matches Ok((_, n)) ==> 0 < n <= bytes.len(),
    decreases depth, 1nat, 0nat,
{
    if bytes.len() > 0 {
        lemma_first_crlf(bytes, 1);
        if depth > 0 && (bytes[0] == ARRAY || bytes[0] == MEMBERS) {
            if let Ok((end, n)) = length_header(bytes, bytes[0]) {
                lemma_parse_items_bounds(bytes.skip(end + 2), n as nat, (depth - 1) as nat);
            }
        }
        if depth > 0 && bytes[0] == MAPPING {
            if let Ok((end, n)) = length_header(bytes, MAPPING) {
                lemma_parse_pairs_bounds(bytes.skip(end + 2), n as nat, (depth - 1) as nat);
            }
        }
    }
}

/// What decoding a sequence of frames consumes lies within the buffer.
pub proof fn lemma_parse_items_bounds(bytes: Seq<u8>, count: nat, depth: nat)
    ensures
        parse_items(bytes, count, depth) matches Ok((items, n)) ==> 0 <= n <= bytes.len()
            && items.len() == count,
    decreases depth, 2nat, count,
{
    if count > 0 {
        lemma_parse_items_bounds(bytes, (count - 1) as nat, depth);
        if let Ok((_, n)) = parse_items(bytes, (count - 1) as nat, depth) {
            lemma_parse_frame_bounds(bytes.skip(n), depth);
        }
    }
}

/// What decoding the entries of a map consumes lies within the buffer.
pub proof fn lemma_parse_pairs_bounds(bytes: Seq<u8>, count: nat, depth: nat)
    ensures
        parse_pairs(bytes, count, depth) matches Ok((pairs, n)) ==> 0 <= n <= bytes.len()
            && pairs.len() == count,
    decreases depth, 2nat, count,
{
    if count > 0 {
        lemma_parse_pairs_bounds(bytes, (count - 1) as nat, depth);
        if let Ok((_, n)) = parse_pairs(bytes, (count - 1) as nat, depth) {
            lemma_parse_frame_bounds(bytes.skip(n), depth);
            if let Ok((_, m)) = parse_frame(bytes.skip(n), depth) {
                lemma_parse_frame_bounds(bytes.skip(n + m), depth);
            }
        }
    }
}

/// Where a frame can be decoded, the length that its headers announce is the
/// length that decoding consumes.
pub proof fn lemma_expected_frame(bytes: Seq<u8>, depth: nat)
    requires
        bytes.len() <= usize::MAX,
    ensures
        parse_frame(bytes, depth) matches Ok((_, n)) ==> expected_frame(bytes, depth) == Ok::<
            int,
            ErrorKind,
        >(n),
    decreases depth, 1nat, 0nat,
{
    if bytes.len() > 0 {
        lemma_parse_frame_bounds(bytes, depth);
        lemma_first_crlf(bytes, 1);
        if depth > 0 && (bytes[0] == ARRAY || bytes[0] == MEMBERS) {
            if let Ok((end, n)) = length_header(bytes, bytes[0]) {
                if n >= 0 {
                    lemma_expected_items(bytes.skip(end + 2), n as nat, (depth - 1) as nat);
                    assert(n * 1 == n);
                }
            }
        }
        if depth > 0 && bytes[0] == MAPPING {
            if let Ok((end, n)) = length_header(bytes, MAPPING) {
                lemma_expected_pairs(bytes.skip(end + 2), n as nat, (depth - 1) as nat);
            }
        }
    }
}

/// The same of a sequence of frames.
pub proof fn lemma_expected_items(bytes: Seq<u8>, count: nat, depth: nat)
    requires
        bytes.len() <= usize::MAX,
    ensures
        parse_items(bytes, count, depth) matches Ok((_, n)) ==> expected_items(bytes, count, depth)
            == Ok::<int, ErrorKind>(n),
    decreases depth, 2nat, count,
{
    if count > 0 {
        lemma_expected_items(bytes, (count - 1) as nat, depth);
        lemma_parse_items_bounds(bytes, (count - 1) as nat, depth);
        if let Ok((_, n)) = parse_items(bytes, (count - 1) as nat, depth) {
            lemma_expected_frame(bytes.skip(n), depth);
            lemma_parse_frame_bounds(bytes.skip(n), depth);
        }
    }
}

/// The same of the entries of a map, which are two frames each.
pub proof fn lemma_expected_pairs(bytes: Seq<u8>, count: nat, depth: nat)
    requires
        bytes.len() <= usize::MAX,
    ensures
        parse_pairs(bytes, count, depth) matches Ok((_, n)) ==> expected_items(
            bytes,
            (count * 2) as nat,
            depth,
        ) == Ok::<int, ErrorKind>(n),
    decreases depth, 2nat, count,
{
    if count > 0 {
        lemma_expected_pairs(bytes, (count - 1) as nat, depth);
        lemma_parse_pairs_bounds(bytes, (count - 1) as nat, depth);
        if let Ok((_, n)) = parse_pairs(bytes, (count - 1) as nat, depth) {
            lemma_expected_frame(bytes.skip(n), depth);
            lemma_parse_frame_bounds(bytes.skip(n), depth);
            if let Ok((key, m)) = parse_frame(bytes.skip(n), depth) {
                lemma_expected_frame(bytes.skip(n + m), depth);
                lemma_parse_frame_bounds(bytes.skip(n + m), depth);
                let twice = (count * 2) as nat;
                assert((twice - 1) as nat - 1 == (count - 1) * 2);
                assert(expected_items(bytes, (twice - 1) as nat, depth) == Ok::<int, ErrorKind>(
                    n + m,
                ));
            }
        }
    }
}

} // verus!
