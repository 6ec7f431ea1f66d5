//! Encoding: from a frame to its wire form.

use crate::decimal::{int_text, push_digits, push_int};
use crate::frame::{
    frame_views, BulkString, FrameView, NullBulkString, RespArray, RespDouble, RespFrame, RespNull,
    RespNullArray, RespSet, SimpleError, SimpleString,
};
use crate::map::RespMap;
use crate::scan::{
    crlf, ARRAY, BOOLEAN, BULK_STRING, CR, DOUBLE, INTEGER, LF, MAPPING, MEMBERS, NULL,
    SIMPLE_ERROR, SIMPLE_STRING,
};
use crate::wire::{
    array_wire, boolean_wire, bulk_string_wire, bulk_wire, frame_wire, integer_wire, items_wire,
    line, null_array_wire, null_bulk_wire, null_wire, pairs_wire, text_wire,
};
use vstd::prelude::*;

verus! {

/// A value that has a wire form.
pub trait RespEncoder: Sized {
    /// The wire form of the value.
    spec fn wire(&self) -> Seq<u8>;

    /// Writes the value out. Encoding cannot fail.
    fn encode(self) -> (out: Vec<u8>)
        ensures
            out@ == self.wire(),
    ;
}

fn append(out: &mut Vec<u8>, data: &[u8])
    ensures
        final(out)@ == old(out)@ + data@,
{
    out.extend_from_slice(data);
    assert(final(out)@ =~= old(out)@ + data@);
}

fn push_crlf(out: &mut Vec<u8>)
    ensures
        final(out)@ == old(out)@ + crlf(),
{
    out.push(CR);
    out.push(LF);
    assert(final(out)@ =~= old(out)@ + crlf());
}

fn push_text(out: &mut Vec<u8>, prefix: u8, text: &str)
    ensures
        final(out)@ == old(out)@ + text_wire(prefix, text@),
{
    out.push(prefix);
    append(out, text.as_bytes());
    push_crlf(out);
    assert(final(out)@ =~= old(out)@ + text_wire(prefix, text@));
}

fn push_header(out: &mut Vec<u8>, prefix: u8, n: usize)
    ensures
        final(out)@ == old(out)@ + line(prefix, int_text(n as int)),
{
    out.push(prefix);
    push_digits(out, n as u64);
    push_crlf(out);
    assert(final(out)@ =~= old(out)@ + line(prefix, int_text(n as int)));
}

fn push_integer(out: &mut Vec<u8>, v: i64)
    ensures
        final(out)@ == old(out)@ + integer_wire(v),
{
    out.push(INTEGER);
    push_int(out, v);
    push_crlf(out);
    assert(final(out)@ =~= old(out)@ + integer_wire(v));
}

fn push_null_bulk(out: &mut Vec<u8>)
    ensures
        final(out)@ == old(out)@ + null_bulk_wire(),
{
    out.push(BULK_STRING);
    push_int(out, -1);
    push_crlf(out);
    assert(int_text(-1) =~= seq![45u8, 49u8]);
    assert(final(out)@ =~= old(out)@ + null_bulk_wire());
}

fn push_null_array(out: &mut Vec<u8>)
    ensures
        final(out)@ == old(out)@ + null_array_wire(),
{
    out.push(ARRAY);
    push_int(out, -1);
    push_crlf(out);
    assert(int_text(-1) =~= seq![45u8, 49u8]);
    assert(final(out)@ =~= old(out)@ + null_array_wire());
}

fn push_null(out: &mut Vec<u8>)
    ensures
        final(out)@ == old(out)@ + null_wire(),
{
    out.push(NULL);
    push_crlf(out);
    assert(final(out)@ =~= old(out)@ + null_wire());
}

fn push_boolean(out: &mut Vec<u8>, b: bool)
    ensures
        final(out)@ == old(out)@ + boolean_wire(b),
{
    out.push(BOOLEAN);
    // `t` or `f`
    out.push(if b { 116 } else { 102 });
    push_crlf(out);
    assert(final(out)@ =~= old(out)@ + boolean_wire(b));
}

fn push_bulk(out: &mut Vec<u8>, data: &[u8])
    ensures
        final(out)@ == old(out)@ + bulk_wire(data@),
{
    push_header(out, BULK_STRING, data.len());
    append(out, data);
    push_crlf(out);
    assert(final(out)@ =~= old(out)@ + bulk_wire(data@));
}

/// Appends the wire form of a frame.
pub fn write_frame(frame: &RespFrame, out: &mut Vec<u8>)
    ensures
        final(out)@ == old(out)@ + frame_wire(frame@),
    decreases frame, 0nat,
{
    match frame {
        RespFrame::SimpleString(s) => push_text(out, SIMPLE_STRING, s.0.as_str()),
        RespFrame::Error(e) => push_text(out, SIMPLE_ERROR, e.0.as_str()),
        RespFrame::Integer(i) => push_integer(out, *i),
        RespFrame::BulkString(b) => match &b.0 {
            Some(data) => push_bulk(out, data.as_slice()),
            None => push_null_bulk(out),
        },
        RespFrame::NullBulkString(_) => push_null_bulk(out),
        RespFrame::Array(a) => match &a.0 {
            Some(items) => {
                push_header(out, ARRAY, items.len());
                write_items(items, out);
                assert(final(out)@ =~= old(out)@ + frame_wire(frame@));
            },
            None => push_null_array(out),
        },
        RespFrame::NullArray(_) => push_null_array(out),
        RespFrame::Null(_) => push_null(out),
        RespFrame::Boolean(b) => push_boolean(out, *b),
        RespFrame::Double(d) => push_text(out, DOUBLE, d.0.as_str()),
        RespFrame::Mapping(m) => {
            write_map(m, out);
        },
        RespFrame::Members(s) => {
            push_header(out, MEMBERS, s.0.len());
            write_items(&s.0, out);
            assert(final(out)@ =~= old(out)@ + frame_wire(frame@));
        },
    }
}

/// Appends the wire forms of frames, in their order.
fn write_items(items: &Vec<RespFrame>, out: &mut Vec<u8>)
    ensures
        final(out)@ == old(out)@ + items_wire(frame_views(items@), items@.len()),
    decreases items, 1nat,
{
    let ghost views = frame_views(items@);
    let n: usize = items.len();
    let mut i: usize = 0;
    assert(out@ =~= old(out)@ + items_wire(views, 0));
    while i < n
        invariant
            i <= n,
            n == items@.len(),
            views == frame_views(items@),
            out@ == old(out)@ + items_wire(views, i as nat),
        decreases n - i,
    {
        let ghost before = out@;
        write_frame(&items[i], out);
        assert(out@ =~= old(out)@ + items_wire(views, (i + 1) as nat)) by {
            assert(views[i as int] == items@[i as int]@);
        }
        i += 1;
    }
}

/// Appends the wire form of a map: the header, then the entries in key order.
fn write_map(map: &RespMap, out: &mut Vec<u8>)
    ensures
        final(out)@ == old(out)@ + frame_wire(FrameView::Mapping(map@)),
    decreases map, 1nat,
{
    let ghost entries = map@;
    let n: usize = map.len();
    push_header(out, MAPPING, n);
    let ghost head = out@;
    let mut i: usize = 0;
    assert(out@ =~= head + pairs_wire(entries, 0));
    while i < n
        invariant
            i <= n,
            n == entries.len(),
            entries == map@,
            out@ == head + pairs_wire(entries, i as nat),
        decreases n - i,
    {
        let (key, value) = map.entry(i);
        push_text(out, SIMPLE_STRING, key.as_str());
        write_frame(value, out);
        assert(out@ =~= head + pairs_wire(entries, (i + 1) as nat));
        i += 1;
    }
    assert(out@ =~= old(out)@ + frame_wire(FrameView::Mapping(map@)));
}

impl RespEncoder for RespFrame {
    open spec fn wire(&self) -> Seq<u8> {
        frame_wire(self@)
    }

    fn encode(self) -> (out: Vec<u8>)
        ensures
            out@ == frame_wire(self@),
    {
        let mut out: Vec<u8> = Vec::new();
        write_frame(&self, &mut out);
        assert(out@ =~= frame_wire(self@));
        out
    }
}

impl RespEncoder for SimpleString {
    open spec fn wire(&self) -> Seq<u8> {
        text_wire(SIMPLE_STRING, self@)
    }

    fn encode(self) -> (out: Vec<u8>)
        ensures
            out@ == text_wire(SIMPLE_STRING, self@),
    {
        let mut out: Vec<u8> = Vec::new();
        push_text(&mut out, SIMPLE_STRING, self.0.as_str());
        assert(out@ =~= text_wire(SIMPLE_STRING, self@));
        out
    }
}

impl RespEncoder for SimpleError {
    open spec fn wire(&self) -> Seq<u8> {
        text_wire(SIMPLE_ERROR, self@)
    }

    fn encode(self) -> (out: Vec<u8>)
        ensures
            out@ == text_wire(SIMPLE_ERROR, self@),
    {
        let mut out: Vec<u8> = Vec::new();
        push_text(&mut out, SIMPLE_ERROR, self.0.as_str());
        assert(out@ =~= text_wire(SIMPLE_ERROR, self@));
        out
    }
}

impl RespEncoder for RespDouble {
    open spec fn wire(&self) -> Seq<u8> {
        text_wire(DOUBLE, self@)
    }

    fn encode(self) -> (out: Vec<u8>)
        ensures
            out@ == text_wire(DOUBLE, self@),
    {
        let mut out: Vec<u8> = Vec::new();
        push_text(&mut out, DOUBLE, self.0.as_str());
        assert(out@ =~= text_wire(DOUBLE, self@));
        out
    }
}

impl RespEncoder for i64 {
    open spec fn wire(&self) -> Seq<u8> {
        integer_wire(*self)
    }

    fn encode(self) -> (out: Vec<u8>)
        ensures
            out@ == integer_wire(self),
    {
        let mut out: Vec<u8> = Vec::new();
        push_integer(&mut out, self);
        assert(out@ =~= integer_wire(self));
        out
    }
}

impl RespEncoder for bool {
    open spec fn wire(&self) -> Seq<u8> {
        boolean_wire(*self)
    }

    fn encode(self) -> (out: Vec<u8>)
        ensures
            out@ == boolean_wire(self),
    {
        let mut out: Vec<u8> = Vec::new();
        push_boolean(&mut out, self);
        assert(out@ =~= boolean_wire(self));
        out
    }
}

impl RespEncoder for BulkString {
    open spec fn wire(&self) -> Seq<u8> {
        bulk_string_wire(self@)
    }

    fn encode(self) -> (out: Vec<u8>)
        ensures
            out@ == bulk_string_wire(self@),
    {
        let mut out: Vec<u8> = Vec::new();
        match &self.0 {
            Some(data) => push_bulk(&mut out, data.as_slice()),
            None => push_null_bulk(&mut out),
        }
        assert(out@ =~= bulk_string_wire(self@));
        out
    }
}

impl RespEncoder for NullBulkString {
    open spec fn wire(&self) -> Seq<u8> {
        null_bulk_wire()
    }

    fn encode(self) -> (out: Vec<u8>)
        ensures
            out@ == null_bulk_wire(),
    {
        let mut out: Vec<u8> = Vec::new();
        push_null_bulk(&mut out);
        assert(out@ =~= null_bulk_wire());
        out
    }
}

impl RespEncoder for RespNullArray {
    open spec fn wire(&self) -> Seq<u8> {
        null_array_wire()
    }

    fn encode(self) -> (out: Vec<u8>)
        ensures
            out@ == null_array_wire(),
    {
        let mut out: Vec<u8> = Vec::new();
        push_null_array(&mut out);
        assert(out@ =~= null_array_wire());
        out
    }
}

impl RespEncoder for RespNull {
    open spec fn wire(&self) -> Seq<u8> {
        null_wire()
    }

    fn encode(self) -> (out: Vec<u8>)
        ensures
            out@ == null_wire(),
    {
        let mut out: Vec<u8> = Vec::new();
        push_null(&mut out);
        assert(out@ =~= null_wire());
        out
    }
}

impl RespEncoder for RespArray {
    open spec fn wire(&self) -> Seq<u8> {
        array_wire(self@)
    }

    fn encode(self) -> (out: Vec<u8>)
        ensures
            out@ == array_wire(self@),
    {
        let mut out: Vec<u8> = Vec::new();
        match &self.0 {
            Some(items) => {
                push_header(&mut out, ARRAY, items.len());
                write_items(items, &mut out);
            },
            None => push_null_array(&mut out),
        }
        assert(out@ =~= array_wire(self@));
        out
    }
}

impl RespEncoder for RespSet {
    open spec fn wire(&self) -> Seq<u8> {
        frame_wire(FrameView::Members(self@))
    }

    fn encode(self) -> (out: Vec<u8>)
        ensures
            out@ == frame_wire(FrameView::Members(self@)),
    {
        let mut out: Vec<u8> = Vec::new();
        push_header(&mut out, MEMBERS, self.0.len());
        write_items(&self.0, &mut out);
        assert(out@ =~= frame_wire(FrameView::Members(self@)));
        out
    }
}

impl RespEncoder for RespMap {
    open spec fn wire(&self) -> Seq<u8> {
        frame_wire(FrameView::Mapping(self@))
    }

    fn encode(self) -> (out: Vec<u8>)
        ensures
            out@ == frame_wire(FrameView::Mapping(self@)),
    {
        let mut out: Vec<u8> = Vec::new();
        write_map(&self, &mut out);
        assert(out@ =~= frame_wire(FrameView::Mapping(self@)));
        out
    }
}

} // verus!
