//! The frame types and their mathematical views.

use crate::map::{insert_all, lemma_insert_all_of_sorted, sorted_keys, RespMap};
use vstd::prelude::*;
use vstd::slice::slice_to_vec;
use vstd::utf8::encode_utf8;

verus! {

/// `+text\r\n`
#[derive(Debug, Clone, PartialEq, Eq, PartialOrd)]
pub struct SimpleString(pub String);

/// `-text\r\n`
#[derive(Debug, Clone, PartialEq, Eq, PartialOrd)]
pub struct SimpleError(pub String);

/// `$<length>\r\n<data>\r\n`: a string of any bytes, or the null bulk string,
/// `$-1\r\n`, which is `None`. The bulk string without bytes, `$0\r\n\r\n`, is
/// `Some` of no bytes, and another value.
#[derive(Debug, Clone, PartialEq, Eq, PartialOrd)]
pub struct BulkString(pub Option<Vec<u8>>);

/// `_\r\n`
#[derive(Debug, Clone, PartialEq, Eq, PartialOrd)]
pub struct RespNull;

/// `*<count>\r\n<frame>...`: frames in a row, or the null array, `*-1\r\n`,
/// which is `None`. The array without frames, `*0\r\n`, is `Some` of no frames,
/// and another value.
#[derive(Debug, PartialEq, Eq, PartialOrd)]
pub struct RespArray(pub Option<Vec<RespFrame>>);

/// `*-1\r\n`
#[derive(Debug, Clone, PartialEq, Eq, PartialOrd)]
pub struct RespNullArray;

/// `$-1\r\n`
#[derive(Debug, Clone, PartialEq, Eq, PartialOrd)]
pub struct NullBulkString;

/// `~<count>\r\n<frame>...`: frames in a row, kept in their order.
#[derive(Debug, PartialEq, Eq, PartialOrd)]
pub struct RespSet(pub Vec<RespFrame>);

/// `,<text>\r\n`: a double in its decimal text, carried as written. Which
/// number the text denotes, and whether it denotes one, is left to the caller.
#[derive(Debug, Clone, PartialEq, Eq, PartialOrd)]
pub struct RespDouble(pub String);

/// Any value of the protocol.
///
/// The null bulk string can be written in two ways, as `NullBulkString` and as
/// `BulkString` of `None`, and the null array likewise. Both have one view and one
/// wire form, and decoding a frame gives the first.
#[derive(Debug, PartialEq, Eq, PartialOrd)]
pub enum RespFrame {
    SimpleString(SimpleString),
    Error(SimpleError),
    Integer(i64),
    BulkString(BulkString),
    NullBulkString(NullBulkString),
    Array(RespArray),
    NullArray(RespNullArray),
    Null(RespNull),
    Boolean(bool),
    Double(RespDouble),
    Mapping(RespMap),
    Members(RespSet),
}

/// What a frame is, as a mathematical value.
pub enum FrameView {
    SimpleString(Seq<char>),
    Error(Seq<char>),
    Integer(i64),
    BulkString(Seq<u8>),
    NullBulkString,
    Array(Seq<FrameView>),
    NullArray,
    Null,
    Boolean(bool),
    Double(Seq<char>),
    Mapping(Seq<(Seq<char>, FrameView)>),
    Members(Seq<FrameView>),
}

impl View for SimpleString {
    type V = Seq<char>;

    open spec fn view(&self) -> Seq<char> {
        self.0@
    }
}

impl View for SimpleError {
    type V = Seq<char>;

    open spec fn view(&self) -> Seq<char> {
        self.0@
    }
}

impl View for BulkString {
    type V = Option<Seq<u8>>;

    open spec fn view(&self) -> Option<Seq<u8>> {
        match self.0 {
            Some(data) => Some(data@),
            None => None,
        }
    }
}

impl View for RespNull {
    type V = ();

    open spec fn view(&self) -> () {
        ()
    }
}

impl View for RespNullArray {
    type V = ();

    open spec fn view(&self) -> () {
        ()
    }
}

impl View for NullBulkString {
    type V = ();

    open spec fn view(&self) -> () {
        ()
    }
}

impl View for RespDouble {
    type V = Seq<char>;

    open spec fn view(&self) -> Seq<char> {
        self.0@
    }
}

/// The views of stored frames.
pub open spec fn frame_views(stored: Seq<RespFrame>) -> Seq<FrameView>
    decreases stored,
{
    Seq::new(
        stored.len(),
        |i: int|
            if 0 <= i < stored.len() {
                stored[i].view()
            } else {
                FrameView::Null
            },
    )
}

impl View for RespArray {
    type V = Option<Seq<FrameView>>;

    open spec fn view(&self) -> Option<Seq<FrameView>>
        decreases self,
    {
        match self.0 {
            Some(items) => Some(frame_views(items@)),
            None => None,
        }
    }
}

impl View for RespSet {
    type V = Seq<FrameView>;

    open spec fn view(&self) -> Seq<FrameView>
        decreases self,
    {
        frame_views(self.0@)
    }
}

impl View for RespFrame {
    type V = FrameView;

    open spec fn view(&self) -> FrameView
        decreases self,
    {
        match self {
            RespFrame::SimpleString(s) => FrameView::SimpleString(s@),
            RespFrame::Error(e) => FrameView::Error(e@),
            RespFrame::Integer(i) => FrameView::Integer(*i),
            RespFrame::BulkString(b) => match b@ {
                Some(data) => FrameView::BulkString(data),
                None => FrameView::NullBulkString,
            },
            RespFrame::NullBulkString(_) => FrameView::NullBulkString,
            RespFrame::Array(a) => match a.view() {
                Some(items) => FrameView::Array(items),
                None => FrameView::NullArray,
            },
            RespFrame::NullArray(_) => FrameView::NullArray,
            RespFrame::Null(_) => FrameView::Null,
            RespFrame::Boolean(b) => FrameView::Boolean(*b),
            RespFrame::Double(d) => FrameView::Double(d@),
            RespFrame::Mapping(m) => FrameView::Mapping(m.view()),
            RespFrame::Members(s) => FrameView::Members(s.view()),
        }
    }
}

impl SimpleString {
    /// A simple string with the text that `value` converts into.
    pub fn new<T: Into<String>>(value: T) -> (s: Self)
        ensures
            call_ensures(T::into, (value,), s.0),
    {
        SimpleString(value.into())
    }
}

impl SimpleError {
    /// A simple error with the text that `value` converts into.
    pub fn new<T: Into<String>>(value: T) -> (s: Self)
        ensures
            call_ensures(T::into, (value,), s.0),
    {
        SimpleError(value.into())
    }
}

impl RespDouble {
    /// A double with the decimal text that `value` converts into.
    pub fn new<T: Into<String>>(value: T) -> (s: Self)
        ensures
            call_ensures(T::into, (value,), s.0),
    {
        RespDouble(value.into())
    }
}

impl BulkString {
    /// A bulk string with the bytes that `s` converts into.
    pub fn new<T: Into<Vec<u8>>>(s: T) -> (b: Self)
        ensures
            b.0 matches Some(data) && call_ensures(T::into, (s,), data),
    {
        BulkString(Some(s.into()))
    }
}

impl RespArray {
    /// An array of the frames that `s` converts into.
    pub fn new<T: Into<Vec<RespFrame>>>(s: T) -> (a: Self)
        ensures
            a.0 matches Some(items) && call_ensures(T::into, (s,), items),
    {
        RespArray(Some(s.into()))
    }

    /// How many frames the array has; the null array has none.
    pub fn len(&self) -> (n: usize)
        ensures
            n == match self@ {
                Some(items) => items.len(),
                None => 0,
            },
    {
        match &self.0 {
            Some(items) => items.len(),
            None => 0,
        }
    }
}

impl RespSet {
    /// A set of the frames that `s` converts into, in their order.
    pub fn new<T: Into<Vec<RespFrame>>>(s: T) -> (a: Self)
        ensures
            call_ensures(T::into, (s,), a.0),
    {
        RespSet(s.into())
    }
}

impl From<&str> for SimpleString {
    fn from(s: &str) -> (r: Self)
        ensures
            r@ == s@,
    {
        SimpleString(s.to_owned())
    }
}

impl vstd::std_specs::convert::FromSpecImpl<&str> for SimpleString {
    open spec fn obeys_from_spec() -> bool {
        false
    }

    open spec fn from_spec(s: &str) -> Self {
        arbitrary()
    }
}

impl From<&str> for SimpleError {
    fn from(s: &str) -> (r: Self)
        ensures
            r@ == s@,
    {
        SimpleError(s.to_owned())
    }
}

impl vstd::std_specs::convert::FromSpecImpl<&str> for SimpleError {
    open spec fn obeys_from_spec() -> bool {
        false
    }

    open spec fn from_spec(s: &str) -> Self {
        arbitrary()
    }
}

impl From<&str> for BulkString {
    fn from(s: &str) -> (r: Self)
        ensures
            r@ == Some(encode_utf8(s@)),
    {
        BulkString(Some(slice_to_vec(s.as_bytes())))
    }
}

impl vstd::std_specs::convert::FromSpecImpl<&str> for BulkString {
    open spec fn obeys_from_spec() -> bool {
        false
    }

    open spec fn from_spec(s: &str) -> Self {
        arbitrary()
    }
}

impl From<&[u8]> for BulkString {
    fn from(s: &[u8]) -> (r: Self)
        ensures
            r@ == Some(s@),
    {
        BulkString(Some(slice_to_vec(s)))
    }
}

impl vstd::std_specs::convert::FromSpecImpl<&[u8]> for BulkString {
    open spec fn obeys_from_spec() -> bool {
        false
    }

    open spec fn from_spec(s: &[u8]) -> Self {
        arbitrary()
    }
}

impl From<String> for BulkString {
    fn from(s: String) -> (r: Self)
        ensures
            r@ == Some(encode_utf8(s@)),
    {
        BulkString(Some(slice_to_vec(s.as_str().as_bytes())))
    }
}

impl vstd::std_specs::convert::FromSpecImpl<String> for BulkString {
    open spec fn obeys_from_spec() -> bool {
        false
    }

    open spec fn from_spec(s: String) -> Self {
        arbitrary()
    }
}

impl<const N: usize> From<&[u8; N]> for BulkString {
    fn from(s: &[u8; N]) -> (r: Self)
        ensures
            r@ == Some(s@),
    {
        BulkString(Some(slice_to_vec(s.as_slice())))
    }
}

impl<const N: usize> vstd::std_specs::convert::FromSpecImpl<&[u8; N]> for BulkString {
    open spec fn obeys_from_spec() -> bool {
        false
    }

    open spec fn from_spec(s: &[u8; N]) -> Self {
        arbitrary()
    }
}

impl From<&str> for RespFrame {
    fn from(s: &str) -> (r: Self)
        ensures
            r@ == FrameView::SimpleString(s@),
    {
        RespFrame::SimpleString(SimpleString(s.to_owned()))
    }
}

impl vstd::std_specs::convert::FromSpecImpl<&str> for RespFrame {
    open spec fn obeys_from_spec() -> bool {
        false
    }

    open spec fn from_spec(s: &str) -> Self {
        arbitrary()
    }
}

impl From<&[u8]> for RespFrame {
    fn from(s: &[u8]) -> (r: Self)
        ensures
            r@ == FrameView::BulkString(s@),
    {
        RespFrame::BulkString(BulkString(Some(slice_to_vec(s))))
    }
}

impl vstd::std_specs::convert::FromSpecImpl<&[u8]> for RespFrame {
    open spec fn obeys_from_spec() -> bool {
        false
    }

    open spec fn from_spec(s: &[u8]) -> Self {
        arbitrary()
    }
}

impl<const N: usize> From<&[u8; N]> for RespFrame {
    fn from(s: &[u8; N]) -> (r: Self)
        ensures
            r@ == FrameView::BulkString(s@),
    {
        RespFrame::BulkString(BulkString(Some(slice_to_vec(s.as_slice()))))
    }
}

impl<const N: usize> vstd::std_specs::convert::FromSpecImpl<&[u8; N]> for RespFrame {
    open spec fn obeys_from_spec() -> bool {
        false
    }

    open spec fn from_spec(s: &[u8; N]) -> Self {
        arbitrary()
    }
}

impl From<SimpleString> for RespFrame {
    fn from(s: SimpleString) -> (r: Self)
        ensures
            r == RespFrame::SimpleString(s),
    {
        RespFrame::SimpleString(s)
    }
}

impl vstd::std_specs::convert::FromSpecImpl<SimpleString> for RespFrame {
    open spec fn obeys_from_spec() -> bool {
        true
    }

    open spec fn from_spec(s: SimpleString) -> Self {
        RespFrame::SimpleString(s)
    }
}

impl From<SimpleError> for RespFrame {
    fn from(s: SimpleError) -> (r: Self)
        ensures
            r == RespFrame::Error(s),
    {
        RespFrame::Error(s)
    }
}

impl vstd::std_specs::convert::FromSpecImpl<SimpleError> for RespFrame {
    open spec fn obeys_from_spec() -> bool {
        true
    }

    open spec fn from_spec(s: SimpleError) -> Self {
        RespFrame::Error(s)
    }
}

impl From<i64> for RespFrame {
    fn from(s: i64) -> (r: Self)
        ensures
            r == RespFrame::Integer(s),
    {
        RespFrame::Integer(s)
    }
}

impl vstd::std_specs::convert::FromSpecImpl<i64> for RespFrame {
    open spec fn obeys_from_spec() -> bool {
        true
    }

    open spec fn from_spec(s: i64) -> Self {
        RespFrame::Integer(s)
    }
}

impl From<BulkString> for RespFrame {
    fn from(s: BulkString) -> (r: Self)
        ensures
            r == RespFrame::BulkString(s),
    {
        RespFrame::BulkString(s)
    }
}

impl vstd::std_specs::convert::FromSpecImpl<BulkString> for RespFrame {
    open spec fn obeys_from_spec() -> bool {
        true
    }

    open spec fn from_spec(s: BulkString) -> Self {
        RespFrame::BulkString(s)
    }
}

impl From<NullBulkString> for RespFrame {
    fn from(s: NullBulkString) -> (r: Self)
        ensures
            r == RespFrame::NullBulkString(s),
    {
        RespFrame::NullBulkString(s)
    }
}

impl vstd::std_specs::convert::FromSpecImpl<NullBulkString> for RespFrame {
    open spec fn obeys_from_spec() -> bool {
        true
    }

    open spec fn from_spec(s: NullBulkString) -> Self {
        RespFrame::NullBulkString(s)
    }
}

impl From<RespArray> for RespFrame {
    fn from(s: RespArray) -> (r: Self)
        ensures
            r == RespFrame::Array(s),
    {
        RespFrame::Array(s)
    }
}

impl vstd::std_specs::convert::FromSpecImpl<RespArray> for RespFrame {
    open spec fn obeys_from_spec() -> bool {
        true
    }

    open spec fn from_spec(s: RespArray) -> Self {
        RespFrame::Array(s)
    }
}

impl From<RespNullArray> for RespFrame {
    fn from(s: RespNullArray) -> (r: Self)
        ensures
            r == RespFrame::NullArray(s),
    {
        RespFrame::NullArray(s)
    }
}

impl vstd::std_specs::convert::FromSpecImpl<RespNullArray> for RespFrame {
    open spec fn obeys_from_spec() -> bool {
        true
    }

    open spec fn from_spec(s: RespNullArray) -> Self {
        RespFrame::NullArray(s)
    }
}

impl From<RespNull> for RespFrame {
    fn from(s: RespNull) -> (r: Self)
        ensures
            r == RespFrame::Null(s),
    {
        RespFrame::Null(s)
    }
}

impl vstd::std_specs::convert::FromSpecImpl<RespNull> for RespFrame {
    open spec fn obeys_from_spec() -> bool {
        true
    }

    open spec fn from_spec(s: RespNull) -> Self {
        RespFrame::Null(s)
    }
}

impl From<bool> for RespFrame {
    fn from(s: bool) -> (r: Self)
        ensures
            r == RespFrame::Boolean(s),
    {
        RespFrame::Boolean(s)
    }
}

impl vstd::std_specs::convert::FromSpecImpl<bool> for RespFrame {
    open spec fn obeys_from_spec() -> bool {
        true
    }

    open spec fn from_spec(s: bool) -> Self {
        RespFrame::Boolean(s)
    }
}

impl From<RespDouble> for RespFrame {
    fn from(s: RespDouble) -> (r: Self)
        ensures
            r == RespFrame::Double(s),
    {
        RespFrame::Double(s)
    }
}

impl vstd::std_specs::convert::FromSpecImpl<RespDouble> for RespFrame {
    open spec fn obeys_from_spec() -> bool {
        true
    }

    open spec fn from_spec(s: RespDouble) -> Self {
        RespFrame::Double(s)
    }
}

impl From<RespMap> for RespFrame {
    fn from(s: RespMap) -> (r: Self)
        ensures
            r == RespFrame::Mapping(s),
    {
        RespFrame::Mapping(s)
    }
}

impl vstd::std_specs::convert::FromSpecImpl<RespMap> for RespFrame {
    open spec fn obeys_from_spec() -> bool {
        true
    }

    open spec fn from_spec(s: RespMap) -> Self {
        RespFrame::Mapping(s)
    }
}

impl From<RespSet> for RespFrame {
    fn from(s: RespSet) -> (r: Self)
        ensures
            r == RespFrame::Members(s),
    {
        RespFrame::Members(s)
    }
}

impl vstd::std_specs::convert::FromSpecImpl<RespSet> for RespFrame {
    open spec fn obeys_from_spec() -> bool {
        true
    }

    open spec fn from_spec(s: RespSet) -> Self {
        RespFrame::Members(s)
    }
}

impl core::ops::Deref for SimpleString {
    type Target = String;

    fn deref(&self) -> (r: &String)
        ensures
            *r == self.0,
    {
        &self.0
    }
}

impl core::ops::Deref for SimpleError {
    type Target = String;

    fn deref(&self) -> (r: &String)
        ensures
            *r == self.0,
    {
        &self.0
    }
}

impl core::ops::Deref for RespDouble {
    type Target = String;

    fn deref(&self) -> (r: &String)
        ensures
            *r == self.0,
    {
        &self.0
    }
}

impl core::ops::Deref for BulkString {
    type Target = Option<Vec<u8>>;

    fn deref(&self) -> (r: &Option<Vec<u8>>)
        ensures
            *r == self.0,
    {
        &self.0
    }
}

impl core::ops::Deref for RespArray {
    type Target = Option<Vec<RespFrame>>;

    fn deref(&self) -> (r: &Option<Vec<RespFrame>>)
        ensures
            *r == self.0,
    {
        &self.0
    }
}

impl core::ops::Deref for RespSet {
    type Target = Vec<RespFrame>;

    fn deref(&self) -> (r: &Vec<RespFrame>)
        ensures
            *r == self.0,
    {
        &self.0
    }
}

impl AsRef<[u8]> for BulkString {
    /// The bytes; none for the null bulk string.
    fn as_ref(&self) -> (r: &[u8])
        ensures
            r@ == match self@ {
                Some(data) => data,
                None => Seq::empty(),
            },
    {
        match &self.0 {
            Some(data) => data.as_slice(),
            None => {
                let nothing: &[u8] = &[];
                assert(nothing@ =~= Seq::<u8>::empty());
                nothing
            },
        }
    }
}

/// A copy of a frame, with all that it holds.
pub fn clone_frame(frame: &RespFrame) -> (r: RespFrame)
    ensures
        r@ == frame@,
    decreases frame, 0nat,
{
    match frame {
        RespFrame::SimpleString(s) => RespFrame::SimpleString(SimpleString(s.0.clone())),
        RespFrame::Error(e) => RespFrame::Error(SimpleError(e.0.clone())),
        RespFrame::Integer(i) => RespFrame::Integer(*i),
        RespFrame::BulkString(b) => match &b.0 {
            Some(data) => RespFrame::BulkString(BulkString(Some(slice_to_vec(data.as_slice())))),
            None => RespFrame::BulkString(BulkString(None)),
        },
        RespFrame::NullBulkString(_) => RespFrame::NullBulkString(NullBulkString),
        RespFrame::Array(a) => match &a.0 {
            Some(items) => RespFrame::Array(RespArray(Some(clone_frames(items)))),
            None => RespFrame::Array(RespArray(None)),
        },
        RespFrame::NullArray(_) => RespFrame::NullArray(RespNullArray),
        RespFrame::Null(_) => RespFrame::Null(RespNull),
        RespFrame::Boolean(b) => RespFrame::Boolean(*b),
        RespFrame::Double(d) => RespFrame::Double(RespDouble(d.0.clone())),
        RespFrame::Mapping(m) => RespFrame::Mapping(clone_map(m)),
        RespFrame::Members(s) => RespFrame::Members(RespSet(clone_frames(&s.0))),
    }
}

/// Copies of frames, in their order.
pub fn clone_frames(items: &Vec<RespFrame>) -> (r: Vec<RespFrame>)
    ensures
        frame_views(r@) == frame_views(items@),
    decreases items, 1nat,
{
    let mut copies: Vec<RespFrame> = Vec::new();
    let n: usize = items.len();
    let mut i: usize = 0;
    while i < n
        invariant
            i <= n,
            n == items@.len(),
            copies@.len() == i,
            forall|j: int| 0 <= j < i ==> copies@[j]@ == items@[j]@,
        decreases n - i,
    {
        copies.push(clone_frame(&items[i]));
        i += 1;
    }
    assert(frame_views(copies@) =~= frame_views(items@));
    copies
}

/// A copy of a map, with all that it holds.
pub fn clone_map(map: &RespMap) -> (r: RespMap)
    ensures
        r@ == map@,
    decreases map, 1nat,
{
    let mut copy: RespMap = RespMap::new();
    let n: usize = map.len();
    let mut i: usize = 0;
    proof {
        lemma_insert_all_of_sorted(map@, 0);
    }
    while i < n
        invariant
            i <= n,
            n == map@.len(),
            sorted_keys(map@),
            copy@ == insert_all(map@, i as nat),
        decreases n - i,
    {
        let (key, value) = map.entry(i);
        copy.insert(key.clone(), clone_frame(value));
        i += 1;
    }
    proof {
        lemma_insert_all_of_sorted(map@, n as nat);
        assert(map@.take(n as int) =~= map@);
    }
    copy
}

impl Clone for RespFrame {
    fn clone(&self) -> (r: Self)
        ensures
            r@ == self@,
    {
        clone_frame(self)
    }
}

impl Clone for RespArray {
    fn clone(&self) -> (r: Self)
        ensures
            r@ == self@,
    {
        match &self.0 {
            Some(items) => RespArray(Some(clone_frames(items))),
            None => RespArray(None),
        }
    }
}

impl Clone for RespSet {
    fn clone(&self) -> (r: Self)
        ensures
            r@ == self@,
    {
        RespSet(clone_frames(&self.0))
    }
}

impl Clone for RespMap {
    fn clone(&self) -> (r: Self)
        ensures
            r@ == self@,
    {
        clone_map(self)
    }
}

impl Default for RespMap {
    fn default() -> (m: Self)
        ensures
            m@ == Seq::<(Seq<char>, FrameView)>::empty(),
    {
        RespMap::new()
    }
}

} // verus!
