//! Commands on hashes: reading a command out of the array that a client sent, and
//! building the reply from what the store holds.

use crate::error::utf8_text;
use crate::frame::{
    clone_frame, frame_views, BulkString, FrameView, RespArray, RespFrame, RespNull, SimpleString,
};
use crate::map::{entry_views, key_less, rank_after, sort_all};
use vstd::prelude::*;
use vstd::slice::slice_to_vec;
use vstd::utf8::{decode_utf8, encode_utf8, valid_utf8};

verus! {

/// Why an array is not the command asked for.
#[derive(Debug, PartialEq, Eq)]
pub enum CommandError {
    /// The array does not start with the command's name, or is too short to be
    /// the command.
    InvalidCommand(String),
    /// The number or the type of the arguments is wrong.
    InvalidArgument(String),
    /// A key or a field is not UTF-8.
    Utf8Error(core::str::Utf8Error),
}

/// A `CommandError` as a mathematical value: the variant and its text. What a
/// `Utf8Error` holds is left out.
pub enum CommandErrorView {
    InvalidCommand(Seq<char>),
    InvalidArgument(Seq<char>),
    Utf8Error,
}

impl View for CommandError {
    type V = CommandErrorView;

    open spec fn view(&self) -> CommandErrorView {
        match self {
            CommandError::InvalidCommand(text) => CommandErrorView::InvalidCommand(text@),
            CommandError::InvalidArgument(text) => CommandErrorView::InvalidArgument(text@),
            CommandError::Utf8Error(_) => CommandErrorView::Utf8Error,
        }
    }
}

/// `hget key field`
#[derive(Debug)]
pub struct HGet {
    pub key: String,
    pub field: String,
}

/// `hset key field value`
#[derive(Debug)]
pub struct HSet {
    pub key: String,
    pub field: String,
    pub value: RespFrame,
}

/// `hgetall key`
#[derive(Debug)]
pub struct HGetAll {
    pub key: String,
    pub sort: bool,
}

/// `hmget hash field...`
#[derive(Debug)]
pub struct HMGet {
    pub hash: String,
    pub fields: Vec<String>,
}

/// A letter of ASCII in lower case, any other byte as it is.
pub open spec fn ascii_lower(b: u8) -> u8 {
    if 65 <= b <= 90 {
        (b + 32) as u8
    } else {
        b
    }
}

/// Whether `arg` spells `name`, whatever the case of its letters. The name is
/// taken as written.
pub open spec fn spells(arg: Seq<u8>, name: Seq<u8>) -> bool {
    arg.len() == name.len() && forall|i: int| 0 <= i < arg.len() ==> ascii_lower(arg[i]) == name[i]
}

/// A command of `n_args` arguments: an array of that many frames and one more,
/// the first a bulk string that spells the command's name.
pub open spec fn command_check(args: Seq<FrameView>, name: Seq<u8>, n_args: nat) -> Result<
    (),
    CommandErrorView,
> {
    if args.len() != n_args + 1 {
        Err(CommandErrorView::InvalidArgument("wrong number of arguments"@))
    } else {
        match args[0] {
            FrameView::BulkString(b) => if spells(b, name) {
                Ok(())
            } else {
                Err(CommandErrorView::InvalidCommand("unexpected command name"@))
            },
            _ => Err(CommandErrorView::InvalidCommand("a command starts with a bulk string"@)),
        }
    }
}

/// The text of an argument: it must be a bulk string, and UTF-8.
pub open spec fn argument_text(arg: FrameView) -> Result<Seq<char>, CommandErrorView> {
    match arg {
        FrameView::BulkString(b) => if valid_utf8(b) {
            Ok(decode_utf8(b))
        } else {
            Err(CommandErrorView::Utf8Error)
        },
        _ => Err(CommandErrorView::InvalidArgument("Invalid key"@)),
    }
}

/// The texts of the `n` arguments from index `from` on. The first argument that
/// has no text decides the error.
pub open spec fn argument_texts(args: Seq<FrameView>, from: int, n: nat) -> Result<
    Seq<Seq<char>>,
    CommandErrorView,
>
    decreases n,
{
    if n == 0 {
        Ok(Seq::empty())
    } else {
        match argument_texts(args, from, (n - 1) as nat) {
            Err(k) => Err(k),
            Ok(texts) => match argument_text(args[from + n - 1]) {
                Err(k) => Err(k),
                Ok(text) => Ok(texts.push(text)),
            },
        }
    }
}

/// Whether a bulk string spells a command's name.
fn spells_name(arg: &[u8], name: &[u8]) -> (r: bool)
    ensures
        r == spells(arg@, name@),
{
    if arg.len() != name.len() {
        return false;
    }
    let n: usize = arg.len();
    let mut i: usize = 0;
    while i < n
        invariant
            i <= n,
            n == arg@.len(),
            n == name@.len(),
            forall|j: int| 0 <= j < i ==> ascii_lower(arg@[j]) == name@[j],
        decreases n - i,
    {
        let b: u8 = arg[i];
        let lower: u8 = if 65 <= b && b <= 90 {
            b + 32
        } else {
            b
        };
        if lower != name[i] {
            return false;
        }
        i += 1;
    }
    true
}

/// The frames of an array; the null array has none.
pub open spec fn frames_of(array: Option<Seq<FrameView>>) -> Seq<FrameView> {
    match array {
        Some(items) => items,
        None => Seq::empty(),
    }
}

/// The frame at a place of an array.
fn frame_at(value: &RespArray, i: usize) -> (frame: &RespFrame)
    requires
        i < frames_of(value@).len(),
    ensures
        frame@ == frames_of(value@)[i as int],
{
    match &value.0 {
        Some(items) => &items[i],
        None => vstd::pervasive::unreached(),
    }
}

/// Whether a frame is a bulk string, the null one not counted.
fn is_bulk(frame: &RespFrame) -> (r: bool)
    ensures
        r == (frame@ is BulkString),
{
    match frame {
        RespFrame::BulkString(BulkString(Some(_))) => true,
        _ => false,
    }
}

/// Checks that an array is the command `name` with `n_args` arguments.
pub fn validate_command(value: &RespArray, name: &str, n_args: usize) -> (r: Result<
    (),
    CommandError,
>)
    ensures
        match command_check(frames_of(value@), encode_utf8(name@), n_args as nat) {
            Ok(_) => r is Ok,
            Err(k) => r matches Err(e) && e@ == k,
        },
{
    let len: usize = value.len();
    if len == 0 || len - 1 != n_args {
        return Err(CommandError::InvalidArgument("wrong number of arguments".to_owned()));
    }
    match frame_at(value, 0) {
        RespFrame::BulkString(BulkString(Some(cmd))) => {
            if spells_name(cmd.as_slice(), name.as_bytes()) {
                Ok(())
            } else {
                Err(CommandError::InvalidCommand("unexpected command name".to_owned()))
            }
        },
        _ => Err(
            CommandError::InvalidCommand("a command starts with a bulk string".to_owned()),
        ),
    }
}

/// The text of an argument.
fn text_of(arg: &RespFrame) -> (r: Result<String, CommandError>)
    ensures
        match argument_text(arg@) {
            Ok(t) => r matches Ok(s) && s@ == t,
            Err(k) => r matches Err(e) && e@ == k,
        },
{
    match arg {
        RespFrame::BulkString(BulkString(Some(data))) => match utf8_text(data.as_slice()) {
            Ok(text) => Ok(text.to_owned()),
            Err(e) => Err(CommandError::Utf8Error(e)),
        },
        _ => Err(CommandError::InvalidArgument("Invalid key".to_owned())),
    }
}

/// What `hget` reads from an array: the key and the field. Both must be bulk
/// strings, and then both UTF-8.
pub open spec fn hget_of(args: Seq<FrameView>) -> Result<(Seq<char>, Seq<char>), CommandErrorView> {
    match command_check(args, encode_utf8("hget"@), 2) {
        Err(k) => Err(k),
        Ok(_) => if !(args[1] is BulkString && args[2] is BulkString) {
            Err(CommandErrorView::InvalidArgument("Invalid key or field"@))
        } else {
            match argument_text(args[1]) {
                Err(k) => Err(k),
                Ok(key) => match argument_text(args[2]) {
                    Err(k) => Err(k),
                    Ok(field) => Ok((key, field)),
                },
            }
        },
    }
}

/// What `hgetall` reads from an array: the key.
pub open spec fn hgetall_of(args: Seq<FrameView>) -> Result<Seq<char>, CommandErrorView> {
    match command_check(args, encode_utf8("hgetall"@), 1) {
        Err(k) => Err(k),
        Ok(_) => argument_text(args[1]),
    }
}

/// What `hset` reads from an array: the key, the field, and the value, which is
/// any frame.
pub open spec fn hset_of(args: Seq<FrameView>) -> Result<
    (Seq<char>, Seq<char>, FrameView),
    CommandErrorView,
> {
    match command_check(args, encode_utf8("hset"@), 3) {
        Err(k) => Err(k),
        Ok(_) => if !(args[1] is BulkString && args[2] is BulkString) {
            Err(CommandErrorView::InvalidArgument("Invalid key, field or value"@))
        } else {
            match argument_text(args[1]) {
                Err(k) => Err(k),
                Ok(key) => match argument_text(args[2]) {
                    Err(k) => Err(k),
                    Ok(field) => Ok((key, field, args[3])),
                },
            }
        },
    }
}

/// What `hmget` reads from an array of at least three frames: the hash and the
/// fields, one or more. A shorter array is refused, with its length in the text.
pub open spec fn hmget_of(args: Seq<FrameView>) -> Result<
    (Seq<char>, Seq<Seq<char>>),
    CommandErrorView,
> {
    if args.len() == 0 {
        Err(CommandErrorView::InvalidCommand("hmget does not accept null array"@))
    } else if args.len() == 1 {
        Err(CommandErrorView::InvalidCommand("hmget command must have at least 2 argument, got 1"@))
    } else if args.len() == 2 {
        Err(CommandErrorView::InvalidCommand("hmget command must have at least 2 argument, got 2"@))
    } else {
        match command_check(args, encode_utf8("hmget"@), (args.len() - 1) as nat) {
            Err(k) => Err(k),
            Ok(_) => match argument_texts(args, 1, (args.len() - 1) as nat) {
                Err(k) => Err(k),
                Ok(texts) => Ok((texts[0], texts.skip(1))),
            },
        }
    }
}

/// Once an argument has no text, asking for more arguments changes nothing.
pub proof fn lemma_argument_texts_fails(args: Seq<FrameView>, from: int, failed: nat, n: nat)
    requires
        argument_texts(args, from, failed) is Err,
        failed <= n,
    ensures
        argument_texts(args, from, n) == argument_texts(args, from, failed),
    decreases n,
{
    if failed < n {
        lemma_argument_texts_fails(args, from, failed, (n - 1) as nat);
    }
}

impl TryFrom<RespArray> for HGet {
    type Error = CommandError;

    fn try_from(value: RespArray) -> (r: Result<Self, CommandError>)
        ensures
            match hget_of(frames_of(value@)) {
                Ok((key, field)) => r matches Ok(c) && c.key@ == key && c.field@ == field,
                Err(k) => r matches Err(e) && e@ == k,
            },
    {
        match validate_command(&value, "hget", 2) {
            Ok(_) => {},
            Err(e) => {
                return Err(e);
            },
        }
        if !is_bulk(frame_at(&value, 1)) || !is_bulk(frame_at(&value, 2)) {
            return Err(CommandError::InvalidArgument("Invalid key or field".to_owned()));
        }
        let key: String = match text_of(frame_at(&value, 1)) {
            Ok(text) => text,
            Err(e) => {
                return Err(e);
            },
        };
        let field: String = match text_of(frame_at(&value, 2)) {
            Ok(text) => text,
            Err(e) => {
                return Err(e);
            },
        };
        Ok(HGet { key, field })
    }
}

impl vstd::std_specs::convert::TryFromSpecImpl<RespArray> for HGet {
    open spec fn obeys_try_from_spec() -> bool {
        false
    }

    open spec fn try_from_spec(value: RespArray) -> Result<Self, CommandError> {
        arbitrary()
    }
}

impl TryFrom<RespArray> for HGetAll {
    type Error = CommandError;

    fn try_from(value: RespArray) -> (r: Result<Self, CommandError>)
        ensures
            match hgetall_of(frames_of(value@)) {
                Ok(key) => r matches Ok(c) && c.key@ == key && !c.sort,
                Err(k) => r matches Err(e) && e@ == k,
            },
    {
        match validate_command(&value, "hgetall", 1) {
            Ok(_) => {},
            Err(e) => {
                return Err(e);
            },
        }
        match text_of(frame_at(&value, 1)) {
            Ok(key) => Ok(HGetAll { key, sort: false }),
            Err(e) => Err(e),
        }
    }
}

impl vstd::std_specs::convert::TryFromSpecImpl<RespArray> for HGetAll {
    open spec fn obeys_try_from_spec() -> bool {
        false
    }

    open spec fn try_from_spec(value: RespArray) -> Result<Self, CommandError> {
        arbitrary()
    }
}

impl TryFrom<RespArray> for HSet {
    type Error = CommandError;

    fn try_from(value: RespArray) -> (r: Result<Self, CommandError>)
        ensures
            match hset_of(frames_of(value@)) {
                Ok((key, field, v)) => r matches Ok(c) && c.key@ == key && c.field@ == field
                    && c.value@ == v,
                Err(k) => r matches Err(e) && e@ == k,
            },
    {
        match validate_command(&value, "hset", 3) {
            Ok(_) => {},
            Err(e) => {
                return Err(e);
            },
        }
        if !is_bulk(frame_at(&value, 1)) || !is_bulk(frame_at(&value, 2)) {
            return Err(CommandError::InvalidArgument("Invalid key, field or value".to_owned()));
        }
        let key: String = match text_of(frame_at(&value, 1)) {
            Ok(text) => text,
            Err(e) => {
                return Err(e);
            },
        };
        let field: String = match text_of(frame_at(&value, 2)) {
            Ok(text) => text,
            Err(e) => {
                return Err(e);
            },
        };
        match value.0 {
            Some(mut frames) => match frames.pop() {
                Some(v) => Ok(HSet { key, field, value: v }),
                None => vstd::pervasive::unreached(),
            },
            None => vstd::pervasive::unreached(),
        }
    }
}

impl vstd::std_specs::convert::TryFromSpecImpl<RespArray> for HSet {
    open spec fn obeys_try_from_spec() -> bool {
        false
    }

    open spec fn try_from_spec(value: RespArray) -> Result<Self, CommandError> {
        arbitrary()
    }
}

impl TryFrom<RespArray> for HMGet {
    type Error = CommandError;

    fn try_from(value: RespArray) -> (r: Result<Self, CommandError>)
        ensures
            match hmget_of(frames_of(value@)) {
                Ok((hash, fields)) => r matches Ok(c) && c.hash@ == hash && c.fields@.len()
                    == fields.len() && forall|i: int|
                    0 <= i < fields.len() ==> (#[trigger] c.fields@[i])@ == fields[i],
                Err(k) => r matches Err(e) && e@ == k,
            },
    {
        let len: usize = value.len();
        if len == 0 {
            return Err(CommandError::InvalidCommand("hmget does not accept null array".to_owned()));
        }
        if len == 1 {
            return Err(
                CommandError::InvalidCommand(
                    "hmget command must have at least 2 argument, got 1".to_owned(),
                ),
            );
        }
        if len == 2 {
            return Err(
                CommandError::InvalidCommand(
                    "hmget command must have at least 2 argument, got 2".to_owned(),
                ),
            );
        }
        match validate_command(&value, "hmget", len - 1) {
            Ok(_) => {},
            Err(e) => {
                return Err(e);
            },
        }
        let ghost args = frames_of(value@);
        let hash: String = match text_of(frame_at(&value, 1)) {
            Ok(text) => text,
            Err(e) => {
                proof {
                    lemma_argument_texts_fails(args, 1, 1, (len - 1) as nat);
                }
                return Err(e);
            },
        };
        let mut fields: Vec<String> = Vec::new();
        let ghost mut texts: Seq<Seq<char>> = seq![hash@];
        let mut i: usize = 2;
        assert(argument_texts(args, 1, 0) == Ok::<Seq<Seq<char>>, CommandErrorView>(Seq::empty()));
        assert(Seq::<Seq<char>>::empty().push(hash@) =~= texts);
        while i < len
            invariant
                2 <= i <= len,
                len == args.len(),
                args == frames_of(value@),
                command_check(args, encode_utf8("hmget"@), (len - 1) as nat) is Ok,
                argument_texts(args, 1, (i - 1) as nat) == Ok::<Seq<Seq<char>>, CommandErrorView>(
                    texts,
                ),
                texts.len() == i - 1,
                texts[0] == hash@,
                fields@.len() == i - 2,
                forall|j: int| 0 <= j < fields@.len() ==> (#[trigger] fields@[j])@ == texts[j + 1],
            decreases len - i,
        {
            match text_of(frame_at(&value, i)) {
                Ok(text) => {
                    proof {
                        texts = texts.push(text@);
                    }
                    fields.push(text);
                },
                Err(e) => {
                    proof {
                        lemma_argument_texts_fails(args, 1, i as nat, (len - 1) as nat);
                    }
                    return Err(e);
                },
            }
            i += 1;
        }
        Ok(HMGet { hash, fields })
    }
}

impl vstd::std_specs::convert::TryFromSpecImpl<RespArray> for HMGet {
    open spec fn obeys_try_from_spec() -> bool {
        false
    }

    open spec fn try_from_spec(value: RespArray) -> Result<Self, CommandError> {
        arbitrary()
    }
}

/// The reply `+OK\r\n`.
pub fn resp_ok() -> (r: RespFrame)
    ensures
        r@ == FrameView::SimpleString("OK"@),
{
    RespFrame::SimpleString(SimpleString("OK".to_owned()))
}

/// The reply to a lookup: the value found, or the null frame.
pub fn value_or_null(found: Option<RespFrame>) -> (r: RespFrame)
    ensures
        r == match found {
            Some(v) => v,
            None => RespFrame::Null(RespNull),
        },
{
    match found {
        Some(value) => value,
        None => RespFrame::Null(RespNull),
    }
}

/// The reply to `hmget`: an array with, for each field in turn, its value or the
/// null frame.
pub fn hmget_reply(found: Vec<Option<RespFrame>>) -> (r: RespFrame)
    ensures
        r@ matches FrameView::Array(items) && items.len() == found@.len() && forall|i: int|
            0 <= i < found@.len() ==> #[trigger] items[i] == match found@[i] {
                Some(v) => v@,
                None => FrameView::Null,
            },
{
    let mut values: Vec<RespFrame> = Vec::new();
    let n: usize = found.len();
    let mut i: usize = 0;
    while i < n
        invariant
            i <= n,
            n == found@.len(),
            values@.len() == i,
            forall|j: int|
                0 <= j < i ==> (#[trigger] values@[j])@ == match found@[j] {
                    Some(v) => v@,
                    None => FrameView::Null,
                },
        decreases n - i,
    {
        let value: RespFrame = match &found[i] {
            Some(v) => clone_frame(v),
            None => RespFrame::Null(RespNull),
        };
        values.push(value);
        i += 1;
    }
    RespFrame::Array(RespArray(Some(values)))
}

/// The entries of a hash laid out flat: each key as a bulk string, then its
/// value.
pub open spec fn flat(entries: Seq<(Seq<char>, FrameView)>) -> Seq<FrameView> {
    Seq::new(
        2 * entries.len(),
        |i: int|
            if i % 2 == 0 {
                FrameView::BulkString(encode_utf8(entries[i / 2].0))
            } else {
                entries[i / 2].1
            },
    )
}

/// Where an entry with `key` goes into a sorted list.
fn place(sorted: &Vec<(String, RespFrame)>, key: &str) -> (i: usize)
    ensures
        i == rank_after(entry_views(sorted@), key@),
        i <= sorted@.len(),
{
    let ghost views = entry_views(sorted@);
    let n: usize = sorted.len();
    let mut i: usize = n;
    assert(views.take(n as int) =~= views);
    while i > 0 && key_less(key, sorted[i - 1].0.as_str())
        invariant
            i <= n,
            n == sorted@.len(),
            views == entry_views(sorted@),
            rank_after(views, key@) == rank_after(views.take(i as int), key@),
        decreases i,
    {
        assert(views.take(i as int).drop_last() =~= views.take(i - 1));
        assert(views.take(i as int).last() == views[i - 1]);
        i -= 1;
    }
    proof {
        if i > 0 {
            assert(views.take(i as int).last() == views[i - 1]);
        }
    }
    i
}

/// Copies of the entries, sorted by key; entries with the same key keep their
/// order.
fn sorted_entries(entries: &Vec<(String, RespFrame)>) -> (sorted: Vec<(String, RespFrame)>)
    ensures
        entry_views(sorted@) == sort_all(entry_views(entries@), entries@.len()),
{
    let ghost views = entry_views(entries@);
    let mut sorted: Vec<(String, RespFrame)> = Vec::new();
    let n: usize = entries.len();
    let mut i: usize = 0;
    assert(entry_views(sorted@) =~= Seq::empty());
    while i < n
        invariant
            i <= n,
            n == entries@.len(),
            views == entry_views(entries@),
            entry_views(sorted@) == sort_all(views, i as nat),
        decreases n - i,
    {
        let at: usize = place(&sorted, entries[i].0.as_str());
        let ghost before = entry_views(sorted@);
        sorted.insert(at, (entries[i].0.clone(), clone_frame(&entries[i].1)));
        assert(entry_views(sorted@) =~= before.insert(at as int, views[i as int]));
        i += 1;
    }
    sorted
}

/// The entries laid out flat.
fn lay_flat(entries: &Vec<(String, RespFrame)>) -> (data: Vec<RespFrame>)
    ensures
        frame_views(data@) == flat(entry_views(entries@)),
{
    let ghost views = entry_views(entries@);
    let mut data: Vec<RespFrame> = Vec::new();
    let n: usize = entries.len();
    let mut j: usize = 0;
    while j < n
        invariant
            j <= n,
            n == entries@.len(),
            views == entry_views(entries@),
            data@.len() == 2 * j,
            forall|k: int| 0 <= k < 2 * j ==> (#[trigger] data@[k])@ == flat(views)[k],
        decreases n - j,
    {
        let key: Vec<u8> = slice_to_vec(entries[j].0.as_str().as_bytes());
        data.push(RespFrame::BulkString(BulkString(Some(key))));
        data.push(clone_frame(&entries[j].1));
        j += 1;
    }
    assert(frame_views(data@) =~= flat(views));
    data
}

/// The reply to `hgetall`: an array of the entries laid out flat, in the order
/// given or, where `sort` is set, sorted by key, entries with the same key in the
/// order given.
pub fn hgetall_reply(entries: Vec<(String, RespFrame)>, sort: bool) -> (r: RespFrame)
    ensures
        r@ == FrameView::Array(
            flat(
                if sort {
                    sort_all(entry_views(entries@), entries@.len())
                } else {
                    entry_views(entries@)
                },
            ),
        ),
{
    let data: Vec<RespFrame> = if sort {
        let sorted: Vec<(String, RespFrame)> = sorted_entries(&entries);
        lay_flat(&sorted)
    } else {
        lay_flat(&entries)
    };
    RespFrame::Array(RespArray(Some(data)))
}

/// The reply to `hgetall` for what the store holds at the key: the entries of the
/// hash as `hgetall_reply` lays them out, or, where the key has no hash, the array
/// without frames.
pub fn hgetall_reply_of(entries: Option<Vec<(String, RespFrame)>>, sort: bool) -> (r: RespFrame)
    ensures
        r@ == match entries {
            Some(e) => FrameView::Array(
                flat(
                    if sort {
                        sort_all(entry_views(e@), e@.len())
                    } else {
                        entry_views(e@)
                    },
                ),
            ),
            None => FrameView::Array(Seq::empty()),
        },
{
    match entries {
        Some(e) => hgetall_reply(e, sort),
        None => {
            let items: Vec<RespFrame> = Vec::new();
            assert(frame_views(items@) =~= Seq::<FrameView>::empty());
            RespFrame::Array(RespArray(Some(items)))
        },
    }
}

} // verus!
