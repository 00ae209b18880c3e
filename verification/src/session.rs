//! One client's session, apart from its socket: when the bytes read so far
//! make a request, what the request asks of the store and which bytes answer
//! it. The caller reads and writes; every decision is made here.

use crate::command::{parse_command, Command, CommandView};
use crate::resp::{BulkString, NullBulkString, RespType, SimpleError, SimpleString};
use crate::store::{asked, written, EntryView, Store};
use crate::wire::{decode, encode, encode_null, WireValue};
use vstd::prelude::*;
use vstd::utf8::{decode_utf8, valid_utf8};

verus! {

/// The size of the chunks in which the caller reads from the stream. A read
/// that fills its chunk says that more may be on its way; a shorter one ends
/// the request.
pub const CHUNK_SIZE: usize = 1024;

/// What a read means for the session.
#[derive(Debug, PartialEq, Eq)]
pub enum Framing {
    /// The request may go on: read again.
    Incomplete,
    /// These bytes are one request: answer it.
    Request(Vec<u8>),
    /// The peer has shut the stream down: stop.
    Closed,
}

/// What a read means for the session, apart from where its bytes are held.
pub enum FramingView {
    Incomplete,
    Request(Seq<u8>),
    Closed,
}

impl View for Framing {
    type V = FramingView;

    open spec fn view(&self) -> FramingView {
        match self {
            Framing::Incomplete => FramingView::Incomplete,
            Framing::Request(bytes) => FramingView::Request(bytes@),
            Framing::Closed => FramingView::Closed,
        }
    }
}

/// What a read of `chunk` means when `buffered` was read before it, and what
/// is buffered afterwards.
pub open spec fn framed(buffered: Seq<u8>, chunk: Seq<u8>) -> (FramingView, Seq<u8>) {
    if chunk.len() == 0 {
        (FramingView::Closed, buffered)
    } else if chunk.len() < CHUNK_SIZE {
        (FramingView::Request(buffered + chunk), Seq::empty())
    } else {
        (FramingView::Incomplete, buffered + chunk)
    }
}

/// The bytes of a request as they come in.
pub struct Session {
    request_buffer: Vec<u8>,
}

impl View for Session {
    type V = Seq<u8>;

    closed spec fn view(&self) -> Seq<u8> {
        self.request_buffer@
    }
}

impl Session {
    /// A session that has read nothing yet.
    pub fn new() -> (r: Self)
        ensures
            r@ == Seq::<u8>::empty(),
    {
        Self { request_buffer: Vec::new() }
    }

    /// Takes in the bytes of one read, `chunk`, which is empty when the peer
    /// has shut the stream down. A request that is handed out leaves the
    /// session empty for the next one.
    pub fn on_read(&mut self, chunk: &[u8]) -> (r: Framing)
        ensures
            (r@, final(self)@) == framed(old(self)@, chunk@),
    {
        if chunk.len() == 0 {
            return Framing::Closed;
        }
        self.request_buffer.extend_from_slice(chunk);
        assert(self.request_buffer@ =~= old(self)@ + chunk@);
        if chunk.len() < CHUNK_SIZE {
            let mut request: Vec<u8> = Vec::new();
            core::mem::swap(&mut self.request_buffer, &mut request);
            Framing::Request(request)
        } else {
            Framing::Incomplete
        }
    }
}

/// What answering a request takes.
#[derive(Debug, PartialEq, Eq)]
pub enum Plan {
    /// The answer is known: these bytes.
    Reply(Vec<u8>),
    /// The answer is what the store holds under this key.
    Get(String),
    /// This value is to be stored under this key, with this time to live in
    /// milliseconds.
    Put(String, Vec<u8>, Option<u64>),
}

/// What answering a request takes, apart from where its bytes are held.
pub enum PlanView {
    Reply(Seq<u8>),
    Get(Seq<char>),
    Put(Seq<char>, Seq<u8>, Option<u64>),
}

impl View for Plan {
    type V = PlanView;

    open spec fn view(&self) -> PlanView {
        match self {
            Plan::Reply(bytes) => PlanView::Reply(bytes@),
            Plan::Get(key) => PlanView::Get(key@),
            Plan::Put(key, value, ttl) => PlanView::Put(key@, value@, *ttl),
        }
    }
}

/// The bytes of an error reply with the words `text`.
pub open spec fn error_reply(text: Seq<char>) -> Seq<u8> {
    encode(WireValue::SimpleError(text))
}

/// What answering `command` takes.
pub open spec fn plan_for_command(command: CommandView) -> PlanView {
    match command {
        CommandView::Ping => PlanView::Reply(encode(WireValue::SimpleString("PONG"@))),
        CommandView::Echo(message) => PlanView::Reply(encode(WireValue::BulkString(message))),
        CommandView::SetKey(key, value, ttl) => if valid_utf8(key) {
            PlanView::Put(decode_utf8(key), value, ttl)
        } else {
            PlanView::Reply(error_reply("ERR key is not UTF8 string"@))
        },
        CommandView::Get(key) => if valid_utf8(key) {
            PlanView::Get(decode_utf8(key))
        } else {
            PlanView::Get(Seq::empty())
        },
    }
}

/// What answering the request `request` takes. A request that does not
/// decode, or that names no command, is answered with the error's words.
pub open spec fn plan_for(request: Seq<u8>) -> PlanView {
    match decode(request) {
        Err(e) => PlanView::Reply(error_reply(e.text())),
        Ok(value) => match parse_command(value) {
            Err(e) => PlanView::Reply(error_reply(e.text())),
            Ok(command) => plan_for_command(command),
        },
    }
}

/// The bytes that answer a GET for which the store gave `found`.
pub open spec fn get_reply(found: Option<Seq<u8>>) -> Seq<u8> {
    match found {
        Some(value) => encode(WireValue::BulkString(value)),
        None => encode_null(),
    }
}

/// The bytes that answer a SET.
pub open spec fn put_reply() -> Seq<u8> {
    encode(WireValue::SimpleString("OK"@))
}

/// The bytes that answer `request` at `now`, and the store afterwards.
pub open spec fn responded(request: Seq<u8>, store: Map<Seq<char>, EntryView>, now: u64) -> (
    Seq<u8>,
    Map<Seq<char>, EntryView>,
) {
    match plan_for(request) {
        PlanView::Reply(bytes) => (bytes, store),
        PlanView::Get(key) => {
            let (found, left) = asked(store, key, now);
            (get_reply(found), left)
        },
        PlanView::Put(key, value, ttl) => (put_reply(), written(store, key, value, ttl, now)),
    }
}

/// What answering `command` takes.
pub fn plan_command(command: Command<'_>) -> (r: Plan)
    ensures
        r@ == plan_for_command(command@),
{
    match command {
        Command::Ping => Plan::Reply(SimpleString::new("PONG").encode()),
        Command::Echo(message) => Plan::Reply(message.encode()),
        Command::SetKey(key, value, ttl) => match key.as_string() {
            Some(key) => Plan::Put(key.to_owned(), value.to_vec(), ttl),
            None => Plan::Reply(SimpleError::from("ERR key is not UTF8 string").encode()),
        },
        Command::Get(key) => match key.as_string() {
            Some(key) => Plan::Get(key.to_owned()),
            None => Plan::Get(String::new()),
        },
    }
}

/// What answering the request `request` takes.
pub fn plan(request: &[u8]) -> (r: Plan)
    ensures
        r@ == plan_for(request@),
{
    match RespType::try_from(request) {
        Err(e) => {
            let words: String = e.message();
            Plan::Reply(SimpleError::from(words.as_str()).encode())
        },
        Ok(value) => match Command::try_from(value) {
            Err(e) => Plan::Reply(SimpleError::from(e.message()).encode()),
            Ok(command) => plan_command(command),
        },
    }
}

/// The bytes that answer a GET for which the store gave `found`.
pub fn reply_to_get(found: Option<Vec<u8>>) -> (r: Vec<u8>)
    ensures
        r@ == get_reply(
            match found {
                Some(value) => Some(value@),
                None => None,
            },
        ),
{
    match found {
        Some(value) => BulkString::from(value.as_slice()).encode(),
        None => NullBulkString::encode(),
    }
}

/// The bytes that answer a SET.
pub fn reply_to_put() -> (r: Vec<u8>)
    ensures
        r@ == put_reply(),
{
    SimpleString::new("OK").encode()
}

/// Answers `request` against `store` at the clock reading `now`.
pub fn respond(request: &[u8], store: &mut Store, now: u64) -> (r: Vec<u8>)
    ensures
        (r@, final(store)@) == responded(request@, old(store)@, now),
{
    match plan(request) {
        Plan::Reply(bytes) => bytes,
        Plan::Get(key) => reply_to_get(store.get(key.as_str(), now)),
        Plan::Put(key, value, ttl) => {
            store.set(key, value, ttl, now);
            reply_to_put()
        },
    }
}

} // verus!
