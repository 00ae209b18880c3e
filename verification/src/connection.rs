//! The plain responder: a session that knows PING alone. A request that holds
//! the bulk string `PING` anywhere in its array is answered with `PONG`, any
//! other with an error.

use crate::redis_type::{RedisType, values};
use crate::text::same_bytes;
use crate::wire::{decode, encode, WireValue};
use vstd::prelude::*;
use vstd::utf8::encode_utf8;

verus! {

/// The bulk string `PING`.
pub open spec fn ping() -> WireValue {
    WireValue::BulkString(encode_utf8("PING"@))
}

/// Whether `v` is an array that holds the bulk string `PING`.
pub open spec fn holds_ping(v: WireValue) -> bool {
    v matches WireValue::Array(items) && items.contains(ping())
}

/// The value that answers the request `v`.
pub open spec fn reply_for(v: WireValue) -> WireValue {
    if holds_ping(v) {
        WireValue::SimpleString("PONG"@)
    } else {
        WireValue::SimpleError("ERR unknown command"@)
    }
}

/// The bytes that answer the request `request`. A request that does not
/// decode is answered with the error's words.
pub open spec fn answered(request: Seq<u8>) -> Seq<u8> {
    match decode(request) {
        Err(e) => encode(WireValue::SimpleError(e.text())),
        Ok(v) => encode(reply_for(v)),
    }
}

/// Whether one of `items` is the bulk string `PING`.
fn contains_ping(items: &Vec<RedisType<'_>>) -> (r: bool)
    ensures
        r == values(items@).contains(ping()),
{
    let mut i: usize = 0;
    while i < items.len()
        invariant
            0 <= i <= items@.len(),
            forall|j: int| 0 <= j < i ==> values(items@)[j] != ping(),
        decreases items@.len() - i,
    {
        match &items[i] {
            RedisType::BulkString(bytes) => {
                if same_bytes(bytes, "PING".as_bytes()) {
                    assert(values(items@)[i as int] == ping());
                    return true;
                }
            },
            _ => {},
        }
        i += 1;
    }
    false
}

/// The value that answers `request`.
pub fn reply(request: &RedisType<'_>) -> (r: RedisType<'static>)
    ensures
        r@ == reply_for(request@),
{
    let pong: bool = match request {
        RedisType::Array(array) => {
            proof {
                crate::redis_type::lemma_array_view(*array);
            }
            contains_ping(array)
        },
        _ => false,
    };
    if pong {
        RedisType::SimpleString("PONG")
    } else {
        RedisType::SimpleError("ERR unknown command")
    }
}

/// The bytes that answer `request`.
pub fn respond(request: &[u8]) -> (r: Vec<u8>)
    ensures
        r@ == answered(request@),
{
    match RedisType::try_from(request) {
        Err(e) => {
            let words: String = e.message();
            RedisType::SimpleError(words.as_str()).encode()
        },
        Ok(value) => reply(&value).encode(),
    }
}

} // verus!
