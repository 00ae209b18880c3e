//! Wire values in their plain form: text and bytes borrowed as they are, and
//! arrays as vectors.

use crate::decimal::push_decimal;
use crate::frame::{push_all, push_crlf, read_bulk, read_length, read_text};
use crate::wire::{
    decode, encode, encode_all, lemma_encode_all_push, lemma_parse_items_step,
    lemma_parse_value_shrinks, length_line, parse_items, parse_value, prepend, WireValue, ARRAY,
    BULK_STRING, SIMPLE_ERROR, SIMPLE_STRING,
};
use vstd::prelude::*;
use vstd::std_specs::convert::TryFromSpecImpl;

verus! {

/// One decoded value; an array may hold values of any kind.
#[derive(Debug, PartialEq, Eq)]
pub enum RedisType<'a> {
    SimpleString(&'a str),
    SimpleError(&'a str),
    BulkString(&'a [u8]),
    Array(Vec<RedisType<'a>>),
}

/// The value that `v` stands for.
pub open spec fn value_of(v: RedisType<'_>) -> WireValue
    decreases v,
{
    match v {
        RedisType::SimpleString(text) => WireValue::SimpleString(text@),
        RedisType::SimpleError(text) => WireValue::SimpleError(text@),
        RedisType::BulkString(bytes) => WireValue::BulkString(bytes@),
        RedisType::Array(items) => WireValue::Array(
            Seq::new(
                items@.len(),
                |i: int|
                    if 0 <= i < items@.len() {
                        value_of(items[i])
                    } else {
                        arbitrary()
                    },
            ),
        ),
    }
}

impl<'a> View for RedisType<'a> {
    type V = WireValue;

    open spec fn view(&self) -> WireValue {
        value_of(*self)
    }
}

/// The values that `items` stand for, in order.
pub open spec fn values(items: Seq<RedisType<'_>>) -> Seq<WireValue> {
    Seq::new(items.len(), |i: int| items[i]@)
}

/// An array stands for the values its items stand for.
pub proof fn lemma_array_view(items: Vec<RedisType<'_>>)
    ensures
        RedisType::Array(items)@ == WireValue::Array(values(items@)),
{
    assert(RedisType::Array(items)@->Array_0 =~= values(items@));
}

impl RedisType<'_> {
    /// The bytes that encode this value.
    pub fn encode(&self) -> (value: Vec<u8>)
        ensures
            value@ == encode(self@),
        decreases self,
    {
        let mut value: Vec<u8> = Vec::new();
        match self {
            RedisType::SimpleString(string) => {
                value.push(SIMPLE_STRING);
                push_all(&mut value, string.as_bytes());
                push_crlf(&mut value);
            },
            RedisType::SimpleError(error) => {
                value.push(SIMPLE_ERROR);
                push_all(&mut value, error.as_bytes());
                push_crlf(&mut value);
            },
            RedisType::BulkString(bulk) => {
                value.push(BULK_STRING);
                push_decimal(&mut value, bulk.len());
                push_crlf(&mut value);
                push_all(&mut value, bulk);
                push_crlf(&mut value);
            },
            RedisType::Array(items) => {
                value.push(ARRAY);
                push_decimal(&mut value, items.len());
                push_crlf(&mut value);
                let ghost head = value@;
                let mut i: usize = 0;
                while i < items.len()
                    invariant
                        0 <= i <= items@.len(),
                        value@ == head + encode_all(values(items@).take(i as int)),
                        forall|j: int|
                            0 <= j < items@.len() ==> decreases_to!(self => #[trigger] items@[j]),
                    decreases items@.len() - i,
                {
                    let item: &RedisType<'_> = &items[i];
                    let bytes: Vec<u8> = item.encode();
                    push_all(&mut value, bytes.as_slice());
                    proof {
                        lemma_encode_all_push(values(items@).take(i as int), item@);
                        assert(values(items@).take(i as int).push(item@) =~= values(items@).take(
                            i + 1,
                        ));
                    }
                    i += 1;
                }
                proof {
                    assert(values(items@).take(i as int) =~= values(items@));
                    lemma_array_view(*items);
                }
            },
        }
        value
    }
}

/// Why a byte string is not exactly one wire value.
#[derive(Debug, Clone, Copy, PartialEq, Eq)]
pub enum Error {
    /// There were no bytes where a value had to start.
    EmptyValue,
    /// The first byte of a value is none of the four sigils.
    UnknownType(char),
    /// A line has no `\r\n` terminator in the bytes that remain.
    UnterminatedSequence,
    /// The text of a simple string, a simple error or a length is not UTF-8.
    InvalidUTF8,
    /// A length prefix is not an unsigned 32-bit decimal number.
    InvalidUnsigned32BitNumber,
    /// A bulk string's terminator does not stand where its length says.
    InvalidLength,
    /// Bytes are left over after one complete value.
    ExtraBytes,
}

impl View for Error {
    type V = crate::resp::Error;

    open spec fn view(&self) -> crate::resp::Error {
        match self {
            Error::EmptyValue => crate::resp::Error::EmptyValue,
            Error::UnknownType(sigil) => crate::resp::Error::UnknownType(*sigil),
            Error::UnterminatedSequence => crate::resp::Error::UnterminatedSequence,
            Error::InvalidUTF8 => crate::resp::Error::InvalidUTF8,
            Error::InvalidUnsigned32BitNumber => crate::resp::Error::InvalidUnsigned32BitNumber,
            Error::InvalidLength => crate::resp::Error::InvalidLength,
            Error::ExtraBytes => crate::resp::Error::ExtraBytes,
        }
    }
}

impl Error {
    /// The same failure, as the decoder's parts name it.
    fn plain(&self) -> (r: crate::resp::Error)
        ensures
            r == self@,
    {
        match self {
            Error::EmptyValue => crate::resp::Error::EmptyValue,
            Error::UnknownType(sigil) => crate::resp::Error::UnknownType(*sigil),
            Error::UnterminatedSequence => crate::resp::Error::UnterminatedSequence,
            Error::InvalidUTF8 => crate::resp::Error::InvalidUTF8,
            Error::InvalidUnsigned32BitNumber => crate::resp::Error::InvalidUnsigned32BitNumber,
            Error::InvalidLength => crate::resp::Error::InvalidLength,
            Error::ExtraBytes => crate::resp::Error::ExtraBytes,
        }
    }

    /// The words that describe this error.
    pub fn message(&self) -> (r: String)
        ensures
            r@ == self@.text(),
    {
        self.plain().message()
    }
}

/// The same failure, as this module names it.
fn failure(e: crate::resp::Error) -> (r: Error)
    ensures
        r@ == e,
{
    match e {
        crate::resp::Error::EmptyValue => Error::EmptyValue,
        crate::resp::Error::UnknownType(sigil) => Error::UnknownType(sigil),
        crate::resp::Error::UnterminatedSequence => Error::UnterminatedSequence,
        crate::resp::Error::InvalidUTF8 => Error::InvalidUTF8,
        crate::resp::Error::InvalidUnsigned32BitNumber => Error::InvalidUnsigned32BitNumber,
        crate::resp::Error::InvalidLength => Error::InvalidLength,
        crate::resp::Error::ExtraBytes => Error::ExtraBytes,
    }
}

/// Reads one value from the front of `value`; the second part of the result is
/// what follows it.
fn try_with_remaining<'a>(value: &'a [u8]) -> (r: Result<(RedisType<'a>, &'a [u8]), Error>)
    ensures
        parse_value(value@) == match r {
            Ok((v, rest)) => Ok((v@, rest@)),
            Err(e) => Err(e@),
        },
    decreases value@.len(),
{
    if value.len() == 0 {
        return Err(Error::EmptyValue);
    }
    let sigil: u8 = value[0];
    if sigil == SIMPLE_STRING {
        match read_text(value) {
            Err(e) => Err(failure(e)),
            Ok((text, rest)) => Ok((RedisType::SimpleString(text), rest)),
        }
    } else if sigil == SIMPLE_ERROR {
        match read_text(value) {
            Err(e) => Err(failure(e)),
            Ok((text, rest)) => Ok((RedisType::SimpleError(text), rest)),
        }
    } else if sigil == BULK_STRING {
        match read_length(value) {
            Err(e) => Err(failure(e)),
            Ok((length, rest)) => match read_bulk(rest, length) {
                Err(e) => Err(failure(e)),
                Ok((bytes, rest)) => Ok((RedisType::BulkString(bytes), rest)),
            },
        }
    } else if sigil == ARRAY {
        match read_length(value) {
            Err(e) => Err(failure(e)),
            Ok((length, rest)) => {
                let mut elements: Vec<RedisType<'a>> = Vec::new();
                let mut remaining: &'a [u8] = rest;
                let mut count: u32 = 0;
                assert(values(elements@) + Seq::<WireValue>::empty() =~= Seq::<WireValue>::empty());
                while count < length
                    invariant
                        count <= length,
                        value@.len() > 0,
                        value@[0] == ARRAY,
                        length_line(value@) == Ok::<_, crate::resp::Error>((length as nat, rest@)),
                        remaining@.len() < value@.len(),
                        parse_items(rest@, length as nat) == prepend(
                            values(elements@),
                            parse_items(remaining@, (length - count) as nat),
                        ),
                    decreases length - count,
                {
                    proof {
                        lemma_parse_items_step(
                            values(elements@),
                            remaining@,
                            (length - count) as nat,
                        );
                        lemma_parse_value_shrinks(remaining@);
                    }
                    match try_with_remaining(remaining) {
                        Err(e) => {
                            return Err(e);
                        },
                        Ok((element, remainder)) => {
                            assert(values(elements@).push(element@) =~= values(
                                elements@.push(element),
                            ));
                            elements.push(element);
                            remaining = remainder;
                        },
                    }
                    count += 1;
                }
                proof {
                    lemma_array_view(elements);
                    assert(values(elements@) + Seq::<WireValue>::empty() =~= values(elements@));
                }
                Ok((RedisType::Array(elements), remaining))
            },
        }
    } else {
        Err(Error::UnknownType(sigil as char))
    }
}

impl<'a> TryFrom<&'a [u8]> for RedisType<'a> {
    type Error = Error;

    /// Decodes `value` as exactly one wire value.
    fn try_from(value: &'a [u8]) -> (r: Result<Self, Error>)
        ensures
            decode(value@) == match r {
                Ok(v) => Ok(v@),
                Err(e) => Err(e@),
            },
    {
        match try_with_remaining(value) {
            Err(e) => Err(e),
            Ok((result, remaining)) => if remaining.len() == 0 {
                Ok(result)
            } else {
                Err(Error::ExtraBytes)
            },
        }
    }
}

impl<'a> TryFromSpecImpl<&'a [u8]> for RedisType<'a> {
    open spec fn obeys_try_from_spec() -> bool {
        false
    }

    open spec fn try_from_spec(v: &'a [u8]) -> Result<Self, Error> {
        arbitrary()
    }
}

} // verus!
