//! Wire values as they are held in memory: borrowed views into the request
//! buffer, with their byte encodings and the decoder.

use crate::decimal::{parse_decimal, parse_unsigned, push_decimal};
use crate::frame::{push_all, push_crlf, read_bulk, read_length, read_text};
use crate::wire::{
    decode, encode, encode_all, encode_null, lemma_encode_all_push, lemma_parse_items_step,
    lemma_parse_value_shrinks, length_line, parse_items, parse_value, prepend, WireValue, ARRAY, BULK_STRING,
    CR, LF, SIMPLE_ERROR, SIMPLE_STRING,
};
use std::collections::VecDeque;
use vstd::prelude::*;
use vstd::string::StringExecFns;
use vstd::std_specs::convert::{FromSpecImpl, TryFromSpecImpl};
use vstd::std_specs::vecdeque::VecDequeAdditionalSpecFns;
use vstd::utf8::{decode_utf8, valid_utf8};

verus! {

broadcast use vstd::std_specs::vecdeque::axiom_vec_dequeue_index_decreases;

/// Error text for the peer.
#[derive(Debug, PartialEq, Eq)]
pub struct SimpleError<'a> {
    inner: &'a str,
}

impl<'a> View for SimpleError<'a> {
    type V = Seq<char>;

    closed spec fn view(&self) -> Seq<char> {
        self.inner@
    }
}

impl SimpleError<'_> {
    /// The bytes `-<text>\r\n`.
    pub fn encode(&self) -> (value: Vec<u8>)
        ensures
            value@ == encode(WireValue::SimpleError(self@)),
    {
        let mut value: Vec<u8> = Vec::new();
        value.push(SIMPLE_ERROR);
        push_all(&mut value, self.inner.as_bytes());
        push_crlf(&mut value);
        value
    }
}

impl<'a> From<&'a str> for SimpleError<'a> {
    fn from(inner: &'a str) -> (r: Self)
        ensures
            r@ == inner@,
    {
        Self { inner }
    }
}

impl<'a> FromSpecImpl<&'a str> for SimpleError<'a> {
    open spec fn obeys_from_spec() -> bool {
        true
    }

    closed spec fn from_spec(v: &'a str) -> Self {
        SimpleError { inner: v }
    }
}

/// Status text for the peer.
#[derive(Debug, PartialEq, Eq)]
pub struct SimpleString<'a> {
    inner: &'a str,
}

impl<'a> View for SimpleString<'a> {
    type V = Seq<char>;

    closed spec fn view(&self) -> Seq<char> {
        self.inner@
    }
}

impl SimpleString<'_> {
    /// Wraps `inner`.
    pub fn new(inner: &str) -> (r: SimpleString<'_>)
        ensures
            r@ == inner@,
    {
        SimpleString { inner }
    }

    /// The bytes `+<text>\r\n`.
    pub fn encode(&self) -> (value: Vec<u8>)
        ensures
            value@ == encode(WireValue::SimpleString(self@)),
    {
        let mut value: Vec<u8> = Vec::new();
        value.push(SIMPLE_STRING);
        push_all(&mut value, self.inner.as_bytes());
        push_crlf(&mut value);
        value
    }
}

impl<'a> From<&'a str> for SimpleString<'a> {
    fn from(inner: &'a str) -> (r: Self)
        ensures
            r@ == inner@,
    {
        Self { inner }
    }
}

impl<'a> FromSpecImpl<&'a str> for SimpleString<'a> {
    open spec fn obeys_from_spec() -> bool {
        true
    }

    closed spec fn from_spec(v: &'a str) -> Self {
        SimpleString { inner: v }
    }
}

/// A binary-safe byte string.
#[derive(Debug, PartialEq, Eq)]
pub struct BulkString<'a> {
    inner: &'a [u8],
}

impl<'a> View for BulkString<'a> {
    type V = Seq<u8>;

    closed spec fn view(&self) -> Seq<u8> {
        self.inner@
    }
}

impl BulkString<'_> {
    /// The bytes `$<length>\r\n<bytes>\r\n`.
    pub fn encode(&self) -> (value: Vec<u8>)
        ensures
            value@ == encode(WireValue::BulkString(self@)),
    {
        let mut value: Vec<u8> = Vec::new();
        value.push(BULK_STRING);
        push_decimal(&mut value, self.inner.len());
        push_crlf(&mut value);
        push_all(&mut value, self.inner);
        push_crlf(&mut value);
        value
    }

    /// The bytes as text, where they are UTF-8.
    pub fn as_string(&self) -> (r: Option<&str>)
        ensures
            r is Some <==> valid_utf8(self@),
            r matches Some(text) ==> text@ == decode_utf8(self@),
    {
        match core::str::from_utf8(self.inner) {
            Ok(text) => Some(text),
            Err(_) => None,
        }
    }

    /// A copy of the bytes.
    pub fn to_vec(&self) -> (r: Vec<u8>)
        ensures
            r@ == self@,
    {
        vstd::slice::slice_to_vec(self.inner)
    }

    /// The bytes as the unsigned decimal number they spell, if they spell one.
    pub fn as_u64(&self) -> (r: Option<u64>)
        ensures
            parse_decimal(self@, u64::MAX as nat) == match r {
                Some(n) => Some(n as nat),
                None => None,
            },
    {
        parse_unsigned(self.inner, u64::MAX)
    }
}

impl<'a> From<&'a [u8]> for BulkString<'a> {
    fn from(inner: &'a [u8]) -> (r: Self)
        ensures
            r@ == inner@,
    {
        Self { inner }
    }
}

impl<'a> FromSpecImpl<&'a [u8]> for BulkString<'a> {
    open spec fn obeys_from_spec() -> bool {
        true
    }

    closed spec fn from_spec(v: &'a [u8]) -> Self {
        BulkString { inner: v }
    }
}

/// The reply that stands for "no value".
#[derive(Debug, PartialEq, Eq)]
pub struct NullBulkString;

impl NullBulkString {
    /// The bytes `$-1\r\n`.
    pub fn encode() -> (value: Vec<u8>)
        ensures
            value@ == encode_null(),
    {
        let mut value: Vec<u8> = Vec::new();
        value.push(BULK_STRING);
        value.push(0x2d);
        value.push(0x31);
        value.push(CR);
        value.push(LF);
        assert(value@ =~= encode_null());
        value
    }
}

/// One decoded value; an array may hold values of any kind.
#[derive(Debug, PartialEq, Eq)]
pub enum RespType<'a> {
    SimpleString(SimpleString<'a>),
    SimpleError(SimpleError<'a>),
    BulkString(BulkString<'a>),
    Array(VecDeque<RespType<'a>>),
}

/// The value that `v` stands for.
pub open spec fn wire_of(v: RespType<'_>) -> WireValue
    decreases v,
{
    match v {
        RespType::SimpleString(text) => WireValue::SimpleString(text@),
        RespType::SimpleError(text) => WireValue::SimpleError(text@),
        RespType::BulkString(bytes) => WireValue::BulkString(bytes@),
        RespType::Array(items) => WireValue::Array(
            Seq::new(
                items@.len(),
                |i: int|
                    if 0 <= i < items@.len() {
                        wire_of(items[i])
                    } else {
                        arbitrary()
                    },
            ),
        ),
    }
}

impl<'a> View for RespType<'a> {
    type V = WireValue;

    open spec fn view(&self) -> WireValue {
        wire_of(*self)
    }
}

/// The values that `items` stand for, in order.
pub open spec fn views(items: Seq<RespType<'_>>) -> Seq<WireValue> {
    Seq::new(items.len(), |i: int| items[i]@)
}

/// An array stands for the values its items stand for.
pub proof fn lemma_array_view(items: VecDeque<RespType<'_>>)
    ensures
        RespType::Array(items)@ == WireValue::Array(views(items@)),
{
    assert(RespType::Array(items)@->Array_0 =~= views(items@));
}

/// Why a byte string is not exactly one wire value.
#[derive(Debug, Clone, Copy, PartialEq, Eq)]
pub enum Error {
    /// There were no bytes where a value had to start.
    EmptyValue,
    /// The first byte of a value is none of the four sigils.
    UnknownType(char),
    /// A line has no `\r\n` terminator in the bytes that remain.
    UnterminatedSequence,
    /// The text of a simple string, a simple error or a length is not UTF-8.
    InvalidUTF8,
    /// A length prefix is not an unsigned 32-bit decimal number.
    InvalidUnsigned32BitNumber,
    /// A bulk string's terminator does not stand where its length says.
    InvalidLength,
    /// Bytes are left over after one complete value.
    ExtraBytes,
}

impl Error {
    /// The words that describe this error.
    pub open spec fn text(self) -> Seq<char> {
        match self {
            Error::UnknownType(sigil) => "Unknown Type `"@.push(sigil) + "`"@,
            Error::EmptyValue => "Tried to create type from nothing!"@,
            Error::UnterminatedSequence => "Missing \\r\\n termination"@,
            Error::InvalidUTF8 => "Unable to convert [u8] to valid UTF8"@,
            Error::InvalidUnsigned32BitNumber => "Invalid u32"@,
            Error::InvalidLength => "Invalid length supplied"@,
            Error::ExtraBytes => "Extra bytes exist at the end of the parsed type"@,
        }
    }

    /// The words that describe this error.
    pub fn message(&self) -> (r: String)
        ensures
            r@ == self.text(),
    {
        match self {
            Error::UnknownType(sigil) => {
                let mut words: String = "Unknown Type `".to_owned();
                words.push(*sigil);
                words.append("`");
                words
            },
            Error::EmptyValue => "Tried to create type from nothing!".to_owned(),
            Error::UnterminatedSequence => "Missing \\r\\n termination".to_owned(),
            Error::InvalidUTF8 => "Unable to convert [u8] to valid UTF8".to_owned(),
            Error::InvalidUnsigned32BitNumber => "Invalid u32".to_owned(),
            Error::InvalidLength => "Invalid length supplied".to_owned(),
            Error::ExtraBytes => "Extra bytes exist at the end of the parsed type".to_owned(),
        }
    }
}

impl RespType<'_> {
    /// The bytes that encode this value.
    pub fn encode(&self) -> (value: Vec<u8>)
        ensures
            value@ == encode(self@),
        decreases self,
    {
        match self {
            RespType::SimpleString(text) => text.encode(),
            RespType::SimpleError(text) => text.encode(),
            RespType::BulkString(bytes) => bytes.encode(),
            RespType::Array(items) => {
                let mut value: Vec<u8> = Vec::new();
                value.push(ARRAY);
                push_decimal(&mut value, items.len());
                push_crlf(&mut value);
                let ghost head = value@;
                let mut i: usize = 0;
                while i < items.len()
                    invariant
                        0 <= i <= items@.len(),
                        value@ == head + encode_all(views(items@).take(i as int)),
                        forall|j: int|
                            0 <= j < items@.len() ==> decreases_to!(self => #[trigger] items@[j]),
                    decreases items@.len() - i,
                {
                    let item: &RespType<'_> = &items[i];
                    let bytes: Vec<u8> = item.encode();
                    push_all(&mut value, bytes.as_slice());
                    proof {
                        lemma_encode_all_push(views(items@).take(i as int), item@);
                        assert(views(items@).take(i as int).push(item@) =~= views(items@).take(
                            i + 1,
                        ));
                    }
                    i += 1;
                }
                proof {
                    assert(views(items@).take(i as int) =~= views(items@));
                    lemma_array_view(*items);
                }
                value
            },
        }
    }
}

/// Reads one value from the front of `value`; the second part of the result is
/// what follows it.
fn try_with_remaining<'a>(value: &'a [u8]) -> (r: Result<(RespType<'a>, &'a [u8]), Error>)
    ensures
        parse_value(value@) == match r {
            Ok((v, rest)) => Ok((v@, rest@)),
            Err(e) => Err(e),
        },
    decreases value@.len(),
{
    if value.len() == 0 {
        return Err(Error::EmptyValue);
    }
    let sigil: u8 = value[0];
    if sigil == SIMPLE_STRING {
        match read_text(value) {
            Err(e) => Err(e),
            Ok((text, rest)) => Ok((RespType::SimpleString(SimpleString::from(text)), rest)),
        }
    } else if sigil == SIMPLE_ERROR {
        match read_text(value) {
            Err(e) => Err(e),
            Ok((text, rest)) => Ok((RespType::SimpleError(SimpleError::from(text)), rest)),
        }
    } else if sigil == BULK_STRING {
        match read_length(value) {
            Err(e) => Err(e),
            Ok((length, rest)) => match read_bulk(rest, length) {
                Err(e) => Err(e),
                Ok((bytes, rest)) => Ok((RespType::BulkString(BulkString::from(bytes)), rest)),
            },
        }
    } else if sigil == ARRAY {
        match read_length(value) {
            Err(e) => Err(e),
            Ok((length, rest)) => {
                let mut elements: VecDeque<RespType<'a>> = VecDeque::new();
                let mut remaining: &'a [u8] = rest;
                let mut count: u32 = 0;
                assert(views(elements@) + Seq::<WireValue>::empty() =~= Seq::<WireValue>::empty());
                while count < length
                    invariant
                        count <= length,
                        value@.len() > 0,
                        value@[0] == ARRAY,
                        length_line(value@) == Ok::<_, Error>((length as nat, rest@)),
                        remaining@.len() < value@.len(),
                        parse_items(rest@, length as nat) == prepend(
                            views(elements@),
                            parse_items(remaining@, (length - count) as nat),
                        ),
                    decreases length - count,
                {
                    proof {
                        lemma_parse_items_step(
                            views(elements@),
                            remaining@,
                            (length - count) as nat,
                        );
                        lemma_parse_value_shrinks(remaining@);
                    }
                    match try_with_remaining(remaining) {
                        Err(e) => {
                            return Err(e);
                        },
                        Ok((element, remainder)) => {
                            assert(views(elements@).push(element@) =~= views(
                                elements@.push(element),
                            ));
                            elements.push_back(element);
                            remaining = remainder;
                        },
                    }
                    count += 1;
                }
                proof {
                    lemma_array_view(elements);
                    assert(views(elements@) + Seq::<WireValue>::empty() =~= views(elements@));
                }
                Ok((RespType::Array(elements), remaining))
            },
        }
    } else {
        Err(Error::UnknownType(sigil as char))
    }
}

impl<'a> TryFrom<&'a [u8]> for RespType<'a> {
    type Error = Error;

    /// Decodes `value` as exactly one wire value.
    fn try_from(value: &'a [u8]) -> (r: Result<Self, Error>)
        ensures
            decode(value@) == match r {
                Ok(v) => Ok(v@),
                Err(e) => Err(e),
            },
    {
        match try_with_remaining(value) {
            Err(e) => Err(e),
            Ok((result, remaining)) => if remaining.len() == 0 {
                Ok(result)
            } else {
                Err(Error::ExtraBytes)
            },
        }
    }
}

impl<'a> TryFromSpecImpl<&'a [u8]> for RespType<'a> {
    open spec fn obeys_try_from_spec() -> bool {
        false
    }

    open spec fn try_from_spec(v: &'a [u8]) -> Result<Self, Error> {
        arbitrary()
    }
}

} // verus!
