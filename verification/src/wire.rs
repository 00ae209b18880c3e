//! The wire format as mathematics: what a value is, which bytes encode it and
//! what a byte string decodes to. The executable codecs are proved against
//! these definitions.

use crate::decimal::{decimal, parse_decimal};
use crate::resp::Error;
use vstd::prelude::*;
use vstd::utf8::{decode_utf8, encode_utf8, valid_utf8};

verus! {

/// Carriage return, the first byte of a terminator.
pub const CR: u8 = 0x0d;

/// Line feed, the second byte of a terminator.
pub const LF: u8 = 0x0a;

/// The sigil `+` of a simple string.
pub const SIMPLE_STRING: u8 = 0x2b;

/// The sigil `-` of a simple error.
pub const SIMPLE_ERROR: u8 = 0x2d;

/// The sigil `$` of a bulk string.
pub const BULK_STRING: u8 = 0x24;

/// The sigil `*` of an array.
pub const ARRAY: u8 = 0x2a;

/// One value of the protocol's data model.
pub enum WireValue {
    /// Status text.
    SimpleString(Seq<char>),
    /// Error text.
    SimpleError(Seq<char>),
    /// A binary-safe byte string.
    BulkString(Seq<u8>),
    /// An ordered sequence of values of any kind.
    Array(Seq<WireValue>),
}

/// The terminator `\r\n`.
pub open spec fn crlf() -> Seq<u8> {
    seq![CR, LF]
}

/// Whether a terminator starts at index `i` of `s`.
pub open spec fn is_crlf_at(s: Seq<u8>, i: int) -> bool {
    0 <= i && i + 1 < s.len() && s[i] == CR && s[i + 1] == LF
}

/// Whether `s` holds a terminator anywhere.
pub open spec fn has_crlf(s: Seq<u8>) -> bool {
    exists|i: int| is_crlf_at(s, i)
}

/// Whether the first terminator of `s` starts at index `i`.
pub open spec fn is_first_crlf(s: Seq<u8>, i: int) -> bool {
    is_crlf_at(s, i) && forall|j: int| 0 <= j < i ==> !is_crlf_at(s, j)
}

/// The index at which the first terminator of `s` starts, if `s` holds one.
pub open spec fn first_crlf(s: Seq<u8>) -> Option<int> {
    if exists|i: int| is_first_crlf(s, i) {
        Some(choose|i: int| is_first_crlf(s, i))
    } else {
        None
    }
}

/// The bytes that encode `v`.
pub open spec fn encode(v: WireValue) -> Seq<u8>
    decreases v, 0int,
{
    match v {
        WireValue::SimpleString(text) => seq![SIMPLE_STRING] + encode_utf8(text) + crlf(),
        WireValue::SimpleError(text) => seq![SIMPLE_ERROR] + encode_utf8(text) + crlf(),
        WireValue::BulkString(bytes) => seq![BULK_STRING] + decimal(bytes.len()) + crlf() + bytes
            + crlf(),
        WireValue::Array(items) => seq![ARRAY] + decimal(items.len()) + crlf() + encode_all(items),
    }
}

/// The encodings of `items`, one after the other.
pub open spec fn encode_all(items: Seq<WireValue>) -> Seq<u8>
    decreases items, 1int,
{
    if items.len() == 0 {
        Seq::empty()
    } else {
        encode(items[0]) + encode_all(items.drop_first())
    }
}

/// The encoding of "no value", which no `WireValue` stands for.
pub open spec fn encode_null() -> Seq<u8> {
    seq![BULK_STRING, 0x2du8, 0x31u8, CR, LF]
}

/// Reads the line of text that follows the sigil `s[0]`: the text and the bytes
/// after its terminator.
pub open spec fn text_line(s: Seq<u8>) -> Result<(Seq<char>, Seq<u8>), Error> {
    match first_crlf(s) {
        None => Err(Error::UnterminatedSequence),
        Some(cr) => {
            let body = s.subrange(1, cr);
            if valid_utf8(body) {
                Ok((decode_utf8(body), s.skip(cr + 2)))
            } else {
                Err(Error::InvalidUTF8)
            }
        },
    }
}

/// Reads the length that follows the sigil `s[0]`: the number and the bytes
/// after its terminator.
pub open spec fn length_line(s: Seq<u8>) -> Result<(nat, Seq<u8>), Error> {
    match first_crlf(s) {
        None => Err(Error::UnterminatedSequence),
        Some(cr) => {
            let field = s.subrange(1, cr);
            if !valid_utf8(field) {
                Err(Error::InvalidUTF8)
            } else {
                match parse_decimal(field, u32::MAX as nat) {
                    None => Err(Error::InvalidUnsigned32BitNumber),
                    Some(n) => Ok((n, s.skip(cr + 2))),
                }
            }
        },
    }
}

/// Reads a bulk string's payload of `n` bytes and its terminator from `s`: the
/// payload and the bytes after the terminator.
pub open spec fn bulk_payload(s: Seq<u8>, n: nat) -> Result<(Seq<u8>, Seq<u8>), Error> {
    if first_crlf(s) is None {
        Err(Error::UnterminatedSequence)
    } else if is_crlf_at(s, n as int) {
        Ok((s.take(n as int), s.skip(n as int + 2)))
    } else {
        Err(Error::InvalidLength)
    }
}

/// Reads one value from the front of `s`: the value and the bytes after it.
pub open spec fn parse_value(s: Seq<u8>) -> Result<(WireValue, Seq<u8>), Error>
    decreases s.len(), 0nat,
{
    if s.len() == 0 {
        Err(Error::EmptyValue)
    } else if s[0] == SIMPLE_STRING {
        match text_line(s) {
            Err(e) => Err(e),
            Ok((text, rest)) => Ok((WireValue::SimpleString(text), rest)),
        }
    } else if s[0] == SIMPLE_ERROR {
        match text_line(s) {
            Err(e) => Err(e),
            Ok((text, rest)) => Ok((WireValue::SimpleError(text), rest)),
        }
    } else if s[0] == BULK_STRING {
        match length_line(s) {
            Err(e) => Err(e),
            Ok((n, rest)) => match bulk_payload(rest, n) {
                Err(e) => Err(e),
                Ok((bytes, rest)) => Ok((WireValue::BulkString(bytes), rest)),
            },
        }
    } else if s[0] == ARRAY {
        match length_line(s) {
            Err(e) => Err(e),
            Ok((n, rest)) => match parse_items(rest, n) {
                Err(e) => Err(e),
                Ok((items, rest)) => Ok((WireValue::Array(items), rest)),
            },
        }
    } else {
        Err(Error::UnknownType(s[0] as char))
    }
}

/// Reads `n` values from the front of `s`, one after the other: the values and
/// the bytes after the last of them. A value that was read took at least its
/// sigil (`lemma_parse_value_shrinks`), so the test on the rest's length always
/// holds; it is there for the definition to be well-founded.
pub open spec fn parse_items(s: Seq<u8>, n: nat) -> Result<(Seq<WireValue>, Seq<u8>), Error>
    decreases s.len(), n + 1,
{
    if n == 0 {
        Ok((Seq::empty(), s))
    } else {
        match parse_value(s) {
            Err(e) => Err(e),
            Ok((first, rest)) => if rest.len() <= s.len() {
                match parse_items(rest, (n - 1) as nat) {
                    Err(e) => Err(e),
                    Ok((others, rest)) => Ok((seq![first] + others, rest)),
                }
            } else {
                Err(Error::UnterminatedSequence)
            },
        }
    }
}

/// Puts `front` before the values of a reading that went well.
pub open spec fn prepend(
    front: Seq<WireValue>,
    reading: Result<(Seq<WireValue>, Seq<u8>), Error>,
) -> Result<(Seq<WireValue>, Seq<u8>), Error> {
    match reading {
        Err(e) => Err(e),
        Ok((items, rest)) => Ok((front + items, rest)),
    }
}

/// What `s` decodes to as a whole: exactly one value, with nothing after it.
pub open spec fn decode(s: Seq<u8>) -> Result<WireValue, Error> {
    match parse_value(s) {
        Err(e) => Err(e),
        Ok((v, rest)) => if rest.len() == 0 {
            Ok(v)
        } else {
            Err(Error::ExtraBytes)
        },
    }
}

/// The first terminator of `s` starts at `i` when one starts there and none
/// starts before.
pub proof fn lemma_first_crlf_at(s: Seq<u8>, i: int)
    requires
        is_first_crlf(s, i),
    ensures
        first_crlf(s) == Some(i),
{
    let c = choose|c: int| is_first_crlf(s, c);
    if c < i {
        assert(!is_crlf_at(s, c));
    } else if i < c {
        assert(!is_crlf_at(s, i));
    }
}

/// A byte string without a terminator has no first terminator.
pub proof fn lemma_first_crlf_none(s: Seq<u8>)
    requires
        !has_crlf(s),
    ensures
        first_crlf(s) is None,
{
    if exists|i: int| is_first_crlf(s, i) {
        let c = choose|c: int| is_first_crlf(s, c);
        assert(is_crlf_at(s, c));
    }
}

/// A byte string with a terminator has a first terminator, at or before any
/// index where one starts.
pub proof fn lemma_first_crlf_exists(s: Seq<u8>, i: int)
    requires
        is_crlf_at(s, i),
    ensures
        first_crlf(s) matches Some(cr) && cr <= i && is_first_crlf(s, cr),
    decreases i,
{
    if exists|j: int| 0 <= j < i && is_crlf_at(s, j) {
        let j = choose|j: int| 0 <= j < i && is_crlf_at(s, j);
        lemma_first_crlf_exists(s, j);
    } else {
        assert(is_first_crlf(s, i));
        lemma_first_crlf_at(s, i);
    }
}

/// A value that was read took at least one byte, and `n` values that were read
/// are `n` values.
pub proof fn lemma_parse_value_shrinks(s: Seq<u8>)
    ensures
        parse_value(s) matches Ok((_, rest)) ==> rest.len() < s.len(),
    decreases s.len(), 0nat,
{
    if s.len() > 0 && s[0] == ARRAY {
        if let Ok((n, rest)) = length_line(s) {
            lemma_parse_items_shrinks(rest, n);
        }
    }
}

/// Reading `n` values never gives back more bytes than it was given.
pub proof fn lemma_parse_items_shrinks(s: Seq<u8>, n: nat)
    ensures
        parse_items(s, n) matches Ok((items, rest)) ==> rest.len() <= s.len() && items.len() == n,
    decreases s.len(), n + 1,
{
    if n > 0 {
        lemma_parse_value_shrinks(s);
        if let Ok((_, rest)) = parse_value(s) {
            lemma_parse_items_shrinks(rest, (n - 1) as nat);
        }
    }
}

/// Reading `n` values is reading one value and then `n - 1` more.
pub proof fn lemma_parse_items_step(front: Seq<WireValue>, s: Seq<u8>, n: nat)
    requires
        n > 0,
    ensures
        prepend(front, parse_items(s, n)) == match parse_value(s) {
            Err(e) => Err(e),
            Ok((first, rest)) => prepend(front.push(first), parse_items(rest, (n - 1) as nat)),
        },
{
    lemma_parse_value_shrinks(s);
    if let Ok((first, rest)) = parse_value(s) {
        if let Ok((others, _)) = parse_items(rest, (n - 1) as nat) {
            assert(front + (seq![first] + others) =~= front.push(first) + others);
        }
    }
}

/// Encoding one more item appends its encoding.
pub proof fn lemma_encode_all_push(items: Seq<WireValue>, last: WireValue)
    ensures
        encode_all(items.push(last)) == encode_all(items) + encode(last),
    decreases items.len(),
{
    if items.len() == 0 {
        let one = items.push(last);
        assert(one.drop_first() =~= Seq::<WireValue>::empty());
        assert(encode_all(one.drop_first()) =~= Seq::<u8>::empty());
        assert(encode_all(one) =~= encode(one[0]) + encode_all(one.drop_first()));
        assert(encode_all(items) + encode(last) =~= encode(last));
    } else {
        lemma_encode_all_push(items.drop_first(), last);
        assert(items.push(last).drop_first() =~= items.drop_first().push(last));
        assert(encode(items[0]) + (encode_all(items.drop_first()) + encode(last)) =~= (encode(
            items[0],
        ) + encode_all(items.drop_first())) + encode(last));
    }
}

} // verus!
