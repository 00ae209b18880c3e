//! Encoding and decoding are inverse to each other on the values that the wire
//! format can carry.

use crate::decimal::{
    all_digits, decimal, is_digit, lemma_decimal_digits, lemma_parse_decimal_of_decimal,
};
use crate::resp::Error;
use crate::text::{is_ascii_bytes, lemma_ascii_is_utf8};
use crate::wire::{
    bulk_payload, crlf, decode, encode, encode_all, first_crlf, has_crlf, is_crlf_at,
    is_first_crlf, lemma_first_crlf_at, lemma_first_crlf_exists, lemma_parse_value_shrinks,
    length_line, parse_items, parse_value, WireValue, ARRAY, BULK_STRING, CR, SIMPLE_ERROR,
    SIMPLE_STRING,
};
use vstd::prelude::*;
use vstd::utf8::{
    decode_utf8_encode_utf8, encode_utf8, encode_utf8_decode_utf8, encode_utf8_valid_utf8,
    valid_utf8,
};

verus! {

/// Whether the wire format can carry `v`: text holds no terminator, and
/// lengths and counts fit the 32-bit prefix.
pub open spec fn well_formed(v: WireValue) -> bool
    decreases v,
{
    match v {
        WireValue::SimpleString(text) => !has_crlf(encode_utf8(text)),
        WireValue::SimpleError(text) => !has_crlf(encode_utf8(text)),
        WireValue::BulkString(bytes) => bytes.len() <= u32::MAX,
        WireValue::Array(items) => items.len() <= u32::MAX && forall|i: int|
            0 <= i < items.len() ==> well_formed(#[trigger] items[i]),
    }
}

/// A line is a sigil, a body without a terminator and a terminator: the first
/// terminator of the line, whatever follows it, is its own.
pub proof fn lemma_line(sigil: u8, body: Seq<u8>, rest: Seq<u8>)
    requires
        sigil != CR,
        !has_crlf(body),
    ensures
        ({
            let line = seq![sigil] + body + crlf() + rest;
            &&& first_crlf(line) == Some(1 + body.len() as int)
            &&& line.subrange(1, 1 + body.len() as int) == body
            &&& line.skip(1 + body.len() as int + 2) == rest
        }),
{
    let line = seq![sigil] + body + crlf() + rest;
    let cr = 1 + body.len() as int;
    assert(is_crlf_at(line, cr));
    assert forall|j: int| 0 <= j < cr implies !is_crlf_at(line, j) by {
        if 1 <= j && j + 1 < cr {
            assert(!is_crlf_at(body, j - 1));
            assert(line[j] == body[j - 1]);
            assert(line[j + 1] == body[j]);
        }
    }
    lemma_first_crlf_at(line, cr);
    assert(line.subrange(1, cr) =~= body);
    assert(line.skip(cr + 2) =~= rest);
}

/// Digits hold no terminator and are UTF-8.
pub proof fn lemma_digits_are_plain(d: Seq<u8>)
    requires
        all_digits(d),
    ensures
        !has_crlf(d),
        valid_utf8(d),
{
    assert forall|i: int| !is_crlf_at(d, i) by {
        if 0 <= i < d.len() {
            assert(is_digit(d[i]));
        }
    }
    assert(is_ascii_bytes(d)) by {
        assert forall|i: int| 0 <= i < d.len() implies #[trigger] d[i] < 0x80 by {
            assert(is_digit(d[i]));
        }
    }
    lemma_ascii_is_utf8(d);
}

/// The length line that `encode` writes for `n` reads back as `n`.
pub proof fn lemma_length_line(sigil: u8, n: nat, rest: Seq<u8>)
    requires
        sigil != CR,
        n <= u32::MAX,
    ensures
        length_line(seq![sigil] + decimal(n) + crlf() + rest) == Ok::<_, Error>(
            (n, rest),
        ),
{
    lemma_decimal_digits(n);
    lemma_digits_are_plain(decimal(n));
    lemma_line(sigil, decimal(n), rest);
    lemma_parse_decimal_of_decimal(n, u32::MAX as nat);
}

/// Reading the encoding of a well-formed value gives the value back and leaves
/// what followed it.
pub proof fn lemma_parse_encode(v: WireValue, tail: Seq<u8>)
    requires
        well_formed(v),
    ensures
        parse_value(encode(v) + tail) == Ok::<_, Error>((v, tail)),
    decreases v, 0int,
{
    let s = encode(v) + tail;
    match v {
        WireValue::SimpleString(text) => {
            let body = encode_utf8(text);
            assert(s =~= seq![SIMPLE_STRING] + body + crlf() + tail);
            lemma_line(SIMPLE_STRING, body, tail);
            encode_utf8_valid_utf8(text);
            encode_utf8_decode_utf8(text);
        },
        WireValue::SimpleError(text) => {
            let body = encode_utf8(text);
            assert(s =~= seq![SIMPLE_ERROR] + body + crlf() + tail);
            lemma_line(SIMPLE_ERROR, body, tail);
            encode_utf8_valid_utf8(text);
            encode_utf8_decode_utf8(text);
        },
        WireValue::BulkString(bytes) => {
            let n = bytes.len();
            let rest = bytes + crlf() + tail;
            assert(s =~= seq![BULK_STRING] + decimal(n) + crlf() + rest);
            lemma_length_line(BULK_STRING, n, rest);
            assert(is_crlf_at(rest, n as int));
            lemma_first_crlf_exists(rest, n as int);
            assert(rest.take(n as int) =~= bytes);
            assert(rest.skip(n as int + 2) =~= tail);
        },
        WireValue::Array(items) => {
            let n = items.len();
            let rest = encode_all(items) + tail;
            assert(s =~= seq![ARRAY] + decimal(n) + crlf() + rest);
            lemma_length_line(ARRAY, n, rest);
            lemma_parse_encode_all(items, tail);
        },
    }
}

/// Reading the encodings of well-formed values, one after the other, gives the
/// values back and leaves what followed them.
pub proof fn lemma_parse_encode_all(items: Seq<WireValue>, tail: Seq<u8>)
    requires
        forall|i: int| 0 <= i < items.len() ==> well_formed(#[trigger] items[i]),
    ensures
        parse_items(encode_all(items) + tail, items.len()) == Ok::<_, Error>(
            (items, tail),
        ),
    decreases items, 1int,
{
    if items.len() == 0 {
        assert(encode_all(items) + tail =~= tail);
        assert(items =~= Seq::<WireValue>::empty());
    } else {
        let others = items.drop_first();
        let after = encode_all(others) + tail;
        assert(encode_all(items) + tail =~= encode(items[0]) + after);
        lemma_parse_encode(items[0], after);
        assert forall|i: int| 0 <= i < others.len() implies well_formed(#[trigger] others[i]) by {
            assert(others[i] == items[i + 1]);
        }
        lemma_parse_encode_all(others, tail);
        assert(seq![items[0]] + others =~= items);
    }
}

/// Round trip: a well-formed value, encoded and decoded, is the value again,
/// with no byte left over.
pub proof fn lemma_decode_encode(v: WireValue)
    requires
        well_formed(v),
    ensures
        decode(encode(v)) == Ok::<_, Error>(v),
{
    lemma_parse_encode(v, Seq::empty());
    assert(encode(v) + Seq::<u8>::empty() =~= encode(v));
}

/// Whatever was read from bytes is well-formed.
pub proof fn lemma_parsed_is_well_formed(s: Seq<u8>)
    ensures
        parse_value(s) matches Ok((v, _)) ==> well_formed(v),
    decreases s.len(), 0nat,
{
    if s.len() == 0 {
    } else if s[0] == SIMPLE_STRING || s[0] == SIMPLE_ERROR {
        if let Some(cr) = first_crlf(s) {
            let body = s.subrange(1, cr);
            assert(is_first_crlf(s, cr));
            if valid_utf8(body) {
                decode_utf8_encode_utf8(body);
                assert forall|j: int| !is_crlf_at(body, j) by {
                    if is_crlf_at(body, j) {
                        assert(is_crlf_at(s, j + 1));
                    }
                }
            }
        }
    } else if s[0] == BULK_STRING {
        if let Ok((n, rest)) = length_line(s) {
            if let Ok((bytes, _)) = bulk_payload(rest, n) {
                assert(bytes.len() == n);
            }
        }
    } else if s[0] == ARRAY {
        if let Ok((n, rest)) = length_line(s) {
            lemma_parsed_items_are_well_formed(rest, n);
        }
    }
}

/// Whatever values were read from bytes are well-formed, and as many as asked.
pub proof fn lemma_parsed_items_are_well_formed(s: Seq<u8>, n: nat)
    ensures
        parse_items(s, n) matches Ok((items, _)) ==> items.len() == n && forall|i: int|
            0 <= i < items.len() ==> well_formed(#[trigger] items[i]),
    decreases s.len(), n + 1,
{
    if n > 0 {
        lemma_parsed_is_well_formed(s);
        lemma_parse_value_shrinks(s);
        if let Ok((_, rest)) = parse_value(s) {
            lemma_parsed_items_are_well_formed(rest, (n - 1) as nat);
        }
    }
}

/// A value decoded from bytes, encoded again and decoded again, is the same
/// value.
pub proof fn lemma_decode_encode_decode(s: Seq<u8>)
    ensures
        decode(s) matches Ok(v) ==> well_formed(v) && decode(encode(v)) == Ok::<_, Error>(v),
{
    lemma_parsed_is_well_formed(s);
    if let Ok(v) = decode(s) {
        lemma_decode_encode(v);
    }
}

} // verus!
