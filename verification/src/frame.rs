//! Finding the terminators that frame every line of the wire format.

use crate::decimal::parse_unsigned;
use crate::resp::Error;
use crate::wire::{
    bulk_payload, crlf, first_crlf, has_crlf, is_crlf_at, is_first_crlf, lemma_first_crlf_at,
    lemma_first_crlf_none, length_line, text_line, CR, LF,
};
use vstd::prelude::*;

verus! {

/// Finds the first `\r\n` of `s`.
pub fn find_crlf(s: &[u8]) -> (r: Option<usize>)
    ensures
        match r {
            Some(i) => first_crlf(s@) == Some(i as int) && is_first_crlf(s@, i as int),
            None => first_crlf(s@) is None && !has_crlf(s@),
        },
{
    let n: usize = s.len();
    let mut i: usize = 0;
    while 1 < n - i
        invariant
            n == s@.len(),
            i <= n,
            forall|j: int| 0 <= j < i ==> !is_crlf_at(s@, j),
        decreases n - i,
    {
        if s[i] == CR && s[i + 1] == LF {
            proof {
                lemma_first_crlf_at(s@, i as int);
            }
            return Some(i);
        }
        i += 1;
    }
    proof {
        assert(!has_crlf(s@));
        lemma_first_crlf_none(s@);
    }
    None
}

/// Reads the line of text that follows the sigil `value[0]`.
pub(crate) fn read_text<'a>(value: &'a [u8]) -> (r: Result<(&'a str, &'a [u8]), Error>)
    requires
        value@.len() > 0,
        value@[0] != CR,
    ensures
        text_line(value@) == match r {
            Ok((text, rest)) => Ok((text@, rest@)),
            Err(e) => Err(e),
        },
{
    let len: usize = value.len();
    match find_crlf(value) {
        None => Err(Error::UnterminatedSequence),
        Some(cr) => {
            assert(is_crlf_at(value@, cr as int));
            match core::str::from_utf8(&value[1..cr]) {
                Err(_) => Err(Error::InvalidUTF8),
                Ok(text) => Ok((text, &value[cr + 2..len])),
            }
        },
    }
}

/// Reads the length that follows the sigil `value[0]`.
pub(crate) fn read_length<'a>(value: &'a [u8]) -> (r: Result<(u32, &'a [u8]), Error>)
    requires
        value@.len() > 0,
        value@[0] != CR,
    ensures
        length_line(value@) == match r {
            Ok((n, rest)) => Ok((n as nat, rest@)),
            Err(e) => Err(e),
        },
{
    let len: usize = value.len();
    match find_crlf(value) {
        None => Err(Error::UnterminatedSequence),
        Some(cr) => {
            assert(is_crlf_at(value@, cr as int));
            let field: &[u8] = &value[1..cr];
            match core::str::from_utf8(field) {
                Err(_) => Err(Error::InvalidUTF8),
                Ok(_) => match parse_unsigned(field, 0xffff_ffff) {
                    None => Err(Error::InvalidUnsigned32BitNumber),
                    Some(n) => Ok((n as u32, &value[cr + 2..len])),
                },
            }
        },
    }
}

/// Reads a bulk string's payload of `n` bytes and its terminator.
pub(crate) fn read_bulk<'a>(value: &'a [u8], n: u32) -> (r: Result<(&'a [u8], &'a [u8]), Error>)
    ensures
        bulk_payload(value@, n as nat) == match r {
            Ok((bytes, rest)) => Ok((bytes@, rest@)),
            Err(e) => Err(e),
        },
{
    if find_crlf(value).is_none() {
        return Err(Error::UnterminatedSequence);
    }
    let len: usize = n as usize;
    if len < value.len() - 1 && value[len] == CR && value[len + 1] == LF {
        Ok((&value[0..len], &value[len + 2..value.len()]))
    } else {
        Err(Error::InvalidLength)
    }
}

/// Appends the bytes of `bytes` to `out`.
pub fn push_all(out: &mut Vec<u8>, bytes: &[u8])
    ensures
        final(out)@ == old(out)@ + bytes@,
{
    out.extend_from_slice(bytes);
    assert(out@ =~= old(out)@ + bytes@);
}

/// Appends the terminator `\r\n` to `out`.
pub fn push_crlf(out: &mut Vec<u8>)
    ensures
        final(out)@ == old(out)@ + crlf(),
{
    out.push(CR);
    out.push(LF);
    assert(out@ =~= old(out)@ + crlf());
}

} // verus!
