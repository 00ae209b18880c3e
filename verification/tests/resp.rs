use redis_starter_rust::resp::{Error, RespType};
use std::collections::VecDeque;


#[test]
fn resp_empty_should_not_have_a_type() {
    let input: &[u8] = b"";
    assert_eq!(RespType::try_from(input), Err(Error::EmptyValue))
}

#[test]
fn resp_unknown_type_should_fail() {
    let input: &[u8] = b"z\r\n...\r\n";
    assert_eq!(RespType::try_from(input), Err(Error::UnknownType('z')));
}

#[test]
fn resp_parse_simple_string() -> Result<(), Error> {
    let input: &[u8] = b"+OK\r\n";
    let result = RespType::try_from(input)?;

    assert_eq!(result, RespType::SimpleString("OK".into()));

    Ok(())
}

#[test]
fn resp_parse_bulk_string() -> Result<(), Error> {
    let input: &[u8] = b"$4\r\nRust\r\n";
    let result = RespType::try_from(input)?;

    assert_eq!(result, RespType::BulkString(b"Rust"[..].into()));

    Ok(())
}

#[test]
fn resp_invalid_u32() {
    let input: &[u8] = b"$h\r\nhello\r\n";
    assert_eq!(
        RespType::try_from(input),
        Err(Error::InvalidUnsigned32BitNumber)
    );
}

#[test]
fn resp_invalid_length() {
    let input: &[u8] = b"$2\r\nRust\r\n";
    assert_eq!(RespType::try_from(input), Err(Error::InvalidLength));
}

#[test]
fn resp_parse_array_same_type() -> Result<(), Error> {
    let input: &[u8] = b"*1\r\n$4\r\nPING\r\n";
    let result = RespType::try_from(input)?;

    assert_eq!(
        result,
        RespType::Array(VecDeque::from([RespType::BulkString(b"PING"[..].into())]))
    );

    Ok(())
}

#[test]
fn resp_parse_array_mixed_type() -> Result<(), Error> {
    let input: &[u8] = b"*2\r\n$4\r\nPING\r\n+OK\r\n";
    let result = RespType::try_from(input)?;

    assert_eq!(
        result,
        RespType::Array(VecDeque::from([
            RespType::BulkString(b"PING"[..].into()),
            RespType::SimpleString("OK".into())
        ]))
    );

    Ok(())
}

#[test]
fn resp_extra_bytes() {
    let input: &[u8] = b"+Sure\r\njunk...";
    assert_eq!(RespType::try_from(input), Err(Error::ExtraBytes));
}

#[test]
fn resp_invalid_utf8_in_simple_string() {
    // Invalid UTF-8 starting with + and finishing with \r\n
    let input: &[u8] = &[0x2B, 0xF0, 0x28, 0x8C, 0x28, 0x0D, 0x0A];
    assert_eq!(RespType::try_from(input), Err(Error::InvalidUTF8));
}

#[test]
fn resp_invalid_utf8_in_length() {
    // Invalid UTF-8 starting with $2 and finishing with \r\n
    let input: &[u8] = &[0x24, 0x32, 0xF0, 0x28, 0x8C, 0x28, 0x0D, 0x0A];
    assert_eq!(RespType::try_from(input), Err(Error::InvalidUTF8));
}

#[test]
fn resp_parse_simple_error() -> Result<(), Error> {
    let input: &[u8] = b"-ERR unknown command 'asdf'\r\n";
    let result = RespType::try_from(input)?;

    assert_eq!(
        result,
        RespType::SimpleError("ERR unknown command 'asdf'".into())
    );

    Ok(())
}
