use redis_starter_rust::redis_type::{Error, RedisType};


#[test]
fn redis_type_empty_should_not_have_a_type() {
    let input: &[u8] = b"";
    assert_eq!(RedisType::try_from(input), Err(Error::EmptyValue))
}

#[test]
fn redis_type_unknown_type_should_fail() {
    let input: &[u8] = b"z\r\n...\r\n";
    assert_eq!(RedisType::try_from(input), Err(Error::UnknownType('z')));
}

#[test]
fn redis_type_parse_simple_string() -> Result<(), Error> {
    let input: &[u8] = b"+OK\r\n";
    let result = RedisType::try_from(input)?;

    assert_eq!(result, RedisType::SimpleString("OK"));

    Ok(())
}

#[test]
fn redis_type_parse_bulk_string() -> Result<(), Error> {
    let input: &[u8] = b"$4\r\nRust\r\n";
    let result = RedisType::try_from(input)?;

    assert_eq!(result, RedisType::BulkString(b"Rust"));

    Ok(())
}

#[test]
fn redis_type_invalid_u32() {
    let input: &[u8] = b"$h\r\nhello\r\n";
    assert_eq!(
        RedisType::try_from(input),
        Err(Error::InvalidUnsigned32BitNumber)
    );
}

#[test]
fn redis_type_invalid_length() {
    let input: &[u8] = b"$2\r\nRust\r\n";
    assert_eq!(RedisType::try_from(input), Err(Error::InvalidLength));
}

#[test]
fn redis_type_parse_array_same_type() -> Result<(), Error> {
    let input: &[u8] = b"*1\r\n$4\r\nPING\r\n";
    let result = RedisType::try_from(input)?;

    assert_eq!(
        result,
        RedisType::Array(vec![RedisType::BulkString(b"PING")])
    );

    Ok(())
}

#[test]
fn redis_type_parse_array_mixed_type() -> Result<(), Error> {
    let input: &[u8] = b"*2\r\n$4\r\nPING\r\n+OK\r\n";
    let result = RedisType::try_from(input)?;

    assert_eq!(
        result,
        RedisType::Array(vec![
            RedisType::BulkString(b"PING"),
            RedisType::SimpleString("OK")
        ])
    );

    Ok(())
}

#[test]
fn redis_type_extra_bytes() {
    let input: &[u8] = b"+Sure\r\njunk...";
    assert_eq!(RedisType::try_from(input), Err(Error::ExtraBytes));
}

#[test]
fn redis_type_invalid_utf8_in_simple_string() {
    // Invalid UTF-8 starting with + and finishing with \r\n
    let input: &[u8] = &[0x2B, 0xF0, 0x28, 0x8C, 0x28, 0x0D, 0x0A];
    assert_eq!(RedisType::try_from(input), Err(Error::InvalidUTF8));
}

#[test]
fn redis_type_invalid_utf8_in_length() {
    // Invalid UTF-8 starting with $2 and finishing with \r\n
    let input: &[u8] = &[0x24, 0x32, 0xF0, 0x28, 0x8C, 0x28, 0x0D, 0x0A];
    assert_eq!(RedisType::try_from(input), Err(Error::InvalidUTF8));
}

#[test]
fn redis_type_parse_simple_error() -> Result<(), Error> {
    let input: &[u8] = b"-ERR unknown command 'asdf'\r\n";
    let result = RedisType::try_from(input)?;

    assert_eq!(result, RedisType::SimpleError("ERR unknown command 'asdf'"));

    Ok(())
}
