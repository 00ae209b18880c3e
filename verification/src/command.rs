//! The commands of the server and how a decoded request names one.

use crate::decimal::parse_decimal;
use crate::resp::{lemma_array_view, views, BulkString, RespType};
use crate::text::{eq_ignore_ascii_case, eq_ignore_case};
use crate::wire::WireValue;
use std::collections::VecDeque;
use vstd::prelude::*;
use vstd::std_specs::convert::TryFromSpecImpl;
use vstd::utf8::{decode_utf8_encode_utf8, encode_utf8, valid_utf8};

verus! {

/// One request of a client.
#[derive(Debug, PartialEq, Eq)]
pub enum Command<'a> {
    /// Asks for a sign of life.
    Ping,
    /// Asks for the message back.
    Echo(BulkString<'a>),
    /// Stores a value under a key, for good or for a number of milliseconds.
    SetKey(BulkString<'a>, BulkString<'a>, Option<u64>),
    /// Asks for the value under a key.
    Get(BulkString<'a>),
}

/// What a command says, apart from where its bytes are held.
pub enum CommandView {
    Ping,
    Echo(Seq<u8>),
    SetKey(Seq<u8>, Seq<u8>, Option<u64>),
    Get(Seq<u8>),
}

impl<'a> View for Command<'a> {
    type V = CommandView;

    open spec fn view(&self) -> CommandView {
        match self {
            Command::Ping => CommandView::Ping,
            Command::Echo(message) => CommandView::Echo(message@),
            Command::SetKey(key, value, ttl) => CommandView::SetKey(key@, value@, *ttl),
            Command::Get(key) => CommandView::Get(key@),
        }
    }
}

/// Why a request names no command.
#[derive(Debug, Clone, Copy, PartialEq, Eq)]
pub enum ParseError {
    /// The request is not an array.
    NotAnArray,
    /// The array is empty, or its first item is no bulk string.
    NoCommand,
    /// The command's name is not UTF-8.
    CommandNotUtf8,
    /// ECHO came without a bulk string to send back.
    NothingToEcho,
    /// SET or GET came without a bulk string for the key.
    MissingKey,
    /// SET came without a bulk string for the value.
    MissingValue,
    /// An option of SET is no bulk string.
    OptionNotBulkString,
    /// The argument of PX is not an unsigned number of milliseconds.
    PxNotMilliseconds,
    /// PX came without a bulk string for its argument.
    PxMissing,
    /// The name is none of PING, ECHO, SET and GET.
    UnknownCommand,
}

impl ParseError {
    /// The text that is sent to the peer for this error.
    pub open spec fn text(self) -> Seq<char> {
        match self {
            ParseError::NotAnArray => "ERR request should be an Array"@,
            ParseError::NoCommand => "ERR no command sent!"@,
            ParseError::CommandNotUtf8 => "ERR command is not valid UTF8"@,
            ParseError::NothingToEcho => "ERR nothing to echo back"@,
            ParseError::MissingKey => "ERR missing or incorrectly formatted key"@,
            ParseError::MissingValue => "ERR missing or incorrectly formatted value"@,
            ParseError::OptionNotBulkString => "ERR expecting BulkString for option"@,
            ParseError::PxNotMilliseconds => "ERR PX no provided in milliseconds"@,
            ParseError::PxMissing => "ERR PX duration missing"@,
            ParseError::UnknownCommand => "ERR unknown command"@,
        }
    }

    /// The text that is sent to the peer for this error.
    pub fn message(&self) -> (r: &'static str)
        ensures
            r@ == self.text(),
    {
        match self {
            ParseError::NotAnArray => "ERR request should be an Array",
            ParseError::NoCommand => "ERR no command sent!",
            ParseError::CommandNotUtf8 => "ERR command is not valid UTF8",
            ParseError::NothingToEcho => "ERR nothing to echo back",
            ParseError::MissingKey => "ERR missing or incorrectly formatted key",
            ParseError::MissingValue => "ERR missing or incorrectly formatted value",
            ParseError::OptionNotBulkString => "ERR expecting BulkString for option",
            ParseError::PxNotMilliseconds => "ERR PX no provided in milliseconds",
            ParseError::PxMissing => "ERR PX duration missing",
            ParseError::UnknownCommand => "ERR unknown command",
        }
    }
}

/// Whether the bytes `name` spell `keyword`, in upper or lower case.
pub open spec fn is_keyword(name: Seq<u8>, keyword: Seq<char>) -> bool {
    eq_ignore_case(name, encode_utf8(keyword))
}

/// The time to live that the options of SET ask for, read in order from
/// `options`; `ttl` is what the options before them asked for. Each `PX` takes
/// the next item as its number of milliseconds, and the last `PX` wins; an
/// option of another name is passed over.
pub open spec fn parse_options(options: Seq<WireValue>, ttl: Option<u64>) -> Result<
    Option<u64>,
    ParseError,
>
    decreases options.len(),
{
    if options.len() == 0 {
        Ok(ttl)
    } else {
        match options[0] {
            WireValue::BulkString(name) => {
                if valid_utf8(name) && is_keyword(name, "px"@) {
                    if options.len() > 1 && options[1] is BulkString {
                        match parse_decimal(options[1]->BulkString_0, u64::MAX as nat) {
                            Some(millis) => parse_options(options.skip(2), Some(millis as u64)),
                            None => Err(ParseError::PxNotMilliseconds),
                        }
                    } else {
                        Err(ParseError::PxMissing)
                    }
                } else {
                    parse_options(options.skip(1), ttl)
                }
            },
            _ => Err(ParseError::OptionNotBulkString),
        }
    }
}

/// The command that the request `v` names. The request is an array whose first
/// item is a bulk string with the command's name; the arguments follow, and
/// items after the last argument that a command takes are not looked at.
pub open spec fn parse_command(v: WireValue) -> Result<CommandView, ParseError> {
    match v {
        WireValue::Array(items) => {
            if items.len() == 0 || !(items[0] is BulkString) {
                Err(ParseError::NoCommand)
            } else {
                let name = items[0]->BulkString_0;
                if !valid_utf8(name) {
                    Err(ParseError::CommandNotUtf8)
                } else if is_keyword(name, "ping"@) {
                    Ok(CommandView::Ping)
                } else if is_keyword(name, "echo"@) {
                    if items.len() > 1 && items[1] is BulkString {
                        Ok(CommandView::Echo(items[1]->BulkString_0))
                    } else {
                        Err(ParseError::NothingToEcho)
                    }
                } else if is_keyword(name, "set"@) {
                    if !(items.len() > 1 && items[1] is BulkString) {
                        Err(ParseError::MissingKey)
                    } else if !(items.len() > 2 && items[2] is BulkString) {
                        Err(ParseError::MissingValue)
                    } else {
                        match parse_options(items.skip(3), None) {
                            Err(e) => Err(e),
                            Ok(ttl) => Ok(
                                CommandView::SetKey(
                                    items[1]->BulkString_0,
                                    items[2]->BulkString_0,
                                    ttl,
                                ),
                            ),
                        }
                    }
                } else if is_keyword(name, "get"@) {
                    if items.len() > 1 && items[1] is BulkString {
                        Ok(CommandView::Get(items[1]->BulkString_0))
                    } else {
                        Err(ParseError::MissingKey)
                    }
                } else {
                    Err(ParseError::UnknownCommand)
                }
            }
        },
        _ => Err(ParseError::NotAnArray),
    }
}

/// Whether `text` spells `keyword`, in upper or lower case.
fn names(text: &str, keyword: &str) -> (r: bool)
    ensures
        r == is_keyword(encode_utf8(text@), keyword@),
{
    eq_ignore_ascii_case(text.as_bytes(), keyword.as_bytes())
}

/// Whether the bulk string `name` is UTF-8 and spells `keyword`.
fn is_named(name: &BulkString<'_>, keyword: &str) -> (r: bool)
    ensures
        r == (valid_utf8(name@) && is_keyword(name@, keyword@)),
{
    match name.as_string() {
        None => false,
        Some(text) => {
            proof {
                decode_utf8_encode_utf8(name@);
            }
            names(text, keyword)
        },
    }
}

/// Reads the options of SET from what is left of the request.
fn read_options<'a>(options: VecDeque<RespType<'a>>) -> (r: Result<Option<u64>, ParseError>)
    ensures
        r == parse_options(views(options@), None),
{
    let mut array = options;
    let mut ttl: Option<u64> = None;
    loop
        invariant
            parse_options(views(array@), ttl) == parse_options(views(options@), None),
        decreases array@.len(),
    {
        let ghost before = views(array@);
        match array.pop_front() {
            None => {
                return Ok(ttl);
            },
            Some(RespType::BulkString(name)) => {
                assert(views(array@) =~= before.skip(1));
                if is_named(&name, "px") {
                    match array.pop_front() {
                        Some(RespType::BulkString(number)) => {
                            assert(views(array@) =~= before.skip(2));
                            match number.as_u64() {
                                Some(millis) => {
                                    ttl = Some(millis);
                                },
                                None => {
                                    return Err(ParseError::PxNotMilliseconds);
                                },
                            }
                        },
                        _ => {
                            return Err(ParseError::PxMissing);
                        },
                    }
                }
            },
            Some(_) => {
                return Err(ParseError::OptionNotBulkString);
            },
        }
    }
}

impl<'a> TryFrom<RespType<'a>> for Command<'a> {
    type Error = ParseError;

    /// Reads the command that the request `value` names.
    fn try_from(value: RespType<'a>) -> (r: Result<Self, ParseError>)
        ensures
            parse_command(value@) == match r {
                Ok(command) => Ok(command@),
                Err(e) => Err(e),
            },
    {
        let mut array = match value {
            RespType::Array(array) => array,
            _ => {
                return Err(ParseError::NotAnArray);
            },
        };
        proof {
            lemma_array_view(array);
        }
        let ghost items = views(array@);
        let command = match array.pop_front() {
            Some(RespType::BulkString(command)) => command,
            _ => {
                return Err(ParseError::NoCommand);
            },
        };
        assert(views(array@) =~= items.skip(1));
        let text = match command.as_string() {
            Some(text) => text,
            None => {
                return Err(ParseError::CommandNotUtf8);
            },
        };
        proof {
            decode_utf8_encode_utf8(command@);
        }
        if names(text, "ping") {
            Ok(Command::Ping)
        } else if names(text, "echo") {
            match array.pop_front() {
                Some(RespType::BulkString(message)) => Ok(Command::Echo(message)),
                _ => Err(ParseError::NothingToEcho),
            }
        } else if names(text, "set") {
            let key = match array.pop_front() {
                Some(RespType::BulkString(key)) => key,
                _ => {
                    return Err(ParseError::MissingKey);
                },
            };
            let value = match array.pop_front() {
                Some(RespType::BulkString(value)) => value,
                _ => {
                    return Err(ParseError::MissingValue);
                },
            };
            assert(views(array@) =~= items.skip(3));
            match read_options(array) {
                Err(e) => Err(e),
                Ok(ttl) => Ok(Command::SetKey(key, value, ttl)),
            }
        } else if names(text, "get") {
            match array.pop_front() {
                Some(RespType::BulkString(key)) => Ok(Command::Get(key)),
                _ => Err(ParseError::MissingKey),
            }
        } else {
            Err(ParseError::UnknownCommand)
        }
    }
}

impl<'a> TryFromSpecImpl<RespType<'a>> for Command<'a> {
    open spec fn obeys_try_from_spec() -> bool {
        false
    }

    open spec fn try_from_spec(v: RespType<'a>) -> Result<Self, ParseError> {
        arbitrary()
    }
}

} // verus!
