use redis_starter_rust::connection;
use redis_starter_rust::redis_type::RedisType;
use redis_starter_rust::session::{
    plan, reply_to_get, reply_to_put, respond, Framing, Plan, Session, CHUNK_SIZE,
};
use redis_starter_rust::store::Store;

const MILLI: u64 = 1_000_000;

#[test]
fn ping_is_answered_with_pong() {
    let mut store = Store::new();
    assert_eq!(
        respond(b"*1\r\n$4\r\nPING\r\n", &mut store, 0),
        b"+PONG\r\n".to_vec()
    );
}

#[test]
fn echo_is_answered_with_its_message() {
    let mut store = Store::new();
    assert_eq!(
        respond(b"*2\r\n$4\r\nECHO\r\n$2\r\nhi\r\n", &mut store, 0),
        b"$2\r\nhi\r\n".to_vec()
    );
}

#[test]
fn get_of_unset_key_is_answered_with_null() {
    let mut store = Store::new();
    assert_eq!(
        respond(b"*2\r\n$3\r\nGET\r\n$1\r\nx\r\n", &mut store, 0),
        b"$-1\r\n".to_vec()
    );
}

#[test]
fn unknown_command_is_answered_with_error_and_session_goes_on() {
    let mut store = Store::new();
    assert_eq!(
        respond(b"*1\r\n$4\r\nFOOO\r\n", &mut store, 0),
        b"-ERR unknown command\r\n".to_vec()
    );
    assert_eq!(
        respond(b"*1\r\n$4\r\nPING\r\n", &mut store, 0),
        b"+PONG\r\n".to_vec()
    );
}

#[test]
fn set_then_get_hands_the_value_out() {
    let mut store = Store::new();
    assert_eq!(
        respond(b"*3\r\n$3\r\nSET\r\n$1\r\nk\r\n$1\r\nv\r\n", &mut store, 0),
        b"+OK\r\n".to_vec()
    );
    assert_eq!(
        respond(b"*2\r\n$3\r\nGET\r\n$1\r\nk\r\n", &mut store, 1),
        b"$1\r\nv\r\n".to_vec()
    );
    assert_eq!(store.get("k", 2), Some(b"v".to_vec()));
}

#[test]
fn set_with_px_expires() {
    let mut store = Store::new();
    let request: &[u8] = b"*5\r\n$3\r\nSET\r\n$1\r\nk\r\n$1\r\nv\r\n$2\r\nPX\r\n$3\r\n100\r\n";
    assert_eq!(respond(request, &mut store, 0), b"+OK\r\n".to_vec());
    let get: &[u8] = b"*2\r\n$3\r\nGET\r\n$1\r\nk\r\n";
    assert_eq!(respond(get, &mut store, 100 * MILLI - 1), b"$1\r\nv\r\n".to_vec());
    assert_eq!(respond(get, &mut store, 100 * MILLI), b"$-1\r\n".to_vec());
    assert_eq!(respond(get, &mut store, 0), b"$-1\r\n".to_vec());
}

#[test]
fn set_with_key_that_is_not_utf8_is_refused() {
    let mut store = Store::new();
    let request: &[u8] = &[
        b'*', b'3', 13, 10, b'$', b'3', 13, 10, b'S', b'E', b'T', 13, 10, b'$', b'2', 13, 10,
        0xff, 0xfe, 13, 10, b'$', b'1', 13, 10, b'v', 13, 10,
    ];
    assert_eq!(
        respond(request, &mut store, 0),
        b"-ERR key is not UTF8 string\r\n".to_vec()
    );
}

#[test]
fn get_with_key_that_is_not_utf8_asks_for_the_empty_key() {
    let mut store = Store::new();
    let request: &[u8] = &[
        b'*', b'2', 13, 10, b'$', b'3', 13, 10, b'G', b'E', b'T', 13, 10, b'$', b'2', 13, 10,
        0xff, 0xfe, 13, 10,
    ];
    assert_eq!(respond(request, &mut store, 0), b"$-1\r\n".to_vec());
    store.set(String::new(), b"nameless".to_vec(), None, 0);
    assert_eq!(respond(request, &mut store, 0), b"$8\r\nnameless\r\n".to_vec());
    assert_eq!(plan(request), Plan::Get(String::new()));
}

#[test]
fn value_with_terminator_inside_comes_back_whole() {
    let mut store = Store::new();
    let set: &[u8] = b"*3\r\n$3\r\nSET\r\n$1\r\nk\r\n$4\r\na\r\nb\r\n";
    assert_eq!(respond(set, &mut store, 0), b"+OK\r\n".to_vec());
    let get: &[u8] = b"*2\r\n$3\r\nGET\r\n$1\r\nk\r\n";
    assert_eq!(respond(get, &mut store, 0), b"$4\r\na\r\nb\r\n".to_vec());
}

#[test]
fn framing_errors_are_answered_with_their_words() {
    let mut store = Store::new();
    assert_eq!(
        respond(b"z\r\n", &mut store, 0),
        "-Unknown Type `z`\r\n".as_bytes().to_vec()
    );
    assert_eq!(
        respond(b"+Sure\r\njunk...", &mut store, 0),
        b"-Extra bytes exist at the end of the parsed type\r\n".to_vec()
    );
    assert_eq!(
        respond(b"$2\r\nRust\r\n", &mut store, 0),
        b"-Invalid length supplied\r\n".to_vec()
    );
    assert_eq!(
        respond(b"$h\r\nhello\r\n", &mut store, 0),
        b"-Invalid u32\r\n".to_vec()
    );
    assert_eq!(
        respond(b"+OK", &mut store, 0),
        b"-Missing \\r\\n termination\r\n".to_vec()
    );
    assert_eq!(
        respond(&[b'+', 0xff, 13, 10], &mut store, 0),
        b"-Unable to convert [u8] to valid UTF8\r\n".to_vec()
    );
    assert_eq!(
        respond(b"", &mut store, 0),
        b"-Tried to create type from nothing!\r\n".to_vec()
    );
    assert_eq!(
        respond(&[0xe9, 13, 10], &mut store, 0),
        "-Unknown Type `\u{e9}`\r\n".as_bytes().to_vec()
    );
}

#[test]
fn command_errors_are_answered_with_their_words() {
    let mut store = Store::new();
    assert_eq!(
        respond(b"+PING\r\n", &mut store, 0),
        b"-ERR request should be an Array\r\n".to_vec()
    );
    assert_eq!(
        respond(b"*1\r\n$4\r\nECHO\r\n", &mut store, 0),
        b"-ERR nothing to echo back\r\n".to_vec()
    );
    assert_eq!(
        respond(b"*4\r\n$3\r\nSET\r\n$1\r\nk\r\n$1\r\nv\r\n$2\r\nPX\r\n", &mut store, 0),
        b"-ERR PX duration missing\r\n".to_vec()
    );
    assert_eq!(store.get("k", 0), None);
}

#[test]
fn plan_names_what_the_store_is_asked() {
    assert_eq!(
        plan(b"*1\r\n$4\r\nPING\r\n"),
        Plan::Reply(b"+PONG\r\n".to_vec())
    );
    assert_eq!(
        plan(b"*2\r\n$3\r\nGET\r\n$1\r\nx\r\n"),
        Plan::Get("x".to_string())
    );
    assert_eq!(
        plan(b"*5\r\n$3\r\nSET\r\n$1\r\nk\r\n$1\r\nv\r\n$2\r\nPX\r\n$3\r\n100\r\n"),
        Plan::Put("k".to_string(), b"v".to_vec(), Some(100))
    );
    assert_eq!(
        plan(b"*3\r\n$3\r\nSET\r\n$1\r\nk\r\n$1\r\nv\r\n"),
        Plan::Put("k".to_string(), b"v".to_vec(), None)
    );
}

#[test]
fn replies_of_the_store_commands() {
    assert_eq!(reply_to_put(), b"+OK\r\n".to_vec());
    assert_eq!(reply_to_get(None), b"$-1\r\n".to_vec());
    assert_eq!(reply_to_get(Some(b"v".to_vec())), b"$1\r\nv\r\n".to_vec());
    assert_eq!(reply_to_get(Some(vec![])), b"$0\r\n\r\n".to_vec());
}

#[test]
fn short_read_ends_the_request() {
    let mut session = Session::new();
    assert_eq!(
        session.on_read(b"*1\r\n$4\r\nPING\r\n"),
        Framing::Request(b"*1\r\n$4\r\nPING\r\n".to_vec())
    );
    assert_eq!(
        session.on_read(b"+next\r\n"),
        Framing::Request(b"+next\r\n".to_vec())
    );
}

#[test]
fn full_chunk_asks_for_another_read() {
    assert_eq!(CHUNK_SIZE, 1024);
    let mut session = Session::new();
    let full = vec![b'a'; CHUNK_SIZE];
    assert_eq!(session.on_read(&full), Framing::Incomplete);
    assert_eq!(session.on_read(&full), Framing::Incomplete);
    let mut whole = vec![b'a'; 2 * CHUNK_SIZE];
    whole.extend_from_slice(b"tail");
    assert_eq!(session.on_read(b"tail"), Framing::Request(whole));
    assert_eq!(session.on_read(b"x"), Framing::Request(b"x".to_vec()));
}

#[test]
fn read_one_short_of_a_chunk_ends_the_request() {
    let mut session = Session::new();
    let short = vec![b'a'; CHUNK_SIZE - 1];
    assert_eq!(session.on_read(&short), Framing::Request(short.clone()));
}

#[test]
fn empty_read_closes_the_session() {
    let mut session = Session::new();
    assert_eq!(session.on_read(b""), Framing::Closed);
    let full = vec![b'a'; CHUNK_SIZE];
    assert_eq!(session.on_read(&full), Framing::Incomplete);
    assert_eq!(session.on_read(b""), Framing::Closed);
}

#[test]
fn plain_responder_knows_ping_alone() {
    assert_eq!(connection::respond(b"*1\r\n$4\r\nPING\r\n"), b"+PONG\r\n".to_vec());
    assert_eq!(
        connection::respond(b"*2\r\n+first\r\n$4\r\nPING\r\n"),
        b"+PONG\r\n".to_vec()
    );
    assert_eq!(
        connection::respond(b"*1\r\n$4\r\nping\r\n"),
        b"-ERR unknown command\r\n".to_vec()
    );
    assert_eq!(
        connection::respond(b"*1\r\n+PING\r\n"),
        b"-ERR unknown command\r\n".to_vec()
    );
    assert_eq!(
        connection::respond(b"$4\r\nPING\r\n"),
        b"-ERR unknown command\r\n".to_vec()
    );
    assert_eq!(connection::respond(b"*0\r\n"), b"-ERR unknown command\r\n".to_vec());
    assert_eq!(
        connection::respond(b"*1\r\n*1\r\n$4\r\nPING\r\n"),
        b"-ERR unknown command\r\n".to_vec()
    );
}

#[test]
fn plain_responder_answers_framing_errors_with_their_words() {
    assert_eq!(
        connection::respond(b"+Sure\r\njunk..."),
        b"-Extra bytes exist at the end of the parsed type\r\n".to_vec()
    );
    assert_eq!(
        connection::respond(b"?\r\n"),
        b"-Unknown Type `?`\r\n".to_vec()
    );
}

#[test]
fn plain_reply_is_a_value() {
    let request = RedisType::Array(vec![RedisType::BulkString(b"PING")]);
    assert_eq!(connection::reply(&request), RedisType::SimpleString("PONG"));
    let request = RedisType::BulkString(b"PING");
    assert_eq!(
        connection::reply(&request),
        RedisType::SimpleError("ERR unknown command")
    );
}
