use rustdss::command::Command;
use rustdss::db::base_logic::core_logic;
use rustdss::db::key_val::get;
use rustdss::db::lists::{lpop, lpush, rpush};
use rustdss::db::admin::{dump, keys};
use rustdss::db::CoreState;
use rustdss::deserialise::CharStream;
use rustdss::request::Request;
use rustdss::resp::RespData;
use rustdss::router::Core;

fn bulk(s: &str) -> RespData {
    RespData::BulkStr(s.to_string())
}

fn cmd_of(parts: Vec<RespData>) -> Command {
    Command::from_resp(RespData::List(parts)).expect("should parse")
}

#[test]
fn round_trip_reproduces_values() {
    let cases = vec![
        RespData::Number(-10),
        RespData::Number(0),
        RespData::Number(i64::MIN),
        RespData::Number(i64::MAX),
        RespData::SimpleStr("".into()),
        RespData::SimpleStr("hello".into()),
        RespData::Error("boom".into()),
        RespData::BulkStr("".into()),
        RespData::BulkStr("hello world".into()),
        RespData::NullString,
        RespData::List(vec![]),
        RespData::List(vec![
            RespData::Number(1),
            RespData::List(vec![RespData::BulkStr("deep".into()), RespData::NullString]),
            RespData::SimpleStr("tail".into()),
        ]),
    ];
    for v in cases {
        let encoded = v.as_string();
        let mut stream = CharStream::new(encoded.as_str());
        assert_eq!(RespData::from_char_stream(&mut stream), Some(v));
        assert_eq!(RespData::from_char_stream(&mut stream), None);
    }
}

#[test]
fn encodes_negative_numbers_exactly() {
    assert_eq!(RespData::Number(-10).as_string(), ":-10\r\n");
    let mut stream = CharStream::new(":-10\r\n");
    assert_eq!(
        RespData::from_char_stream(&mut stream),
        Some(RespData::Number(-10))
    );
}

#[test]
fn encodes_null_bulk_string() {
    assert_eq!(RespData::NullString.as_string(), "$-1\r\n");
    let mut stream = CharStream::new("$-1\r\n");
    assert_eq!(
        RespData::from_char_stream(&mut stream),
        Some(RespData::NullString)
    );
}

#[test]
fn decodes_nested_command_arrays() {
    let mut stream = CharStream::new("*2\r\n$4\r\nLLEN\r\n$6\r\nmylist\r\n");
    assert_eq!(
        RespData::from_char_stream(&mut stream),
        Some(RespData::List(vec![bulk("LLEN"), bulk("mylist")]))
    );
}

#[test]
fn decode_reports_bad_lengths_and_counts() {
    let mut stream = CharStream::new("$abc\r\n");
    assert_eq!(
        RespData::from_char_stream(&mut stream),
        Some(RespData::Error("Can't process bulk string".into()))
    );

    let mut stream = CharStream::new("*x\r\n");
    assert_eq!(
        RespData::from_char_stream(&mut stream),
        Some(RespData::Error("Can't read list".into()))
    );
}

#[test]
fn decode_stops_cleanly_on_exhaustion() {
    let mut stream = CharStream::new("");
    assert_eq!(RespData::from_char_stream(&mut stream), None);

    // A complete record, then a truncated one: the first decodes, the
    // second aborts without producing a value.
    let mut stream = CharStream::new("+ok\r\n*2\r\n+only\r\n");
    assert_eq!(
        RespData::from_char_stream(&mut stream),
        Some(RespData::SimpleStr("ok".into()))
    );
    assert_eq!(RespData::from_char_stream(&mut stream), None);
}

#[test]
fn empty_array_decodes_and_encodes() {
    let mut stream = CharStream::new("*0\r\n");
    assert_eq!(
        RespData::from_char_stream(&mut stream),
        Some(RespData::List(vec![]))
    );
    assert_eq!(RespData::List(vec![]).as_string(), "*0\r\n");
}

#[test]
fn parses_commands_case_insensitively() {
    assert!(matches!(
        cmd_of(vec![bulk("PING")]),
        Command::Ping
    ));
    assert!(matches!(
        cmd_of(vec![bulk("Get"), bulk("k")]),
        Command::Get(_)
    ));
    assert!(matches!(
        cmd_of(vec![RespData::SimpleStr("keys".into())]),
        Command::Keys
    ));
}

#[test]
fn parses_numeric_arguments_from_strings() {
    match cmd_of(vec![bulk("incrby"), bulk("k"), bulk("10")]) {
        Command::Incr(k, by) => {
            assert_eq!(k, "k");
            assert_eq!(by, Some(10));
        }
        other => panic!("unexpected command {:?}", other),
    }
    match cmd_of(vec![bulk("decrby"), bulk("k"), RespData::Number(3)]) {
        Command::Decr(k, by) => {
            assert_eq!(k, "k");
            assert_eq!(by, Some(3));
        }
        other => panic!("unexpected command {:?}", other),
    }
    assert_eq!(
        Command::from_resp(RespData::List(vec![bulk("incrby"), bulk("k"), bulk("junk")])).err(),
        Some("Not enough args".to_string())
    );
    assert_eq!(
        Command::from_resp(RespData::List(vec![bulk("incrby"), bulk("k")])).err(),
        Some("Not enough args".to_string())
    );
}

#[test]
fn parses_lrange_with_negative_offsets() {
    match cmd_of(vec![bulk("lrange"), bulk("k"), bulk("-3"), RespData::Number(-1)]) {
        Command::Lrange(k, a, b) => {
            assert_eq!(k, "k");
            assert_eq!(a, -3);
            assert_eq!(b, -1);
        }
        other => panic!("unexpected command {:?}", other),
    }
}

#[test]
fn rejects_malformed_commands() {
    assert_eq!(
        Command::from_resp(RespData::Number(7)).err(),
        Some("invalid command format".to_string())
    );
    assert_eq!(
        Command::from_resp(RespData::List(vec![RespData::Number(7)])).err(),
        Some("invalid command format".to_string())
    );
    assert_eq!(
        Command::from_resp(RespData::List(vec![bulk("frobnicate")])).err(),
        Some("unknown command".to_string())
    );
    assert_eq!(
        Command::from_resp(RespData::List(vec![bulk("get")])).err(),
        Some("too few args".to_string())
    );
    assert_eq!(
        Command::from_resp(RespData::List(vec![bulk("set"), RespData::Number(1)])).err(),
        Some("nope".to_string())
    );
    assert_eq!(
        Command::from_resp(RespData::List(vec![bulk("set"), bulk("k")])).err(),
        Some("Not enough args".to_string())
    );
    assert_eq!(
        Command::from_resp(RespData::List(vec![bulk("lrange"), bulk("k"), bulk("1")])).err(),
        Some("Not enough args".to_string())
    );
}

#[test]
fn keys_lists_bound_keys_in_insertion_order() {
    let mut state = CoreState::new();
    rustdss::db::key_val::set(&mut state, "alpha".into(), RespData::Number(1));
    rustdss::db::key_val::set(&mut state, "beta".into(), RespData::Number(2));
    rustdss::db::key_val::set(&mut state, "alpha".into(), RespData::Number(3));

    assert_eq!(
        keys(&state),
        RespData::List(vec![
            RespData::SimpleStr("alpha".into()),
            RespData::SimpleStr("beta".into()),
        ])
    );
}

#[test]
fn dump_renders_the_stored_value() {
    let mut state = CoreState::new();
    rustdss::db::key_val::set(
        &mut state,
        "k".into(),
        RespData::List(vec![RespData::Number(1), RespData::SimpleStr("x".into())]),
    );

    assert_eq!(
        dump(&state, &"k".to_string()),
        RespData::BulkStr("*2\r\n:1\r\n+x\r\n".into())
    );
    assert_eq!(dump(&state, &"missing".to_string()), RespData::nil());
}

#[test]
fn get_returns_a_copy_of_the_stored_value() {
    let mut state = CoreState::new();
    rustdss::db::key_val::set(&mut state, "k".into(), bulk("payload"));
    assert_eq!(get(&state, "k".into()), bulk("payload"));
    assert_eq!(get(&state, "other".into()), RespData::NullString);
}

#[test]
fn wrong_type_error_never_mutates() {
    let mut state = CoreState::new();
    rustdss::db::key_val::set(&mut state, "k".into(), RespData::SimpleStr("x".into()));

    let response = lpush(&mut state, &"k".to_string(), bulk("v"));

    assert_eq!(response, RespData::wrong_type());
    assert_eq!(
        state.stored(&"k".to_string()),
        Some(&RespData::SimpleStr("x".into()))
    );
}

#[test]
fn fifo_per_key_push_then_pop() {
    let mut state = CoreState::new();
    let key: String = "queue".into();
    for i in 0..8 {
        rpush(&mut state, &key, RespData::Number(i));
    }
    for i in 0..8 {
        assert_eq!(lpop(&mut state, &key), RespData::Number(i));
    }
    assert_eq!(lpop(&mut state, &key), RespData::nil());
}

#[test]
fn sessions_answer_locally_without_touching_the_router() {
    let mut core = Core::new();

    let (db, reply) = Request::handle(
        None,
        &mut core,
        RespData::List(vec![bulk("ping")]),
    );
    assert_eq!(db, None);
    assert_eq!(reply, RespData::SimpleStr("PONG".into()));

    let (db, reply) = Request::handle(
        None,
        &mut core,
        RespData::List(vec![bulk("echo"), RespData::Number(42)]),
    );
    assert_eq!(db, None);
    assert_eq!(reply, RespData::Number(42));

    let (db, reply) = Request::handle(
        None,
        &mut core,
        RespData::List(vec![bulk("info")]),
    );
    assert_eq!(db, None);
    assert_eq!(reply, RespData::SimpleStr("info".into()));

    let (db, reply) = Request::handle(
        None,
        &mut core,
        RespData::List(vec![bulk("select"), bulk("other")]),
    );
    assert_eq!(db, Some("other".to_string()));
    assert_eq!(reply, RespData::ok());
}

#[test]
fn databases_are_isolated_from_each_other() {
    let mut core = Core::new();

    // Write into the default database.
    let (_, reply) = Request::handle(
        None,
        &mut core,
        RespData::List(vec![bulk("set"), bulk("k"), bulk("kept")]),
    );
    assert_eq!(reply, RespData::ok());

    // Select another database and write and flush there.
    let (db, _) = Request::handle(
        None,
        &mut core,
        RespData::List(vec![bulk("select"), bulk("other")]),
    );
    let (db, reply) = Request::handle(
        db,
        &mut core,
        RespData::List(vec![bulk("set"), bulk("k"), bulk("doomed")]),
    );
    assert_eq!(reply, RespData::ok());
    let (db, reply) = Request::handle(
        db,
        &mut core,
        RespData::List(vec![bulk("get"), bulk("k")]),
    );
    assert_eq!(reply, bulk("doomed"));
    let (_, reply) = Request::handle(
        db,
        &mut core,
        RespData::List(vec![bulk("flushall")]),
    );
    assert_eq!(reply, RespData::ok());

    // The default database never saw any of it.
    let (_, reply) = Request::handle(
        None,
        &mut core,
        RespData::List(vec![bulk("get"), bulk("k")]),
    );
    assert_eq!(reply, bulk("kept"));

    // The flushed database is empty.
    let (db, _) = Request::handle(
        None,
        &mut core,
        RespData::List(vec![bulk("select"), bulk("other")]),
    );
    let (_, reply) = Request::handle(
        db,
        &mut core,
        RespData::List(vec![bulk("get"), bulk("k")]),
    );
    assert_eq!(reply, RespData::NullString);
}

#[test]
fn routed_llen_and_lrange_answer_through_the_engine() {
    let mut state = CoreState::new();
    for i in 0..3 {
        core_logic(&mut state, Command::Rpush("l".into(), RespData::Number(i)));
    }
    assert_eq!(
        core_logic(&mut state, Command::Llen("l".into())),
        RespData::Number(3)
    );
    assert_eq!(
        core_logic(&mut state, Command::Lrange("l".into(), 1, -1)),
        RespData::List(vec![RespData::Number(1), RespData::Number(2)])
    );
    assert_eq!(
        core_logic(&mut state, Command::Llen("missing".into())),
        RespData::nil()
    );
}

#[test]
fn incr_on_a_list_reports_nan_and_keeps_the_list() {
    let mut state = CoreState::new();
    rpush(&mut state, &"l".to_string(), RespData::Number(1));

    let response = core_logic(&mut state, Command::Incr("l".into(), None));

    assert_eq!(response, RespData::Error("NaN".into()));
    assert_eq!(
        state.stored(&"l".to_string()),
        Some(&RespData::List(vec![RespData::Number(1)]))
    );
}

#[test]
fn pipelined_requests_decode_in_order() {
    let mut stream = CharStream::new("*1\r\n$4\r\nping\r\n*2\r\n$4\r\necho\r\n:5\r\n");
    let first = RespData::from_char_stream(&mut stream).expect("first record");
    let second = RespData::from_char_stream(&mut stream).expect("second record");
    assert_eq!(first, RespData::List(vec![bulk("ping")]));
    assert_eq!(
        second,
        RespData::List(vec![bulk("echo"), RespData::Number(5)])
    );
    assert_eq!(RespData::from_char_stream(&mut stream), None);
}
