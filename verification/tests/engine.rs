use rustdss::command::Command;
use rustdss::db::base_logic::core_logic;
use rustdss::db::number::{decr as decr_fn, incr as incr_fn};
use rustdss::db::CoreState;
use rustdss::resp::RespData;

#[test]
fn set_adds_a_new_key() {
    let mut state = CoreState::new();

    let response = core_logic(
        &mut state,
        Command::SetKey("a".into(), RespData::SimpleStr("hello".into())),
    );

    assert_eq!(response, RespData::ok());
    assert_eq!(state.len(), 1);
    assert_eq!(
        state.stored(&"a".to_string()),
        Some(&RespData::SimpleStr("hello".into()))
    );
}

#[test]
fn get_gets_a_key() {
    let mut state = CoreState::new();
    core_logic(
        &mut state,
        Command::SetKey("a".into(), RespData::SimpleStr("hello".into())),
    );

    let response = core_logic(&mut state, Command::Get("a".into()));

    assert_eq!(response, RespData::SimpleStr("hello".into()));
    assert_eq!(state.len(), 1);
    assert_eq!(
        state.stored(&"a".to_string()),
        Some(&RespData::SimpleStr("hello".into()))
    );
}

#[test]
fn get_returns_nil_when_key_is_not_found() {
    let mut state = CoreState::new();

    let response = core_logic(&mut state, Command::Get("a".into()));

    assert_eq!(response, RespData::NullString);
    assert_eq!(state.len(), 0);
    assert_eq!(state.stored(&"a".to_string()), None);
}

#[test]
fn set_overwrites_existing_value() {
    let mut state = CoreState::new();

    let key: String = "key-a".into();

    let response_a = core_logic(
        &mut state,
        Command::SetKey(key.clone(), RespData::SimpleStr("hello".into())),
    );

    let response_b = core_logic(
        &mut state,
        Command::SetKey(key.clone(), RespData::SimpleStr("goodbye".into())),
    );

    assert_eq!(response_a, RespData::ok());
    assert_eq!(response_b, RespData::ok());
    assert_eq!(state.len(), 1);
    assert_eq!(
        state.stored(&key),
        Some(&RespData::SimpleStr("goodbye".into()))
    );
}

#[test]
fn flushall_deletes_everything() {
    let mut state = CoreState::new();

    core_logic(
        &mut state,
        Command::SetKey("a".into(), RespData::SimpleStr("hello".into())),
    );
    core_logic(
        &mut state,
        Command::SetKey("b".into(), RespData::SimpleStr("goodbye".into())),
    );

    assert_eq!(state.len(), 2);
    assert_eq!(
        state.stored(&"a".to_string()),
        Some(&RespData::SimpleStr("hello".into()))
    );
    assert_eq!(
        state.stored(&"b".to_string()),
        Some(&RespData::SimpleStr("goodbye".into()))
    );

    core_logic(&mut state, Command::FlushAll);

    assert_eq!(state.len(), 0);
    assert_eq!(state.stored(&"a".to_string()), None);
    assert_eq!(state.stored(&"b".to_string()), None);
}

#[test]
fn incr() {
    let mut state = CoreState::new();

    // It creates a key when there isn't one
    let response = core_logic(&mut state, Command::Incr("a".into(), None));
    assert_eq!(state.stored(&"a".to_string()), Some(&RespData::Number(1)));
    assert_eq!(response, RespData::Number(1));

    // It increments existing keys
    let response = core_logic(&mut state, Command::Incr("a".into(), None));
    assert_eq!(state.stored(&"a".to_string()), Some(&RespData::Number(2)));
    assert_eq!(response, RespData::Number(2));

    // It increments by the given amount
    let response = core_logic(&mut state, Command::Incr("a".into(), Some(10)));
    assert_eq!(state.stored(&"a".to_string()), Some(&RespData::Number(12)));
    assert_eq!(response, RespData::Number(12));
}

#[test]
fn decr() {
    let mut state = CoreState::new();

    // It creates a key when there isn't one
    let response = core_logic(&mut state, Command::Decr("a".into(), None));
    assert_eq!(state.stored(&"a".to_string()), Some(&RespData::Number(-1)));
    assert_eq!(response, RespData::Number(-1));

    // It decrements existing keys
    let response = core_logic(&mut state, Command::Decr("a".into(), None));
    assert_eq!(state.stored(&"a".to_string()), Some(&RespData::Number(-2)));
    assert_eq!(response, RespData::Number(-2));

    // It decrements by the given amount
    let response = core_logic(&mut state, Command::Decr("a".into(), Some(10)));
    assert_eq!(state.stored(&"a".to_string()), Some(&RespData::Number(-12)));
    assert_eq!(response, RespData::Number(-12));
}

#[test]
fn increase_values_that_are_already_numbers() {
    let mut state = CoreState::new();
    rustdss::db::key_val::set(&mut state, "key".into(), RespData::Number(5));

    let response1 = incr_fn(&mut state, "key".into(), None);
    let response2 = incr_fn(&mut state, "key".into(), Some(2));

    assert_eq!(state.stored(&"key".to_string()), Some(&RespData::Number(8)));
    assert_eq!(response1, RespData::Number(6));
    assert_eq!(response2, RespData::Number(8));
}

#[test]
fn try_to_convert_strings_into_numbers() {
    let mut state = CoreState::new();
    rustdss::db::key_val::set(&mut state, "key1".into(), RespData::SimpleStr("27".into()));
    rustdss::db::key_val::set(
        &mut state,
        "key2".into(),
        RespData::SimpleStr("not_a_number".into()),
    );

    let response1 = incr_fn(&mut state, "key1".into(), None);
    let response2 = incr_fn(&mut state, "key1".into(), Some(2));

    let response3 = incr_fn(&mut state, "key2".into(), None);
    let response4 = incr_fn(&mut state, "key2".into(), Some(2));

    assert_eq!(response1, RespData::Number(28));
    assert_eq!(response2, RespData::Number(30));
    assert_eq!(
        state.stored(&"key1".to_string()),
        Some(&RespData::Number(30))
    );

    assert_eq!(response3, RespData::Error("NaN".into()));
    assert_eq!(response4, RespData::Error("NaN".into()));
    assert_eq!(
        state.stored(&"key2".to_string()),
        Some(&RespData::SimpleStr("not_a_number".into()))
    );
}

#[test]
fn create_new_keys() {
    let mut state = CoreState::new();

    let response1 = incr_fn(&mut state, "key".into(), None);
    let response2 = incr_fn(&mut state, "key".into(), Some(4));

    assert_eq!(response1, RespData::Number(1));
    assert_eq!(response2, RespData::Number(5));
    assert_eq!(state.stored(&"key".to_string()), Some(&RespData::Number(5)));
}

#[test]
fn decrease_values_that_are_already_numbers() {
    let mut state = CoreState::new();
    rustdss::db::key_val::set(&mut state, "key".into(), RespData::Number(5));

    let response1 = decr_fn(&mut state, "key".into(), None);
    let response2 = decr_fn(&mut state, "key".into(), Some(2));

    assert_eq!(state.stored(&"key".to_string()), Some(&RespData::Number(2)));
    assert_eq!(response1, RespData::Number(4));
    assert_eq!(response2, RespData::Number(2));
}

#[test]
fn number_try_to_convert_strings_into_numbers() {
    let mut state = CoreState::new();
    rustdss::db::key_val::set(&mut state, "key1".into(), RespData::SimpleStr("27".into()));
    rustdss::db::key_val::set(
        &mut state,
        "key2".into(),
        RespData::SimpleStr("not_a_number".into()),
    );

    let response1 = decr_fn(&mut state, "key1".into(), None);
    let response2 = decr_fn(&mut state, "key1".into(), Some(2));

    let response3 = decr_fn(&mut state, "key2".into(), None);
    let response4 = decr_fn(&mut state, "key2".into(), Some(2));

    assert_eq!(response1, RespData::Number(26));
    assert_eq!(response2, RespData::Number(24));
    assert_eq!(
        state.stored(&"key1".to_string()),
        Some(&RespData::Number(24))
    );

    assert_eq!(response3, RespData::Error("NaN".into()));
    assert_eq!(response4, RespData::Error("NaN".into()));
    assert_eq!(
        state.stored(&"key2".to_string()),
        Some(&RespData::SimpleStr("not_a_number".into()))
    );
}

#[test]
fn number_create_new_keys() {
    let mut state = CoreState::new();

    let response1 = decr_fn(&mut state, "key".into(), None);
    let response2 = decr_fn(&mut state, "key".into(), Some(4));

    assert_eq!(response1, RespData::Number(-1));
    assert_eq!(response2, RespData::Number(-5));
    assert_eq!(
        state.stored(&"key".to_string()),
        Some(&RespData::Number(-5))
    );
}
