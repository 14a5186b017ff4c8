use rustdss::db::lists::{llen, lpop, lpush, lrange, rpop, rpush};
use rustdss::db::CoreState;
use rustdss::resp::RespData;

#[test]
fn create_a_new_list() {
    let key: String = "key".into();
    let mut state = CoreState::new();

    let response = lpush(&mut state, &key, RespData::SimpleStr("value".into()));

    assert_eq!(
        state.stored(&key),
        Some(&RespData::List(vec![RespData::SimpleStr("value".into())]))
    );
    assert_eq!(response, RespData::Number(1));
}

#[test]
fn push_items_to_the_beginning_of_the_list() {
    let key: String = "key:00".into();

    let mut state = CoreState::new();
    rustdss::db::key_val::set(
        &mut state,
        key.clone(),
        RespData::List(vec![
            RespData::SimpleStr("first".into()),
            RespData::SimpleStr("second".into()),
        ]),
    );

    let response = lpush(
        &mut state,
        &key,
        RespData::SimpleStr("should_be_first".into()),
    );

    assert_eq!(
        state.stored(&key),
        Some(&RespData::List(vec![
            RespData::SimpleStr("should_be_first".into()),
            RespData::SimpleStr("first".into()),
            RespData::SimpleStr("second".into()),
        ]))
    );
    assert_eq!(response, RespData::Number(3));
}

#[test]
fn error_when_the_list_is_a_different_type() {
    let key: String = "key:00".into();

    let mut state = CoreState::new();
    rustdss::db::key_val::set(
        &mut state,
        key.clone(),
        RespData::SimpleStr("not_a_list".into()),
    );

    let response = lpush(
        &mut state,
        &key,
        RespData::SimpleStr("some_new_data".into()),
    );

    // Assert that the original item was not mutated
    assert_eq!(
        state.stored(&key),
        Some(&RespData::SimpleStr("not_a_list".into()))
    );
    assert_eq!(response, RespData::wrong_type());
}

#[test]
fn lists_create_a_new_list() {
    let key: String = "key".into();
    let mut state = CoreState::new();

    let response = rpush(&mut state, &key, RespData::SimpleStr("value".into()));

    assert_eq!(
        state.stored(&key),
        Some(&RespData::List(vec![RespData::SimpleStr("value".into())]))
    );
    assert_eq!(response, RespData::Number(1));
}

#[test]
fn push_items_to_the_end_of_the_list() {
    let key: String = "key:00".into();

    let mut state = CoreState::new();
    rustdss::db::key_val::set(
        &mut state,
        key.clone(),
        RespData::List(vec![
            RespData::SimpleStr("first".into()),
            RespData::SimpleStr("second".into()),
        ]),
    );

    let response = rpush(
        &mut state,
        &key,
        RespData::SimpleStr("should_be_last".into()),
    );

    assert_eq!(
        state.stored(&key),
        Some(&RespData::List(vec![
            RespData::SimpleStr("first".into()),
            RespData::SimpleStr("second".into()),
            RespData::SimpleStr("should_be_last".into()),
        ]))
    );
    assert_eq!(response, RespData::Number(3));
}

#[test]
fn lists_error_when_the_list_is_a_different_type() {
    let key: String = "key:00".into();

    let mut state = CoreState::new();
    rustdss::db::key_val::set(
        &mut state,
        key.clone(),
        RespData::SimpleStr("not_a_list".into()),
    );

    let response = rpush(
        &mut state,
        &key,
        RespData::SimpleStr("some_new_data".into()),
    );

    // Assert that the original item was not mutated
    assert_eq!(
        state.stored(&key),
        Some(&RespData::SimpleStr("not_a_list".into()))
    );
    assert_eq!(response, RespData::wrong_type());
}

#[test]
fn return_nil_when_the_list_doesnt_exist() {
    let key: String = "key".into();
    let mut state = CoreState::new();

    let response = rpop(&mut state, &key);

    assert_eq!(state.stored(&key), None);
    assert_eq!(response, RespData::nil());
}

#[test]
fn pop_items_from_the_end_of_the_list() {
    let key: String = "key:00".into();

    let mut state = CoreState::new();
    rustdss::db::key_val::set(
        &mut state,
        key.clone(),
        RespData::List(vec![
            RespData::SimpleStr("first".into()),
            RespData::SimpleStr("second".into()),
            RespData::SimpleStr("should_be_last".into()),
        ]),
    );

    let response = rpop(&mut state, &key);

    assert_eq!(
        state.stored(&key),
        Some(&RespData::List(vec![
            RespData::SimpleStr("first".into()),
            RespData::SimpleStr("second".into()),
        ]))
    );
    assert_eq!(response, RespData::SimpleStr("should_be_last".into()));
}

#[test]
fn returns_nil_when_the_list_is_empty() {
    let key: String = "key:00".into();

    let mut state = CoreState::new();
    rustdss::db::key_val::set(&mut state, key.clone(), RespData::List(vec![]));

    let response = rpop(&mut state, &key);

    assert_eq!(state.stored(&key), Some(&RespData::List(vec![])));
    assert_eq!(response, RespData::nil());
}

#[test]
fn rpop_error_when_the_list_is_a_different_type() {
    let key: String = "key:00".into();

    let mut state = CoreState::new();
    rustdss::db::key_val::set(
        &mut state,
        key.clone(),
        RespData::SimpleStr("not_a_list".into()),
    );

    let response = rpop(&mut state, &key);

    // Assert that the original item was not mutated
    assert_eq!(
        state.stored(&key),
        Some(&RespData::SimpleStr("not_a_list".into()))
    );
    assert_eq!(response, RespData::wrong_type());
}

#[test]
fn lists_return_nil_when_the_list_doesnt_exist() {
    let key: String = "key".into();
    let mut state = CoreState::new();

    let response = lpop(&mut state, &key);

    assert_eq!(state.stored(&key), None);
    assert_eq!(response, RespData::nil());
}

#[test]
fn lists_pop_items_from_the_end_of_the_list() {
    let key: String = "key:00".into();

    let mut state = CoreState::new();
    rustdss::db::key_val::set(
        &mut state,
        key.clone(),
        RespData::List(vec![
            RespData::SimpleStr("first".into()),
            RespData::SimpleStr("second".into()),
            RespData::SimpleStr("should_be_last".into()),
        ]),
    );

    let response = lpop(&mut state, &key);

    assert_eq!(
        state.stored(&key),
        Some(&RespData::List(vec![
            RespData::SimpleStr("second".into()),
            RespData::SimpleStr("should_be_last".into()),
        ]))
    );
    assert_eq!(response, RespData::SimpleStr("first".into()));
}

#[test]
fn lists_returns_nil_when_the_list_is_empty() {
    let key: String = "key:00".into();

    let mut state = CoreState::new();
    rustdss::db::key_val::set(&mut state, key.clone(), RespData::List(vec![]));

    let response = lpop(&mut state, &key);

    assert_eq!(state.stored(&key), Some(&RespData::List(vec![])));
    assert_eq!(response, RespData::nil());
}

#[test]
fn lpop_error_when_the_list_is_a_different_type() {
    let key: String = "key:00".into();

    let mut state = CoreState::new();
    rustdss::db::key_val::set(
        &mut state,
        key.clone(),
        RespData::SimpleStr("not_a_list".into()),
    );

    let response = lpop(&mut state, &key);

    // Assert that the original item was not mutated
    assert_eq!(
        state.stored(&key),
        Some(&RespData::SimpleStr("not_a_list".into()))
    );
    assert_eq!(response, RespData::wrong_type());
}

#[test]
fn it_returns_the_length_of_a_list() {
    let mut state = CoreState::new();

    rustdss::db::key_val::set(
        &mut state,
        "key".into(),
        RespData::List(vec![
            RespData::Number(1),
            RespData::Number(2),
            RespData::Number(3),
            RespData::Number(4),
        ]),
    );

    let response = llen(&state, &"key".into());

    assert_eq!(response, RespData::Number(4));
}

#[test]
fn it_returns_nil_when_the_list_isnt_there() {
    let state = CoreState::new();

    let response = llen(&state, &"key".into());
    assert_eq!(response, RespData::nil());
}

#[test]
fn it_responds_with_an_empty_list_when_the_list_is_empty() {
    let mut state = CoreState::new();
    rustdss::db::key_val::set(&mut state, "key".into(), RespData::List(vec![]));

    let response1 = lrange(&state, &"key".into(), 0, -1);
    let response2 = lrange(&state, &"key".into(), -1, 0);
    let response3 = lrange(&state, &"key".into(), -1, -1);

    assert_eq!(response1, RespData::List(vec![]));
    assert_eq!(response2, RespData::List(vec![]));
    assert_eq!(response3, RespData::List(vec![]));
}

#[test]
fn it_returns_a_complete_list() {
    let source = RespData::List((0..10).map(RespData::Number).collect());
    let mut state = CoreState::new();
    rustdss::db::key_val::set(&mut state, "key".into(), source.clone());

    let response = lrange(&state, &"key".into(), 0, -1);
    assert_eq!(response, source);
}

#[test]
fn return_a_subset_properly() {
    let source = RespData::List((0..10).map(RespData::Number).collect());
    let mut state = CoreState::new();
    rustdss::db::key_val::set(&mut state, "key".into(), source.clone());

    let response = lrange(&state, &"key".into(), 3, 7);
    assert_eq!(
        response,
        RespData::List(vec![
            RespData::Number(3),
            RespData::Number(4),
            RespData::Number(5),
            RespData::Number(6),
            RespData::Number(7),
        ])
    );

    let response = lrange(&state, &"key".into(), 0, 2);
    assert_eq!(
        response,
        RespData::List(vec![
            RespData::Number(0),
            RespData::Number(1),
            RespData::Number(2),
        ])
    );

    let response = lrange(&state, &"key".into(), -3, -1);
    assert_eq!(
        response,
        RespData::List(vec![
            RespData::Number(7),
            RespData::Number(8),
            RespData::Number(9),
        ])
    );

    let response = lrange(&state, &"key".into(), -7, 9);
    assert_eq!(
        response,
        RespData::List(vec![
            RespData::Number(3),
            RespData::Number(4),
            RespData::Number(5),
            RespData::Number(6),
            RespData::Number(7),
            RespData::Number(8),
            RespData::Number(9),
        ])
    );
    let response = lrange(&state, &"key".into(), 3, -3);
    assert_eq!(
        response,
        RespData::List(vec![
            RespData::Number(3),
            RespData::Number(4),
            RespData::Number(5),
            RespData::Number(6),
            RespData::Number(7),
        ])
    );
}
