use kv_store::{
    assert_res_error, assert_res_ok, dispatch, CommandRequest, CommandResponse, CommandService,
    Hmget, Kvpair, MemTable, RequestData, Storage, Value,
};

fn run(cmd: CommandRequest, store: &mut impl Storage) -> CommandResponse {
    match cmd.request_data.unwrap() {
        RequestData::Hget(hget) => hget.execute(store),
        RequestData::Hgetall(hgetall) => hgetall.execute(store),
        RequestData::Hset(hset) => hset.execute(store),
        RequestData::Hdel(hdel) => hdel.execute(store),
        _ => panic!("no handler for this command"),
    }
}

fn hset(table: &str, key: &str, value: Value) -> CommandRequest {
    CommandRequest::new_hset(table, key, value)
}

#[test]
fn hset_should_work() {
    let mut store = MemTable::new();
    let res = run(hset("t1", "hello", "world".into()), &mut store);
    assert!(assert_res_ok(res, &[Value::default()], &[]));

    let res = run(hset("t1", "hello", "world".into()), &mut store);
    assert!(assert_res_ok(res, &["world".into()], &[]));
}

#[test]
fn hget_should_work() {
    let mut store = MemTable::new();
    run(hset("score", "math", 100.into()), &mut store);
    let res = run(CommandRequest::new_hget("score", "math"), &mut store);
    assert!(assert_res_ok(res, &[100.into()], &[]));
}

#[test]
fn hget_with_non_exist_key_should_return_404() {
    let mut store = MemTable::new();
    let res = run(CommandRequest::new_hget("score", "science"), &mut store);
    assert!(assert_res_error(res, 404, "Not found"));
}

#[test]
fn hget_all_should_work() {
    let mut store = MemTable::new();
    let cmds = vec![
        hset("score", "u1", 10.into()),
        hset("score", "u2", 8.into()),
        hset("score", "u3", 11.into()),
        hset("score", "u1", 6.into()),
    ];
    for cmd in cmds {
        run(cmd, &mut store);
    }

    let res = run(CommandRequest::new_hget_all("score"), &mut store);
    let pairs = &[
        Kvpair::new("u1", 6.into()),
        Kvpair::new("u2", 8.into()),
        Kvpair::new("u3", 11.into()),
    ];
    assert!(assert_res_ok(res, &[], pairs));
}

#[test]
fn hdel_should_work() {
    let mut store = MemTable::new();
    run(hset("t1", "hello", "world".into()), &mut store);
    let res = run(CommandRequest::new_hdel("t1", "hello"), &mut store);
    assert!(assert_res_ok(res, &["world".into()], &[]));
    let res = run(CommandRequest::new_hdel("t1", "bonjour"), &mut store);
    assert!(assert_res_ok(res, &[Value::default()], &[]));
}

#[test]
fn dispatch_hset_twice_returns_default_then_previous() {
    let mut store = MemTable::new();
    let res = dispatch(hset("t1", "hello", "world".into()), &mut store);
    assert!(assert_res_ok(res, &[Value::default()], &[]));
    let res = dispatch(hset("t1", "hello", "world".into()), &mut store);
    assert!(assert_res_ok(res, &["world".into()], &[]));
}

#[test]
fn dispatch_get_of_absent_key_is_404_with_message() {
    let mut store = MemTable::new();
    let res = dispatch(CommandRequest::new_hget("score", "science"), &mut store);
    assert_eq!(res.status, 404);
    assert_eq!(res.message, "Not found for table: score, key: science");
    assert!(res.message.to_lowercase().contains("not found"));
    assert!(res.values.is_empty());
    assert!(res.pairs.is_empty());
}

#[test]
fn dispatch_request_without_data_is_400() {
    let mut store = MemTable::new();
    let res = dispatch(CommandRequest { request_data: None }, &mut store);
    assert!(assert_res_error(res, 400, "Cannot parse command: `Request has no data`"));
}

#[test]
fn dispatch_unhandled_command_is_500_and_changes_nothing() {
    let mut store = MemTable::new();
    dispatch(hset("t", "k", 1.into()), &mut store);
    let res = dispatch(CommandRequest::new_hmdel("t", vec!["k".to_string()]), &mut store);
    assert!(assert_res_error(res, 500, "Internal error: Not implemented"));
    let res = dispatch(CommandRequest::new_hexist("t", "k"), &mut store);
    assert!(assert_res_error(res, 500, "Not implemented"));
    let res = dispatch(
        CommandRequest::new_hmget("t", vec!["k".to_string()]),
        &mut store,
    );
    assert!(assert_res_error(res, 500, "Not implemented"));
    assert_eq!(store.get("t", "k").unwrap(), Some(1.into()));
}

#[test]
fn dispatch_get_all_lists_the_table() {
    let mut store = MemTable::new();
    dispatch(hset("t", "b", 2.into()), &mut store);
    dispatch(hset("t", "a", 1.into()), &mut store);
    dispatch(hset("other", "c", 3.into()), &mut store);
    let res = dispatch(CommandRequest::new_hget_all("t"), &mut store);
    assert!(assert_res_ok(res, &[], &[Kvpair::new("a", 1.into()), Kvpair::new("b", 2.into())]));
}

#[test]
fn hset_without_pair_changes_nothing() {
    let mut store = MemTable::new();
    let cmd = CommandRequest {
        request_data: Some(RequestData::Hset(kv_store::Hset { table: "t".to_string(), pair: None })),
    };
    let res = dispatch(cmd, &mut store);
    assert!(assert_res_ok(res, &[Value::default()], &[]));
    assert!(store.get_all("t").unwrap().is_empty());
}

#[test]
fn builders_fill_the_request() {
    let keys = vec!["a".to_string(), "b".to_string()];
    let r = CommandRequest::new_hmget("t", keys.clone());
    assert_eq!(r.request_data, Some(RequestData::Hmget(Hmget { table: "t".to_string(), keys })));
    let r = CommandRequest::new_hexist("t", "k");
    match r.request_data {
        Some(RequestData::Hexist(h)) => {
            assert_eq!(h.table, "t");
            assert_eq!(h.key, "k");
        }
        _ => panic!("wrong variant"),
    }
    let r = CommandRequest::new_hmset("t", vec![Kvpair::new("k", 1.into())]);
    match r.request_data {
        Some(RequestData::Hmset(h)) => assert_eq!(h.pairs, vec![Kvpair::new("k", 1.into())]),
        _ => panic!("wrong variant"),
    }
    let r = CommandRequest::new_hmdel("t", vec!["k".to_string()]);
    assert!(matches!(r.request_data, Some(RequestData::Hmdel(_))));
    let r = CommandRequest::new_hmexist("t", vec!["k".to_string()]);
    assert!(matches!(r.request_data, Some(RequestData::Hmexist(_))));
}

#[test]
fn response_checks_reject_mismatches() {
    let ok = CommandResponse::from_values(vec![1.into(), "a".into()]);
    assert!(!assert_res_ok(ok, &["a".into(), 1.into()], &[]));
    let ok = CommandResponse::from_values(vec![1.into()]);
    assert!(!assert_res_ok(ok, &[1.into(), 1.into()], &[]));
    let pairs = CommandResponse::from_pairs(vec![
        Kvpair::new("b", 2.into()),
        Kvpair::new("a", 1.into()),
        Kvpair::new("a", 1.into()),
    ]);
    assert!(assert_res_ok(
        pairs,
        &[],
        &[Kvpair::new("a", 1.into()), Kvpair::new("a", 1.into()), Kvpair::new("b", 2.into())]
    ));
    let pairs = CommandResponse::from_pairs(vec![Kvpair::new("a", 1.into()), Kvpair::new("b", 2.into())]);
    assert!(!assert_res_ok(
        pairs,
        &[],
        &[Kvpair::new("a", 1.into()), Kvpair::new("a", 1.into())]
    ));
    let unsorted = CommandResponse::from_pairs(vec![Kvpair::new("a", 1.into()), Kvpair::new("b", 2.into())]);
    assert!(!assert_res_ok(
        unsorted,
        &[],
        &[Kvpair::new("b", 2.into()), Kvpair::new("a", 1.into())]
    ));
    let missing = Kvpair { key: "k".to_string(), value: None };
    let empty = CommandResponse::from_pairs(vec![missing]);
    assert!(!assert_res_ok(empty, &[], &[Kvpair::new("k", Value::default())]));
    let missing = Kvpair { key: "k".to_string(), value: None };
    let empty = CommandResponse::from_pairs(vec![missing.clone()]);
    assert!(assert_res_ok(empty, &[], &[missing]));
    let same_key = CommandResponse::from_pairs(vec![Kvpair::new("k", 5.into()), Kvpair::new("k", (-3).into())]);
    assert!(assert_res_ok(
        same_key,
        &[],
        &[Kvpair::new("k", (-3).into()), Kvpair::new("k", 5.into())]
    ));

    let err = CommandResponse::from_error(kv_store::KvError::NotFound("t".to_string(), "k".to_string()));
    assert!(!assert_res_error(err, 404, "not found"));
    let err = CommandResponse::from_error(kv_store::KvError::NotFound("t".to_string(), "k".to_string()));
    assert!(assert_res_error(err, 404, ""));
    let err = CommandResponse::from_error(kv_store::KvError::NotFound("t".to_string(), "k".to_string()));
    assert!(!assert_res_error(err, 500, "Not found"));
    assert!(!assert_res_error(CommandResponse::from_value(1.into()), 200, ""));
}

#[test]
fn dispatch_hdel_returns_removed_value() {
    let mut store = MemTable::new();
    dispatch(hset("t1", "hello", "world".into()), &mut store);
    let res = dispatch(CommandRequest::new_hdel("t1", "hello"), &mut store);
    assert!(assert_res_ok(res, &["world".into()], &[]));
    let res = dispatch(CommandRequest::new_hdel("t1", "hello"), &mut store);
    assert!(assert_res_ok(res, &[Value::default()], &[]));
    assert_eq!(store.get("t1", "hello").unwrap(), None);
}
