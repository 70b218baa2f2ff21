use kv_store::{CommandResponse, KvError, Kvpair, Value, ValueData};

#[test]
fn error_statuses_and_messages() {
    let r = CommandResponse::from(KvError::NotFound("t".to_string(), "k".to_string()));
    assert_eq!(r.status, 404);
    assert_eq!(r.message, "Not found for table: t, key: k");
    let r = CommandResponse::from(KvError::InvalidCommand("x".to_string()));
    assert_eq!(r.status, 400);
    assert_eq!(r.message, "Cannot parse command: `x`");
    let r = CommandResponse::from(KvError::FrameError);
    assert_eq!(r.status, 500);
    assert_eq!(r.message, "Frame is larger than max size!");
    let e = KvError::StorageError("get".to_string(), "t".to_string(), "k".to_string(), "disk".to_string());
    assert_eq!(e.to_message(), "Cannot process command get with table: t, key: k. Error: disk");
    assert_eq!(e.status_code(), 500);
    assert_eq!(KvError::Internal("boom".to_string()).to_message(), "Internal error: boom");
    assert_eq!(KvError::IoError.to_message(), "I/O Error");
}

#[test]
fn responses_from_values_and_pairs() {
    let values: Vec<Value> = vec![1.into(), "hello".into(), b"data".to_vec().into()];
    let r: CommandResponse = values.clone().into();
    assert_eq!(r.status, 200);
    assert_eq!(r.message, "");
    assert_eq!(r.values, values);
    let r: CommandResponse = Value::from(5).into();
    assert_eq!(r.values, vec![Value { value: Some(ValueData::Integer(5)) }]);
    let pairs = vec![Kvpair::new("k", "v".into())];
    let r: CommandResponse = pairs.clone().into();
    assert_eq!(r.pairs, pairs);
    assert!(r.values.is_empty());
}

#[test]
fn value_conversions_and_clone() {
    assert_eq!(Value::from("s"), Value { value: Some(ValueData::String("s".to_string())) });
    assert_eq!(Value::from("s".to_string()), Value::from("s"));
    assert_eq!(Value::default(), Value { value: None });
    let v = Value::from(vec![1u8, 2, 3]);
    assert_eq!(v.clone(), v);
    let p = Kvpair::from_parts("k".to_string(), 2.into());
    assert_eq!(p.clone(), Kvpair::new("k", 2.into()));
}
