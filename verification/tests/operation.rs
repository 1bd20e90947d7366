use webhook::event::process::operation::{
    run_program, Expression, ExpressionMap, Op, PayloadFormat, SetEnv, ToPayload,
};
use webhook::event::process::{Error, Identifier, Item, ItemMap, State, Value};
use webhook::event::sender::Payload;

#[test]
fn operation_test_set_env_ok() {
    let mut state = State::new();
    let _ = state.set(Identifier::from("o"), Item::Value(Value::Null));

    let key = Identifier::from("key");
    let item = Item::Value(Value::IntValue(123));
    let value = Box::new(Expression::Item(item.clone()));

    let op = Op::SetEnv { set_env: SetEnv { target: key.clone().into(), value } };
    let payload = Payload::new(vec![]);

    let res = op.execute(payload, state);
    assert!(res.is_ok());

    let (_, state) = res.unwrap();

    assert_eq!(state.len(), 2);
    assert!(state.get(&key).is_some());
    assert_eq!(state.get(&key).unwrap(), &item);
}

#[test]
fn test_to_payload_ok() {
    let mut state = State::new();
    let item = Item::Value(Value::IntValue(123));
    let value = Box::new(Expression::Item(item.clone()));

    let _ = state.set(Identifier::from("o"), item.clone());

    let op = Op::ToPayload { to_payload: ToPayload { value, format: PayloadFormat::Json } };
    let payload = Payload::new(vec![]);

    let res = op.execute(payload, state);
    assert!(res.is_ok());

    let (payload, _) = res.unwrap();
    assert!(payload.content.len() > 0);
    assert_eq!(payload.content, "123".as_bytes());
}

#[test]
fn expression_test_set_env_ok() {
    let mut state = State::new();
    let _ = state.set(Identifier::from("o"), Item::Value(Value::Null));

    let key = Identifier::from("key");
    let item = Item::Value(Value::IntValue(123));
    let value = Box::new(Expression::Item(item.clone()));

    let exp = Expression::SetEnv { set_env: SetEnv { target: key.clone().into(), value } };
    let payload = Payload::new(vec![]);

    let res = exp.evaluate(payload, state);
    assert!(res.is_ok());

    let (ret_item, _, state) = res.unwrap();

    assert_eq!(state.len(), 2);
    assert!(state.get(&key).is_some());
    assert_eq!(state.get(&key).unwrap(), &item);

    assert_eq!(ret_item, item);
}

#[test]
fn test_get_env_ok() {
    let mut state = State::new();
    let key = Identifier::from("key");
    let item = Item::Value(Value::IntValue(123));

    let _ = state.set(key.clone(), item.clone());

    let exp = Expression::GetEnv { get_env: key.clone().into() };
    let payload = Payload::new(vec![]);

    let res = exp.evaluate(payload, state);
    assert!(res.is_ok());

    let (ret_item, _, state) = res.unwrap();

    assert_eq!(state.len(), 1);
    assert!(state.get(&key).is_some());
    assert_eq!(state.get(&key).unwrap(), &item);

    assert_eq!(ret_item, item);
}

#[test]
fn test_item_ok() {
    let state = State::new();

    let item = Item::Value(Value::IntValue(123));
    let exp = Expression::Item(item.clone());
    let payload = Payload::new(vec![]);

    let res = exp.evaluate(payload, state);
    assert!(res.is_ok());

    let (ret_item, _, state) = res.unwrap();

    assert_eq!(state.len(), 0);
    assert_eq!(ret_item, item);
}

#[test]
fn test_as_map_ok() {
    let env_id = Identifier::from("id");
    let env_value = Item::Value(Value::StringValue("test".into()));
    let state = {
        let mut state = State::new();

        let _ = state.set(env_id.clone(), env_value.clone());

        state
    };

    let new_item = Item::Value(Value::IntValue(123));
    let to_env_id = Identifier::from("to_id");
    let to_env_item = Item::Value(Value::IntValue(123));

    let map = {
        let mut res = ExpressionMap::new();

        res.insert(String::from("from_env"), Expression::GetEnv { get_env: env_id.clone() });
        res.insert(String::from("value"), Expression::Item(new_item.clone()));
        res.insert(
            String::from("to_env"),
            Expression::SetEnv {
                set_env: SetEnv {
                    target: to_env_id.clone(),
                    value: Box::new(Expression::Item(to_env_item.clone())),
                },
            },
        );

        res
    };
    let exp = Expression::AsMap { as_map: map };
    let payload = Payload::new(vec![]);

    let exp_res = exp.evaluate(payload, state);
    assert!(exp_res.is_ok());
    let (item, _, state) = exp_res.unwrap();

    assert!(matches!(item, Item::Dict(_)));
    let map = match item {
        Item::Dict(m) => m,
        _ => unreachable!(),
    };

    assert_eq!(map.len(), 3);

    assert_eq!(map.get("from_env"), Some(&env_value));
    assert_eq!(map.get("value"), Some(&new_item));
    assert_eq!(map.get("to_env"), Some(&to_env_item));

    assert_eq!(state.len(), 2);
}

fn text(s: &str) -> Item {
    Item::Value(Value::StringValue(s.into()))
}

fn literal(item: Item) -> Box<Expression> {
    Box::new(Expression::Item(item))
}

fn sample() -> Item {
    let mut inner = ItemMap::new();
    inner.insert("b".into(), Item::Vec(vec![Item::Value(Value::IntValue(-7)), text("x\"y")]));
    inner.insert("a".into(), Item::Value(Value::Null));
    Item::Dict(inner)
}

#[test]
fn empty_program_is_identity() {
    let (payload, state) = run_program(&vec![], Payload::new(b"hello".to_vec())).unwrap();
    assert_eq!(payload.content, b"hello");
    assert_eq!(state.len(), 0);
}

#[test]
fn set_env_keeps_the_payload() {
    let ops = vec![Op::SetEnv {
        set_env: SetEnv { target: "u".into(), value: literal(text("http://dyn/1")) },
    }];
    let (payload, state) = run_program(&ops, Payload::new(b"any bytes".to_vec())).unwrap();
    assert_eq!(payload.content, b"any bytes");
    assert_eq!(state.get(&"u".into()), Some(&text("http://dyn/1")));
}

#[test]
fn to_payload_json_of_an_integer() {
    let ops = vec![Op::ToPayload {
        to_payload: ToPayload {
            format: PayloadFormat::Json,
            value: literal(Item::Value(Value::IntValue(123))),
        },
    }];
    let (payload, state) = run_program(&ops, Payload::new(b"ignored".to_vec())).unwrap();
    assert_eq!(payload.content, b"123");
    assert_eq!(state.len(), 0);
}

#[test]
fn dotted_path_state_reaches_the_payload() {
    let ops = vec![
        Op::SetEnv { set_env: SetEnv { target: "a.b.c".into(), value: literal(text("v")) } },
        Op::ToPayload {
            to_payload: ToPayload {
                format: PayloadFormat::Json,
                value: Box::new(Expression::GetEnv { get_env: "a.b.c".into() }),
            },
        },
    ];
    let (payload, _) = run_program(&ops, Payload::new(vec![])).unwrap();
    assert_eq!(payload.content, b"\"v\"");
}

#[test]
fn json_text_is_what_serde_json_writes() {
    let bytes = PayloadFormat::Json.to_vec(&sample()).unwrap();
    assert_eq!(bytes, b"{\"a\":null,\"b\":[-7,\"x\\\"y\"]}");
    let want: serde_json::Value = serde_json::from_slice(&bytes).unwrap();
    assert_eq!(serde_json::to_vec(&want).unwrap(), bytes);
}

#[test]
fn yaml_text_is_what_serde_yaml_writes() {
    let bytes = PayloadFormat::Yaml.to_vec(&sample()).unwrap();
    assert_eq!(String::from_utf8(bytes).unwrap(), "---\na: ~\nb:\n  - -7\n  - \"x\\\"y\"\n");
    let bytes = PayloadFormat::Yaml.to_vec(&Item::Value(Value::IntValue(123))).unwrap();
    assert_eq!(String::from_utf8(bytes).unwrap(), "---\n123\n");
}

#[test]
fn parse_payload_reads_both_formats() {
    let json = Payload::new(b" {\"b\": [-7, \"x\\\"y\"], \"a\": null} ".to_vec());
    assert_eq!(PayloadFormat::Json.parse_payload(&json).unwrap(), sample());

    let yaml = Payload::new(b"a: ~\nb:\n  - -7\n  - 'x\"y'\n".to_vec());
    assert_eq!(PayloadFormat::Yaml.parse_payload(&yaml).unwrap(), sample());

    let number = Payload::new(b"9223372036854775807".to_vec());
    assert_eq!(
        PayloadFormat::Json.parse_payload(&number).unwrap(),
        Item::Value(Value::IntValue(i64::MAX))
    );
}

#[test]
fn parse_payload_refuses_what_is_no_item() {
    for bad in ["", "{", "true", "1.5", "9223372036854775808", "[1, false]", "{\"a\": 0.1}"] {
        let payload = Payload::new(bad.as_bytes().to_vec());
        assert!(
            matches!(PayloadFormat::Json.parse_payload(&payload), Err(Error::Unimplemented)),
            "{}",
            bad
        );
    }
    for bad in ["a: [", "true", "1.5", "- yes\n- 1.25"] {
        let payload = Payload::new(bad.as_bytes().to_vec());
        assert!(
            matches!(PayloadFormat::Yaml.parse_payload(&payload), Err(Error::Unimplemented)),
            "{}",
            bad
        );
    }
}

#[test]
fn from_payload_round_trips_through_to_payload() {
    let ops = vec![
        Op::SetEnv {
            set_env: SetEnv {
                target: "in".into(),
                value: Box::new(Expression::FromPayload { from_payload: PayloadFormat::Json }),
            },
        },
        Op::ToPayload {
            to_payload: ToPayload {
                format: PayloadFormat::Json,
                value: Box::new(Expression::GetEnv { get_env: "in.b.1".into() }),
            },
        },
    ];
    let incoming = Payload::new(b"{\"b\":[1,\"two\"]}".to_vec());
    let (payload, state) = run_program(&ops, incoming).unwrap();
    assert_eq!(payload.content, b"\"two\"");
    assert_eq!(state.get(&"in.b.0".into()), Some(&Item::Value(Value::IntValue(1))));
}

#[test]
fn get_env_of_a_missing_path_is_the_null_scalar() {
    let exp = Expression::GetEnv { get_env: "no.such".into() };
    let (item, payload, state) = exp.evaluate(Payload::new(b"p".to_vec()), State::new()).unwrap();
    assert_eq!(item, Item::Value(Value::Null));
    assert_eq!(payload.content, b"p");
    assert_eq!(state.len(), 0);
}

#[test]
fn from_json_is_unimplemented() {
    let exp = Expression::FromJson { from_json: "{}".into() };
    assert!(matches!(
        exp.evaluate(Payload::new(vec![]), State::new()),
        Err(Error::Unimplemented)
    ));
    let ops = vec![
        Op::SetEnv { set_env: SetEnv { target: "a".into(), value: Box::new(exp) } },
        Op::SetEnv { set_env: SetEnv { target: "b".into(), value: literal(text("never")) } },
    ];
    assert!(matches!(run_program(&ops, Payload::new(vec![])), Err(Error::Unimplemented)));
}

#[test]
fn first_failure_ends_the_program() {
    let ops = vec![
        Op::SetEnv { set_env: SetEnv { target: "a".into(), value: literal(text("scalar")) } },
        Op::SetEnv { set_env: SetEnv { target: "a.b".into(), value: literal(text("v")) } },
        Op::ToPayload {
            to_payload: ToPayload { format: PayloadFormat::Json, value: literal(text("late")) },
        },
    ];
    match run_program(&ops, Payload::new(vec![])) {
        Err(Error::NonMapAccess { field, t }) => {
            assert_eq!(field, "a");
            assert_eq!(t, "String");
        }
        other => panic!("unexpected outcome: {:?}", other),
    }
}

#[test]
fn as_map_threads_the_state_in_order() {
    let mut named = ExpressionMap::new();
    named.insert(
        "first".to_string(),
        Expression::SetEnv {
            set_env: SetEnv { target: "seen".into(), value: literal(text("one")) },
        },
    );
    named.insert("second".to_string(), Expression::GetEnv { get_env: "seen".into() });
    assert_eq!(named.len(), 2);

    let exp = Expression::AsMap { as_map: named };
    let (item, _, state) = exp.evaluate(Payload::new(vec![]), State::new()).unwrap();
    let mut want = ItemMap::new();
    want.insert("first".into(), text("one"));
    want.insert("second".into(), text("one"));
    assert_eq!(item, Item::Dict(want));
    assert_eq!(state.get(&"seen".into()), Some(&text("one")));
}

#[test]
fn a_name_stands_once_among_named_expressions() {
    let mut named = ExpressionMap::new();
    assert!(named.insert("a".to_string(), Expression::Item(text("old"))).is_none());
    assert!(named.insert("b".to_string(), Expression::GetEnv { get_env: "x".into() }).is_none());
    let displaced = named.insert("a".to_string(), Expression::Item(text("new")));
    assert!(matches!(displaced, Some(Expression::Item(item)) if item == text("old")));
    assert_eq!(named.len(), 2);

    let exp = Expression::AsMap { as_map: named };
    let (item, _, _) = exp.evaluate(Payload::new(vec![]), State::new()).unwrap();
    let mut want = ItemMap::new();
    want.insert("a".into(), text("new"));
    want.insert("b".into(), Item::Value(Value::Null));
    assert_eq!(item, Item::Dict(want));
}

#[test]
fn as_map_stops_at_the_first_failure() {
    let mut named = ExpressionMap::new();
    named.insert(
        "first".to_string(),
        Expression::SetEnv {
            set_env: SetEnv { target: "seen".into(), value: literal(text("one")) },
        },
    );
    named.insert("second".to_string(), Expression::FromJson { from_json: "{}".into() });
    let exp = Expression::AsMap { as_map: named };
    assert!(matches!(
        exp.evaluate(Payload::new(vec![]), State::new()),
        Err(Error::Unimplemented)
    ));
}
