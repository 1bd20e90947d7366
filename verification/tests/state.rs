use webhook::event::process::{Error, Identifier, Item, ItemMap, State, Value};

fn text(s: &str) -> Item {
    Item::Value(Value::StringValue(s.into()))
}

#[test]
fn set_ok() {
    let mut state = State::new();

    let key: Identifier = "key".into();
    let value = Item::Value(Value::StringValue("123".into()));

    let returned_item = state.set(key.clone(), value.clone());
    assert!(returned_item.is_ok());
    let returned_item = returned_item.unwrap();
    assert!(returned_item.is_none());

    assert_eq!(state.len(), 1);

    let item = state.get(&Identifier::from(key.to_string()));
    assert!(item.is_some());
    assert_eq!(item.unwrap(), &value);
}

#[test]
fn set_replace_ok() {
    let mut state = State::new();

    let key: Identifier = "key".into();
    let value = Item::Value(Value::StringValue("123".into()));
    let other_value = Item::Value(Value::StringValue("321".into()));

    let returned_item = state.set(key.clone(), other_value.clone());
    assert!(returned_item.is_ok());
    let returned_item = returned_item.unwrap();
    assert!(returned_item.is_none());

    let returned_item = state.set(key.clone(), value.clone());
    assert!(returned_item.is_ok());
    let returned_item = returned_item.unwrap();
    assert!(returned_item.is_some());
    assert_eq!(returned_item.unwrap(), other_value);

    assert_eq!(state.len(), 1);

    let item = state.get(&Identifier::from(key.to_string()));
    assert!(item.is_some());
    assert_eq!(item.unwrap(), &value);
}

#[test]
fn set_recursive_ok() {
    let mut state = State::new();

    let key: Identifier = "key.other".into();
    let value = Item::Value(Value::StringValue("123".into()));

    let returned_item = state.set(key.clone(), value.clone());
    assert!(returned_item.is_ok());
    let returned_item = returned_item.unwrap();
    assert!(returned_item.is_none());

    assert_eq!(state.len(), 1);

    let item = state.get(&Identifier::from(String::from("key")));
    assert!(item.is_some());

    let item = item.unwrap();
    assert!(matches!(item, Item::Dict(_)));

    let map = match item {
        Item::Dict(map) => map,
        _ => unreachable!(),
    };
    let item = map.get("other");
    assert!(item.is_some());

    let item = item.unwrap();
    assert_eq!(item, &value);
}

#[test]
fn set_array_ok() {
    let mut state = State::new();

    let key: Identifier = "key".into();
    let old_value = Item::Value(Value::IntValue(123));
    let vec = Item::Vec(vec![old_value.clone()]);
    let value = Item::Value(Value::StringValue("123".into()));

    let returned_value = state.set(key.clone(), vec.clone());
    assert!(returned_value.is_ok());

    let returned_value = state.set("key.0".into(), value.clone());
    assert!(returned_value.is_ok());
    let returned_value = returned_value.unwrap();
    assert!(returned_value.is_some());
    assert_eq!(returned_value.unwrap(), old_value);

    assert_eq!(state.len(), 1);

    let item = state.get(&Identifier::from(String::from("key")));
    assert!(item.is_some());

    let item = item.unwrap();
    assert!(matches!(item, Item::Vec(_)));

    let map = match item {
        Item::Vec(map) => map,
        _ => unreachable!(),
    };
    let item = map.get(0);
    assert!(item.is_some());

    let item = item.unwrap();
    assert_eq!(item, &value);
}

#[test]
fn set_recursive_replace_ok() {
    let mut state = State::new();

    let key: Identifier = "key.other".into();
    let value = Item::Value(Value::StringValue("123".into()));
    let other_value = Item::Value(Value::StringValue("321".into()));

    let returned_item = state.set(key.clone(), other_value.clone());
    assert!(returned_item.is_ok());
    let returned_item = returned_item.unwrap();
    assert!(returned_item.is_none());

    let returned_item = state.set(key.clone(), value.clone());
    assert!(returned_item.is_ok());
    let returned_item = returned_item.unwrap();
    assert!(returned_item.is_some());
    assert_eq!(returned_item.unwrap(), other_value);

    assert_eq!(state.len(), 1);

    let item = state.get(&Identifier::from(String::from("key")));
    assert!(item.is_some());

    let item = item.unwrap();
    assert!(matches!(item, Item::Dict(_)));

    let map = match item {
        Item::Dict(map) => map,
        _ => unreachable!(),
    };
    let item = map.get("other");
    assert!(item.is_some());

    let item = item.unwrap();
    assert_eq!(item, &value);
}

#[test]
fn get_some_ok() {
    let mut state = State::new();

    let key: Identifier = "key".into();
    let value = Item::Value(Value::StringValue("123".into()));

    let _ = state.set(key.clone(), value.clone());

    let result = state.get(&key);
    assert!(result.is_some());
    assert_eq!(result.unwrap(), &value);
}

#[test]
fn get_none_ok() {
    let state = State::new();

    let key: Identifier = "key".into();

    let result = state.get(&key);
    assert!(result.is_none());
}

#[test]
fn get_some_recursive_ok() {
    let mut state = State::new();

    let key: Identifier = "key.other".into();
    let value = Item::Value(Value::StringValue("123".into()));

    let _ = state.set(key.clone(), value.clone());

    let result = state.get(&key);
    assert!(result.is_some());
    assert_eq!(result.unwrap(), &value);
}

#[test]
fn get_none_recursive_ok() {
    let mut state = State::new();

    let key: Identifier = "key.other".into();
    let value = Item::Value(Value::StringValue("123".into()));

    let _ = state.set("key.cat".into(), value.clone());

    let result = state.get(&key);
    assert!(result.is_none());
}

#[test]
fn get_some_partial_recursive_ok() {
    let mut state = State::new();

    let key: Identifier = "key".into();
    let value = Item::Value(Value::StringValue("123".into()));

    let _ = state.set("key.other".into(), value.clone());

    let result = state.get(&key);
    assert!(result.is_some());
    assert_eq!(result.unwrap(), {
        let mut map = ItemMap::new();
        map.insert("other".into(), value.clone());
        &Item::Dict(map)
    })
}

#[test]
fn get_array_element_ok() {
    let mut state = State::new();

    let key: Identifier = "key.1".into();
    let target = Item::Value(Value::StringValue("321".into()));
    let value = Item::Vec(vec![Item::Value(Value::StringValue("123".into())), target.clone()]);

    let _ = state.set("key".into(), value.clone());

    let result = state.get(&key);
    assert!(result.is_some());
    assert_eq!(result.unwrap(), &target)
}

#[test]
fn get_array_element_nested_ok() {
    let mut state = State::new();

    let key: Identifier = "key.0.0".into();
    let target = Item::Value(Value::StringValue("321".into()));
    let value = Item::Vec(vec![Item::Vec(vec![target.clone()])]);

    let _ = state.set("key".into(), value.clone());

    let result = state.get(&key);
    assert!(result.is_some());
    assert_eq!(result.unwrap(), &target)
}

#[test]
fn set_creates_missing_dictionaries() {
    let mut state = State::new();
    assert!(state.set("a.b".into(), text("v")).unwrap().is_none());

    let mut inner = ItemMap::new();
    inner.insert("b".into(), text("v"));
    assert_eq!(state.get(&"a".into()), Some(&Item::Dict(inner)));
    assert_eq!(state.get(&"a.b".into()), Some(&text("v")));
    assert_eq!(state.len(), 1);
}

#[test]
fn set_then_get_round_trip_on_nested_paths() {
    let mut state = State::new();
    for path in ["x", "a.b.c", "a.b.d", "a.e", "", "a..z", "q."] {
        let value = text(path);
        assert!(state.set(path.into(), value.clone()).is_ok());
        assert_eq!(state.get(&path.into()), Some(&value));
    }
    assert_eq!(state.get(&"a.b.c".into()), Some(&text("a.b.c")));
}

#[test]
fn second_set_returns_the_first_value() {
    let mut state = State::new();
    assert_eq!(state.set("a.b.c".into(), text("old")).unwrap(), None);
    assert_eq!(state.set("a.b.c".into(), text("new")).unwrap(), Some(text("old")));
    assert_eq!(state.get(&"a.b.c".into()), Some(&text("new")));
}

#[test]
fn get_through_a_scalar_is_none() {
    let mut state = State::new();
    state.set("a".into(), Item::Value(Value::IntValue(1))).unwrap();
    assert!(state.get(&"a.b".into()).is_none());
    assert!(state.get(&"a.b.c".into()).is_none());
    assert!(state.get(&"missing.b".into()).is_none());
}

#[test]
fn set_through_a_scalar_is_non_map_access() {
    let mut state = State::new();
    state.set("a".into(), Item::Value(Value::IntValue(1))).unwrap();
    match state.set("a.b".into(), text("v")) {
        Err(Error::NonMapAccess { field, t }) => {
            assert_eq!(field, "a");
            assert_eq!(t, "Int");
        }
        other => panic!("unexpected outcome: {:?}", other),
    }
    assert_eq!(state.get(&"a".into()), Some(&Item::Value(Value::IntValue(1))));

    state.set("n".into(), Item::Value(Value::Null)).unwrap();
    match state.set("n.x.y".into(), text("v")) {
        Err(Error::NonMapAccess { field, t }) => {
            assert_eq!(field, "n");
            assert_eq!(t, "None");
        }
        other => panic!("unexpected outcome: {:?}", other),
    }

    state.set("list".into(), Item::Vec(vec![text("s")])).unwrap();
    match state.set("list.0.x".into(), text("v")) {
        Err(Error::NonMapAccess { field, t }) => {
            assert_eq!(field, "0");
            assert_eq!(t, "String");
        }
        other => panic!("unexpected outcome: {:?}", other),
    }
}

#[test]
fn set_in_a_list_needs_an_index_that_exists() {
    let mut state = State::new();
    let list = Item::Vec(vec![text("a"), text("b")]);
    state.set("l".into(), list.clone()).unwrap();

    match state.set("l.2".into(), text("v")) {
        Err(Error::IndexOutOfBound { index, len }) => {
            assert_eq!(index, 2);
            assert_eq!(len, 2);
        }
        other => panic!("unexpected outcome: {:?}", other),
    }
    match state.set("l.7.x".into(), text("v")) {
        Err(Error::IndexOutOfBound { index, len }) => {
            assert_eq!(index, 7);
            assert_eq!(len, 2);
        }
        other => panic!("unexpected outcome: {:?}", other),
    }
    assert!(matches!(state.set("l.x".into(), text("v")), Err(Error::InvalidIndex { .. })));
    assert!(matches!(state.set("l.-1".into(), text("v")), Err(Error::InvalidIndex { .. })));
    assert!(matches!(state.set("l.+".into(), text("v")), Err(Error::InvalidIndex { .. })));
    assert!(matches!(
        state.set("l.99999999999999999999999".into(), text("v")),
        Err(Error::InvalidIndex { .. })
    ));
    assert_eq!(state.get(&"l".into()), Some(&list));

    assert_eq!(state.set("l.+1".into(), text("c")).unwrap(), Some(text("b")));
    assert_eq!(state.get(&"l.01".into()), Some(&text("c")));
    assert!(state.get(&"l.2".into()).is_none());
    assert!(state.get(&"l.x".into()).is_none());
}

#[test]
fn split_gives_head_and_tail() {
    let (head, tail) = Identifier::from("a.b.0.c").split();
    assert_eq!(head.as_deref(), Some("a"));
    assert_eq!(tail.map(|t| t.to_string()).as_deref(), Some("b.0.c"));

    let (head, tail) = Identifier::from("solo").split();
    assert_eq!(head.as_deref(), Some("solo"));
    assert!(tail.is_none());

    let (head, tail) = Identifier::from("a.").split();
    assert_eq!(head.as_deref(), Some("a"));
    assert!(tail.is_none());

    let (head, tail) = Identifier::from(".b").split();
    assert_eq!(head.as_deref(), Some(""));
    assert_eq!(tail.map(|t| t.to_string()).as_deref(), Some("b"));

    let (head, tail) = Identifier::from("").split();
    assert_eq!(head.as_deref(), Some(""));
    assert!(tail.is_none());

    let (head, tail) = Identifier::from("é.ü").split();
    assert_eq!(head.as_deref(), Some("é"));
    assert_eq!(tail.map(|t| t.to_string()).as_deref(), Some("ü"));
}

#[test]
fn kind_names() {
    assert_eq!(Value::Null.kind_name(), "None");
    assert_eq!(Value::IntValue(3).kind_name(), "Int");
    assert_eq!(Value::StringValue("s".into()).kind_name(), "String");
    assert_eq!(Item::Vec(vec![]).kind_name(), "Array");
    assert_eq!(Item::Dict(ItemMap::new()).kind_name(), "Map");
    assert_eq!(text("s").kind_name(), "String");
}

#[test]
fn items_are_equal_by_what_they_hold() {
    let mut a = ItemMap::new();
    a.insert("x".into(), text("1"));
    a.insert("y".into(), Item::Vec(vec![text("2"), Item::Value(Value::IntValue(3))]));
    let mut b = ItemMap::new();
    b.insert("y".into(), Item::Vec(vec![text("2"), Item::Value(Value::IntValue(3))]));
    b.insert("x".into(), text("1"));
    assert_eq!(Item::Dict(a.clone()), Item::Dict(b.clone()));

    b.insert("x".into(), text("other"));
    assert_ne!(Item::Dict(a.clone()), Item::Dict(b));
    assert_ne!(Item::Vec(vec![text("1"), text("2")]), Item::Vec(vec![text("2"), text("1")]));
    assert_ne!(Item::Vec(vec![text("1")]), Item::Vec(vec![text("1"), text("1")]));
    assert_ne!(text("1"), Item::Value(Value::IntValue(1)));
    assert_eq!(a.len(), 2);
    assert_eq!(a.insert("x".into(), text("9")), Some(text("1")));
    assert_eq!(a.len(), 2);
}
