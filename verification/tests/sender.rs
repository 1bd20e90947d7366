use webhook::event::process::{Item, State, Value};
use webhook::event::sender::http::{
    HttpSender, HttpSenderConfig, HttpSenderType, HttpSenderUrlConfig, Method, Outcome,
};
use webhook::event::sender::{new_sender, EnvString, Payload, SenderConfig};

fn post(url: EnvString) -> HttpSenderType {
    HttpSenderType::Post { post: HttpSenderUrlConfig { url } }
}

fn from_env(key: &str) -> EnvString {
    EnvString::FromEnv { from_env: key.into() }
}

#[test]
fn payload_keeps_its_bytes() {
    let payload = Payload::new(b"hello".to_vec());
    assert_eq!(payload.content, b"hello");
    assert_eq!(payload.clone().content, b"hello");
}

#[test]
fn literal_url_is_used_as_it_is() {
    let state = State::new();
    assert_eq!(
        EnvString::String("http://sink/x".into()).to_string(&state).as_deref(),
        Some("http://sink/x")
    );
}

#[test]
fn url_from_the_state_must_be_a_text() {
    let mut state = State::new();
    state.set("u".into(), Item::Value(Value::StringValue("http://dyn/1".into()))).unwrap();
    state.set("n".into(), Item::Value(Value::IntValue(7))).unwrap();
    state.set("z".into(), Item::Value(Value::Null)).unwrap();
    state.set("l".into(), Item::Vec(vec![])).unwrap();
    state.set("d.inner".into(), Item::Value(Value::StringValue("deep".into()))).unwrap();

    assert_eq!(from_env("u").to_string(&state).as_deref(), Some("http://dyn/1"));
    assert_eq!(from_env("d.inner").to_string(&state).as_deref(), Some("deep"));
    assert_eq!(from_env("n").to_string(&state), None);
    assert_eq!(from_env("z").to_string(&state), None);
    assert_eq!(from_env("l").to_string(&state), None);
    assert_eq!(from_env("d").to_string(&state), None);
    assert_eq!(from_env("absent").to_string(&state), None);
}

#[test]
fn identity_pipeline_posts_the_bytes_to_the_sink() {
    let config = SenderConfig::Http(HttpSenderConfig {
        http: vec![post(EnvString::String("http://sink/x".into()))],
    });
    let sender = new_sender(&config);
    let requests = sender.requests(&Payload::new(b"hello".to_vec()), &State::new());
    assert_eq!(requests.len(), 1);
    assert_eq!(requests[0].method, Method::Post);
    assert_eq!(requests[0].url, "http://sink/x");
    assert_eq!(requests[0].body, b"hello");
}

#[test]
fn one_request_for_each_endpoint_in_order() {
    let mut state = State::new();
    state.set("u".into(), Item::Value(Value::StringValue("http://dyn/1".into()))).unwrap();
    let sender = HttpSender::new(&HttpSenderConfig {
        http: vec![
            post(EnvString::String("http://a/".into())),
            post(from_env("u")),
            post(from_env("nowhere")),
        ],
    });
    let requests = sender.requests(&Payload::new(vec![1, 2, 3]), &state);
    let urls: Vec<&str> = requests.iter().map(|r| r.url.as_str()).collect();
    assert_eq!(urls, vec!["http://a/", "http://dyn/1", "missing url"]);
    assert!(requests.iter().all(|r| r.body == vec![1, 2, 3] && r.method == Method::Post));

    let none = HttpSender::new(&HttpSenderConfig { http: vec![] });
    assert!(none.requests(&Payload::new(vec![]), &state).is_empty());
}

#[test]
fn only_a_2xx_response_counts_as_delivered() {
    assert!(Outcome::Status(200).is_delivered());
    assert!(Outcome::Status(204).is_delivered());
    assert!(Outcome::Status(299).is_delivered());
    assert!(!Outcome::Status(199).is_delivered());
    assert!(!Outcome::Status(300).is_delivered());
    assert!(!Outcome::Status(404).is_delivered());
    assert!(!Outcome::Status(500).is_delivered());
    assert!(!Outcome::NoResponse.is_delivered());
}

#[test]
fn failures_are_listed_by_position() {
    let outcomes = vec![
        Outcome::Status(500),
        Outcome::Status(200),
        Outcome::NoResponse,
        Outcome::Status(201),
        Outcome::Status(302),
    ];
    assert_eq!(HttpSender::failures(&outcomes), vec![0, 2, 4]);
    assert_eq!(HttpSender::failures(&vec![Outcome::Status(200)]), Vec::<usize>::new());
    assert_eq!(HttpSender::failures(&vec![]), Vec::<usize>::new());
}
