use webhook::event::process::operation::{Expression, Op, PayloadFormat, SetEnv, ToPayload};
use webhook::event::process::{Item, Value};
use webhook::event::sender::http::{
    HttpSenderConfig, HttpSenderType, HttpSenderUrlConfig, Outcome, HttpSender,
};
use webhook::event::sender::{new_sender, EnvString, SenderConfig};
use webhook::event::trigger::Trigger;
use webhook::event::utils::sync::{combine, GracefulSignalInvoker};
use webhook::event::{Action, Event, Executor, Phase, Pipeline, Signal};

use std::sync::atomic::{AtomicUsize, Ordering};
use std::sync::Arc;

fn text(s: &str) -> Item {
    Item::Value(Value::StringValue(s.into()))
}

fn target(url: EnvString) -> SenderConfig {
    SenderConfig::Http(HttpSenderConfig {
        http: vec![HttpSenderType::Post { post: HttpSenderUrlConfig { url } }],
    })
}

fn event(process: Option<Vec<Op>>, target: Vec<SenderConfig>) -> Event {
    Event {
        name: "sample".into(),
        trigger: vec![Trigger { trigger_type: "google-pubsub".into(), config: None }],
        process,
        target,
    }
}

fn urls(event: &Event, action: &Action) -> Vec<(String, Vec<u8>)> {
    match action {
        Action::Send { payload, state } => event
            .target
            .iter()
            .flat_map(|t| new_sender(t).requests(payload, state))
            .map(|r| (r.url, r.body))
            .collect(),
        other => panic!("unexpected action: {:?}", other),
    }
}

#[test]
fn identity_pipeline() {
    let mut pipeline = Pipeline::new(event(None, vec![target(EnvString::String("http://sink/x".into()))]));
    assert!(matches!(pipeline.start(), Action::Wait));
    assert_eq!(pipeline.phase(), Phase::Waiting);

    let send = pipeline.step(Signal::Message(b"hello".to_vec()));
    assert_eq!(urls(pipeline.definition(), &send), vec![("http://sink/x".to_string(), b"hello".to_vec())]);
    assert_eq!(pipeline.phase(), Phase::Sending);

    assert!(matches!(pipeline.step(Signal::Sent), Action::Ack));
    assert!(matches!(pipeline.step(Signal::Sent), Action::Keep));
    assert!(matches!(pipeline.step(Signal::Acked), Action::Wait));
    assert!(matches!(pipeline.step(Signal::Acked), Action::Keep));
    assert_eq!(pipeline.phase(), Phase::Waiting);
}

#[test]
fn set_then_use_via_from_env_url() {
    let process = vec![Op::SetEnv {
        set_env: SetEnv {
            target: "u".into(),
            value: Box::new(Expression::Item(text("http://dyn/1"))),
        },
    }];
    let targets = vec![target(EnvString::FromEnv { from_env: "u".into() })];
    let mut pipeline = Pipeline::new(event(Some(process), targets));
    let send = pipeline.step(Signal::Message(b"any".to_vec()));
    assert_eq!(urls(pipeline.definition(), &send), vec![("http://dyn/1".to_string(), b"any".to_vec())]);
}

#[test]
fn to_payload_json_reaches_the_wire() {
    let process = vec![Op::ToPayload {
        to_payload: ToPayload {
            format: PayloadFormat::Json,
            value: Box::new(Expression::Item(Item::Value(Value::IntValue(123)))),
        },
    }];
    let mut pipeline =
        Pipeline::new(event(Some(process), vec![target(EnvString::String("http://sink/x".into()))]));
    let send = pipeline.step(Signal::Message(b"whatever came in".to_vec()));
    assert_eq!(urls(pipeline.definition(), &send), vec![("http://sink/x".to_string(), b"123".to_vec())]);
}

#[test]
fn failed_program_is_acknowledged_without_dispatch() {
    let process = vec![Op::SetEnv {
        set_env: SetEnv {
            target: "a".into(),
            value: Box::new(Expression::FromJson { from_json: "{}".into() }),
        },
    }];
    let mut pipeline =
        Pipeline::new(event(Some(process), vec![target(EnvString::String("http://sink/x".into()))]));
    assert!(matches!(pipeline.step(Signal::Message(b"m".to_vec())), Action::Ack));
    assert_eq!(pipeline.phase(), Phase::Acking);
    assert!(matches!(pipeline.step(Signal::Acked), Action::Wait));
}

#[test]
fn drain_preempts_an_empty_queue() {
    let mut pipeline = Pipeline::new(event(None, vec![]));
    assert!(matches!(pipeline.step(Signal::Drain), Action::Join));
    assert_eq!(pipeline.phase(), Phase::Joining);
    assert!(matches!(pipeline.step(Signal::Message(b"late".to_vec())), Action::Keep));
    assert!(matches!(pipeline.step(Signal::Drain), Action::Keep));
    assert!(matches!(pipeline.step(Signal::Joined), Action::Finish));
    assert_eq!(pipeline.phase(), Phase::Stopped);
    assert!(matches!(pipeline.step(Signal::Joined), Action::Keep));
    assert!(matches!(pipeline.step(Signal::Message(b"late".to_vec())), Action::Keep));
}

#[test]
fn drain_lets_the_message_in_hand_complete() {
    let mut pipeline = Pipeline::new(event(None, vec![]));
    assert!(matches!(pipeline.step(Signal::Message(b"m".to_vec())), Action::Send { .. }));
    assert!(matches!(pipeline.step(Signal::Drain), Action::Keep));
    assert_eq!(pipeline.phase(), Phase::Sending);
    assert!(matches!(pipeline.step(Signal::Joined), Action::Keep));
    assert!(matches!(pipeline.step(Signal::Sent), Action::Ack));
    assert!(matches!(pipeline.step(Signal::Drain), Action::Keep));
    assert!(matches!(pipeline.step(Signal::Acked), Action::Join));
    assert!(matches!(pipeline.step(Signal::Joined), Action::Finish));
}

#[test]
fn two_pipelines_share_one_drain() {
    let mut first = Pipeline::new(event(None, vec![]));
    let mut second = Pipeline::new(event(None, vec![]));
    assert!(matches!(first.step(Signal::Message(b"1".to_vec())), Action::Send { .. }));
    assert!(matches!(first.step(Signal::Sent), Action::Ack));

    let mut acks = 0;
    let mut finished = 0;
    assert!(matches!(first.step(Signal::Drain), Action::Keep));
    assert!(matches!(second.step(Signal::Drain), Action::Join));
    if let Action::Join = first.step(Signal::Acked) {
        acks += 1;
    }
    for pipeline in [&mut first, &mut second] {
        if let Action::Finish = pipeline.step(Signal::Joined) {
            finished += 1;
        }
        assert_eq!(pipeline.phase(), Phase::Stopped);
    }
    assert_eq!(acks, 1);
    assert_eq!(finished, 2);
}

#[test]
fn sender_failure_isolation() {
    let targets = vec![
        target(EnvString::String("http://first/".into())),
        target(EnvString::String("http://second/".into())),
    ];
    let mut pipeline = Pipeline::new(event(None, targets));
    let send = pipeline.step(Signal::Message(b"m".to_vec()));
    let called = urls(pipeline.definition(), &send);
    assert_eq!(called.len(), 2);
    assert_eq!(called[0].0, "http://first/");
    assert_eq!(called[1].0, "http://second/");

    let outcomes = vec![Outcome::Status(500), Outcome::Status(200)];
    assert_eq!(HttpSender::failures(&outcomes), vec![0]);

    assert!(matches!(pipeline.step(Signal::Sent), Action::Ack));
    assert!(matches!(pipeline.step(Signal::Acked), Action::Wait));
    assert!(matches!(pipeline.step(Signal::Message(b"next".to_vec())), Action::Send { .. }));
}

struct Counter(Arc<AtomicUsize>);

impl GracefulSignalInvoker for Counter {
    fn call(&self) {
        self.0.fetch_add(1, Ordering::SeqCst);
    }
}

#[test]
fn combined_invoker_calls_every_child() {
    let a = Arc::new(AtomicUsize::new(0));
    let b = Arc::new(AtomicUsize::new(0));
    let children: Vec<Box<dyn GracefulSignalInvoker>> =
        vec![Box::new(Counter(a.clone())), Box::new(Counter(b.clone())), Box::new(Counter(a.clone()))];
    let all = combine(children);
    assert_eq!(all.len(), 3);
    all.call();
    assert_eq!(a.load(Ordering::SeqCst), 2);
    assert_eq!(b.load(Ordering::SeqCst), 1);

    let none = combine(vec![]);
    assert_eq!(none.len(), 0);
    none.call();
}

#[test]
fn executor_holds_nothing() {
    let executor = Executor::new();
    assert_eq!(format!("{:?}", executor), "Executor");
}
