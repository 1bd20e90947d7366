//! Receiving from a Google Pub/Sub subscription.
//!
//! The subscription is polled for one message at a time. An empty answer is
//! followed by a pause that grows by a quarter each time, from one second up
//! to ten; a message ends the waiting and resets the pause. A pause is
//! kept, and handed out, in units of 2^-20 seconds, in which every value
//! that it takes is a whole number: 1 s, 1.25 s, 1.5625 s and so on.

use vstd::prelude::*;

use super::{Error, ErrorView, Trigger};
use crate::event::process::model::ItemView;
use crate::event::process::{Item, Value};

verus! {

/// One second, in the unit in which the pause is kept.
pub const UNIT: u64 = 1048576;

/// The longest pause: ten seconds.
pub const LONGEST: u64 = 10485760;

/// The text that `base64::decode` gives for a text in the standard alphabet
/// with padding, if it accepts it.
pub uninterp spec fn base64_bytes(text: Seq<char>) -> Option<Seq<u8>>;

/// `base64::decode` of the `base64` crate. The text alone decides whether
/// bytes come out, and which.
#[verifier::external_body]
fn decode_base64(text: &str) -> (r: Option<Vec<u8>>)
    ensures
        match r {
            Some(bytes) => base64_bytes(text@) == Some(bytes@),
            None => base64_bytes(text@) is None,
        },
{
    base64::decode(text).ok()
}

/// The text that settings hold under a key, if they are a dictionary that
/// holds a text there.
pub open spec fn text_at(config: ItemView, key: Seq<char>) -> Option<Seq<char>> {
    match config {
        ItemView::Dict(m) => if m.contains_key(key) {
            match m[key] {
                ItemView::Text(s) => Some(s),
                _ => None,
            }
        } else {
            None
        },
        _ => None,
    }
}

/// Whether `r` is what making a receiver from the settings gives: a
/// receiver with the credential and the subscription of the settings and a
/// pause of one second, or the reason why the settings will not do.
pub open spec fn made(config: Option<Item>, r: Result<Receiver, Error>) -> bool {
    match config {
        None => r matches Err(e) && e@ == ErrorView::InvalidConfig("missing config"@),
        Some(item) => match text_at(item@, "credential"@) {
            None => r matches Err(e) && e@ == ErrorView::InvalidConfig(
                "missing field `credential`"@,
            ),
            Some(credential) => match text_at(item@, "subscription_id"@) {
                None => r matches Err(e) && e@ == ErrorView::InvalidConfig(
                    "missing field `subscription_id`"@,
                ),
                Some(subscription) => r matches Ok(receiver) && receiver.credential() == credential
                    && receiver.subscription() == subscription && receiver.wait() == UNIT,
            },
        },
    }
}

/// The pause after an empty answer, given the pause before it.
pub open spec fn grown(wait: int) -> int {
    if wait * 5 / 4 > LONGEST {
        LONGEST as int
    } else {
        wait * 5 / 4
    }
}

/// The pause after `n` empty answers in a row.
pub open spec fn wait_after(n: nat) -> int
    decreases n,
{
    if n == 0 {
        UNIT as int
    } else {
        grown(wait_after((n - 1) as nat))
    }
}

/// A message as the source hands it out: its data in base 64, and the
/// handle by which it is acknowledged.
#[derive(Debug)]
pub struct Received {
    pub data: Option<String>,
    pub ack_id: Option<String>,
}

/// What a pull came back with.
#[derive(Debug)]
pub enum Poll {
    /// The pull failed; the text says how.
    Failed(String),
    /// The pull gave these messages, possibly none.
    Messages(Vec<Received>),
}

/// A message that is ready for the pipeline.
#[derive(Debug)]
pub struct Message {
    pub content: Vec<u8>,
    pub ack_id: String,
    pub subscription_id: String,
}

/// What to do after a pull.
#[derive(Debug)]
pub enum Step {
    /// Wait for this pause, given in units of 2^-20 seconds, then pull
    /// again.
    Sleep(u64),
    /// Hand the message on.
    Deliver(Message),
    /// Give up with this error.
    Fail(Error),
}

/// The bytes of a received message: its data, decoded from base 64.
pub open spec fn content_of(received: Received) -> Option<Seq<u8>> {
    match received.data {
        Some(data) => base64_bytes(data@),
        None => None,
    }
}

/// Whether a received message can be handed on: it has data that decodes,
/// and a handle.
pub open spec fn usable(received: Received) -> bool {
    content_of(received) is Some && received.ack_id is Some
}

/// Why a received message cannot be handed on.
pub open spec fn refusal(received: Received) -> Seq<char> {
    if received.data is None {
        "empty pubsub data"@
    } else if received.ack_id is None {
        "missing ack_id"@
    } else {
        "unable to decode pubsub message"@
    }
}

/// The receiver of one subscription.
#[derive(Debug)]
pub struct Receiver {
    credential: String,
    subscription_id: String,
    wait: u64,
}

impl Receiver {
    #[verifier::type_invariant]
    spec fn pause_in_range(&self) -> bool {
        UNIT <= self.wait <= LONGEST
    }

    /// The credential of the subscription, as the settings give it.
    pub closed spec fn credential(&self) -> Seq<char> {
        self.credential@
    }

    /// The subscription that is read.
    pub closed spec fn subscription(&self) -> Seq<char> {
        self.subscription_id@
    }

    /// The pause that the next empty answer is followed by.
    pub closed spec fn wait(&self) -> int {
        self.wait as int
    }

    /// The text that settings hold under a key.
    fn text_of(config: &Item, key: &str) -> (r: Option<String>)
        ensures
            match r {
                Some(s) => text_at(config@, key@) == Some(s@),
                None => text_at(config@, key@) is None,
            },
    {
        match config {
            Item::Dict(m) => match m.get(key) {
                Some(Item::Value(Value::StringValue(s))) => Some(s.clone()),
                Some(Item::Value(Value::Null)) => None,
                Some(Item::Value(Value::IntValue(_))) => None,
                Some(Item::Vec(_)) => {
                    proof {
                        reveal_with_fuel(<Item as View>::view, 2);
                    }
                    None
                },
                Some(Item::Dict(_)) => None,
                None => None,
            },
            Item::Vec(_) => {
                proof {
                    reveal_with_fuel(<Item as View>::view, 2);
                }
                None
            },
            Item::Value(_) => None,
        }
    }

    /// The receiver that the settings of a trigger describe.
    pub fn new(trigger: &Trigger) -> (r: Result<Self, Error>)
        ensures
            made(trigger.config, r),
    {
        let config = match &trigger.config {
            None => {
                return Err(Error::InvalidConfig("missing config".to_owned()));
            },
            Some(config) => config,
        };
        let credential = match Receiver::text_of(config, "credential") {
            None => {
                return Err(Error::InvalidConfig("missing field `credential`".to_owned()));
            },
            Some(s) => s,
        };
        let subscription_id = match Receiver::text_of(config, "subscription_id") {
            None => {
                return Err(Error::InvalidConfig("missing field `subscription_id`".to_owned()));
            },
            Some(s) => s,
        };
        Ok(Receiver { credential, subscription_id, wait: UNIT })
    }

    /// The credential of the subscription.
    pub fn credential_text(&self) -> (r: &str)
        ensures
            r@ == self.credential(),
    {
        self.credential.as_str()
    }

    /// The subscription that is read.
    pub fn subscription_id(&self) -> (r: &str)
        ensures
            r@ == self.subscription(),
    {
        self.subscription_id.as_str()
    }

    /// The pause that follows the next empty answer, in units of 2^-20
    /// seconds.
    pub fn pause(&self) -> (r: u64)
        ensures
            r == self.wait(),
            UNIT <= r <= LONGEST,
    {
        proof {
            use_type_invariant(self);
        }
        self.wait
    }

    /// Decides what follows a pull.
    ///
    /// A failed pull is given up with its text. An answer without messages
    /// is followed by the current pause, which then grows by a quarter. An
    /// answer with messages resets the pause, and its first message is
    /// handed on; where that message lacks its data or its handle, or the
    /// data is no base 64, the pull counts as failed.
    pub fn on_poll(&mut self, poll: Poll) -> (step: Step)
        ensures
            final(self).credential() == old(self).credential(),
            final(self).subscription() == old(self).subscription(),
            match poll {
                Poll::Failed(details) => {
                    &&& final(self).wait() == old(self).wait()
                    &&& step matches Step::Fail(e)
                    &&& e@ == ErrorView::PullError(details@)
                },
                Poll::Messages(messages) => if messages@.len() == 0 {
                    &&& step matches Step::Sleep(pause) && pause == old(self).wait()
                    &&& final(self).wait() == grown(old(self).wait())
                } else {
                    &&& final(self).wait() == UNIT
                    &&& if usable(messages@[0]) {
                        &&& step matches Step::Deliver(m)
                        &&& Some(m.content@) == content_of(messages@[0])
                        &&& Some(m.ack_id) == messages@[0].ack_id
                        &&& m.subscription_id@ == old(self).subscription()
                    } else {
                        step matches Step::Fail(e) && e@ == ErrorView::PullError(
                            refusal(messages@[0]),
                        )
                    }
                },
            },
    {
        proof {
            use_type_invariant(&*self);
        }
        match poll {
            Poll::Failed(details) => Step::Fail(Error::PullError(details)),
            Poll::Messages(messages) => {
                let mut messages = messages;
                if messages.len() == 0 {
                    let pause = self.wait;
                    let next = self.wait * 5 / 4;
                    self.wait = if next > LONGEST {
                        LONGEST
                    } else {
                        next
                    };
                    Step::Sleep(pause)
                } else {
                    self.wait = UNIT;
                    let first = messages.swap_remove(0);
                    let Received { data, ack_id } = first;
                    match (data, ack_id) {
                        (Some(data), Some(ack_id)) => match decode_base64(data.as_str()) {
                            Some(content) => Step::Deliver(
                                Message {
                                    content,
                                    ack_id,
                                    subscription_id: self.subscription_id.clone(),
                                },
                            ),
                            None => Step::Fail(
                                Error::PullError("unable to decode pubsub message".to_owned()),
                            ),
                        },
                        (None, _) => Step::Fail(Error::PullError("empty pubsub data".to_owned())),
                        (Some(_), None) => Step::Fail(Error::PullError("missing ack_id".to_owned())),
                    }
                }
            },
        }
    }
}

/// The whole seconds of a pause.
pub fn whole_seconds(pause: u64) -> (secs: u64)
    ensures
        secs == pause / UNIT,
{
    pause / UNIT
}

/// What a pause holds beyond its whole seconds, in whole nanoseconds.
pub fn nanoseconds(pause: u64) -> (nanos: u32)
    ensures
        nanos == (pause % UNIT) * 1_000_000_000 / (UNIT as int),
        nanos < 1_000_000_000,
{
    let part: u64 = pause % UNIT;
    let nanos: u64 = part * 1_000_000_000 / UNIT;
    nanos as u32
}

/// The pause never leaves the range from one second to ten, and from the
/// eleventh empty answer on it is ten seconds.
pub proof fn law_pause_is_bounded(n: nat)
    ensures
        UNIT <= wait_after(n) <= LONGEST,
        n >= 11 ==> wait_after(n) == LONGEST,
    decreases n,
{
    if n > 0 {
        law_pause_is_bounded((n - 1) as nat);
    }
    if n == 11 {
        reveal_with_fuel(wait_after, 12);
    }
}

/// Up to the longest pause each pause is exactly five quarters of the one
/// before it: one second, then 1.25 s, then 1.5625 s, and so on. Nothing is
/// rounded on the way.
pub proof fn law_pause_grows_by_a_quarter(n: nat)
    requires
        n < 10,
    ensures
        wait_after(0) == UNIT,
        4 * wait_after(n + 1) == 5 * wait_after(n),
{
    reveal_with_fuel(wait_after, 12);
    assert(wait_after(0) == 1048576);
    assert(wait_after(1) == 1310720);
    assert(wait_after(2) == 1638400);
    assert(wait_after(3) == 2048000);
    assert(wait_after(4) == 2560000);
    assert(wait_after(5) == 3200000);
    assert(wait_after(6) == 4000000);
    assert(wait_after(7) == 5000000);
    assert(wait_after(8) == 6250000);
    assert(wait_after(9) == 7812500);
    assert(wait_after(10) == 9765625);
}

} // verus!
