//! What is sent to a target, and how a target is described.
//!
//! Sending itself is done by the caller. What is decided here is what to
//! send where: a target's description and the state of the message give the
//! list of requests to make.

use vstd::prelude::*;

use crate::event::process::model::{state_get, ItemView};
use crate::event::process::{Identifier, Item, State, Value};

pub mod http;

verus! {

/// The bytes that travel from a source to the targets.
#[derive(Debug)]
pub struct Payload {
    pub content: Vec<u8>,
}

impl View for Payload {
    type V = Seq<u8>;

    open spec fn view(&self) -> Seq<u8> {
        self.content@
    }
}

impl Clone for Payload {
    fn clone(&self) -> (r: Self)
        ensures
            r@ == self@,
    {
        Payload { content: self.content.clone() }
    }
}

impl Payload {
    /// A payload of the given bytes.
    pub fn new(content: Vec<u8>) -> (r: Self)
        ensures
            r@ == content@,
    {
        Payload { content }
    }
}

/// How a target is reached.
#[derive(Debug)]
pub enum SenderConfig {
    Http(http::HttpSenderConfig),
}

/// A text that is either written out or taken from the state of the message.
#[derive(Debug)]
pub enum EnvString {
    FromEnv { from_env: Identifier },
    String(String),
}

/// What a configured text is worth.
pub enum EnvStringView {
    FromEnv(Seq<char>),
    Literal(Seq<char>),
}

impl View for EnvString {
    type V = EnvStringView;

    open spec fn view(&self) -> EnvStringView {
        match self {
            EnvString::FromEnv { from_env } => EnvStringView::FromEnv(from_env@),
            EnvString::String(s) => EnvStringView::Literal(s@),
        }
    }
}

impl EnvStringView {
    /// The text in a given state: the literal itself, or the text bound
    /// under the identifier. Where the identifier is bound to anything but
    /// a text, or to nothing, there is none.
    pub open spec fn resolve(self, state: Map<Seq<char>, ItemView>) -> Option<Seq<char>> {
        match self {
            EnvStringView::FromEnv(id) => match state_get(state, id) {
                Some(ItemView::Text(s)) => Some(s),
                _ => None,
            },
            EnvStringView::Literal(s) => Some(s),
        }
    }
}

impl Clone for EnvString {
    fn clone(&self) -> (r: Self)
        ensures
            r@ == self@,
    {
        match self {
            EnvString::FromEnv { from_env } => EnvString::FromEnv { from_env: from_env.clone() },
            EnvString::String(s) => EnvString::String(s.clone()),
        }
    }
}

impl EnvString {
    /// The text in the given state, if there is one.
    pub fn to_string(&self, state: &State) -> (r: Option<String>)
        ensures
            match r {
                Some(s) => self@.resolve(state@) == Some(s@),
                None => self@.resolve(state@) is None,
            },
    {
        match self {
            EnvString::FromEnv { from_env: key } => {
                let val = state.get(key);
                match val {
                    Some(Item::Value(Value::StringValue(s))) => Some(s.clone()),
                    Some(Item::Value(Value::Null)) => None,
                    Some(Item::Value(Value::IntValue(_))) => None,
                    Some(Item::Vec(_)) => {
                        proof {
                            reveal_with_fuel(<Item as View>::view, 2);
                        }
                        None
                    },
                    Some(Item::Dict(_)) => None,
                    None => None,
                }
            },
            EnvString::String(s) => Some(s.clone()),
        }
    }
}

/// Makes the sender that a description asks for. This cannot fail.
pub fn new_sender(config: &SenderConfig) -> (r: http::HttpSender)
    ensures
        match config {
            SenderConfig::Http(c) => r@ == c@,
        },
{
    match config {
        SenderConfig::Http(c) => http::HttpSender::new(c),
    }
}

} // verus!
