//! Where events come from.
//!
//! Pulling from a source is done by the caller. What is decided here is
//! which kind of receiver a trigger asks for, whether its settings are
//! complete, and what to do with each answer of the source.

use vstd::prelude::*;

use crate::event::process::Item;

pub mod pubsub;

verus! {

/// The description of a source: the kind of source, and its settings.
#[derive(Debug)]
pub struct Trigger {
    pub trigger_type: String,
    pub config: Option<Item>,
}

/// Why a source could not be set up or read.
#[derive(Debug)]
pub enum Error {
    /// The settings of the trigger are missing or incomplete.
    InvalidConfig(String),
    /// No receiver is known for this kind of trigger.
    UnknownType(String),
    /// The credential of the source cannot be read.
    InvalidCredential(String),
    /// The source could not be pulled from.
    PullError(String),
}

/// What an error is worth.
pub enum ErrorView {
    InvalidConfig(Seq<char>),
    UnknownType(Seq<char>),
    InvalidCredential(Seq<char>),
    PullError(Seq<char>),
}

impl View for Error {
    type V = ErrorView;

    open spec fn view(&self) -> ErrorView {
        match self {
            Error::InvalidConfig(s) => ErrorView::InvalidConfig(s@),
            Error::UnknownType(s) => ErrorView::UnknownType(s@),
            Error::InvalidCredential(s) => ErrorView::InvalidCredential(s@),
            Error::PullError(s) => ErrorView::PullError(s@),
        }
    }
}

/// The kind of trigger that is read from a Google Pub/Sub subscription.
pub open spec fn google_pubsub() -> Seq<char> {
    "google-pubsub"@
}

/// Makes the receiver that a trigger asks for. A trigger of any kind but
/// `google-pubsub` is refused with its kind; a Pub/Sub trigger gives what
/// [`pubsub::Receiver::new`] gives.
pub fn new_source_event_receiver(trigger: &Trigger) -> (r: Result<pubsub::Receiver, Error>)
    ensures
        trigger.trigger_type@ != google_pubsub() ==> (r matches Err(e) && e@
            == ErrorView::UnknownType(trigger.trigger_type@)),
        trigger.trigger_type@ == google_pubsub() ==> pubsub::made(trigger.config, r),
{
    if trigger.trigger_type == "google-pubsub".to_owned() {
        pubsub::Receiver::new(trigger)
    } else {
        Err(Error::UnknownType(trigger.trigger_type.clone()))
    }
}

} // verus!
