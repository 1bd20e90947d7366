//! Targets that are reached by HTTP.

use vstd::prelude::*;

use super::{EnvString, EnvStringView, Payload};
use crate::event::process::model::ItemView;
use crate::event::process::State;

verus! {

/// The endpoints of an HTTP target, in the order in which they are listed.
#[derive(Debug)]
pub struct HttpSenderConfig {
    pub http: Vec<HttpSenderType>,
}

/// One endpoint and the method by which it is called.
#[derive(Debug)]
pub enum HttpSenderType {
    Post { post: HttpSenderUrlConfig },
}

/// Where an endpoint is.
#[derive(Debug)]
pub struct HttpSenderUrlConfig {
    pub url: EnvString,
}

impl HttpSenderType {
    /// The configured address of the endpoint.
    pub open spec fn url(self) -> EnvStringView {
        match self {
            HttpSenderType::Post { post } => post.url@,
        }
    }
}

impl View for HttpSenderConfig {
    type V = Seq<EnvStringView>;

    /// The configured address of each endpoint.
    open spec fn view(&self) -> Seq<EnvStringView> {
        Seq::new(self.http@.len(), |i: int| self.http@[i].url())
    }
}

impl Clone for HttpSenderConfig {
    fn clone(&self) -> (r: Self)
        ensures
            r@ == self@,
    {
        let mut http: Vec<HttpSenderType> = Vec::new();
        let mut i: usize = 0;
        while i < self.http.len()
            invariant
                i <= self.http@.len(),
                http@.len() == i,
                forall|j: int| 0 <= j < i ==> (#[trigger] http@[j]).url() == self.http@[j].url(),
            decreases self.http@.len() - i,
        {
            match &self.http[i] {
                HttpSenderType::Post { post } => {
                    http.push(
                        HttpSenderType::Post { post: HttpSenderUrlConfig { url: post.url.clone() } },
                    );
                },
            }
            i += 1;
        }
        let r = HttpSenderConfig { http };
        proof {
            assert(r@ =~= self@);
        }
        r
    }
}

/// The method of a request.
#[derive(Debug, Clone, Copy, PartialEq, Eq, Structural)]
pub enum Method {
    Post,
}

/// A request to make: the body goes to the address as it is, with no header
/// added.
#[derive(Debug)]
pub struct Request {
    pub method: Method,
    pub url: String,
    pub body: Vec<u8>,
}

/// The address that is used where none can be found.
pub open spec fn missing_url() -> Seq<char> {
    "missing url"@
}

/// The address to call for a configured address in a given state.
pub open spec fn address(url: EnvStringView, state: Map<Seq<char>, ItemView>) -> Seq<char> {
    match url.resolve(state) {
        Some(s) => s,
        None => missing_url(),
    }
}

/// How a request ended: with a response of some status, or without one.
#[derive(Debug, Clone, Copy, PartialEq, Eq, Structural)]
pub enum Outcome {
    Status(u16),
    NoResponse,
}

impl Outcome {
    /// Whether the payload was delivered: a response came, with a status
    /// from 200 to 299.
    pub open spec fn delivered(self) -> bool {
        match self {
            Outcome::Status(code) => 200 <= code < 300,
            Outcome::NoResponse => false,
        }
    }

    /// Whether the payload was delivered.
    pub fn is_delivered(&self) -> (r: bool)
        ensures
            r == self.delivered(),
    {
        match self {
            Outcome::Status(code) => 200 <= *code && *code < 300,
            Outcome::NoResponse => false,
        }
    }
}

/// Sends payloads to the endpoints of one HTTP target.
#[derive(Debug)]
pub struct HttpSender {
    config: HttpSenderConfig,
}

impl View for HttpSender {
    type V = Seq<EnvStringView>;

    closed spec fn view(&self) -> Seq<EnvStringView> {
        self.config@
    }
}

impl HttpSender {
    /// A sender for the endpoints of the description.
    pub fn new(config: &HttpSenderConfig) -> (r: Self)
        ensures
            r@ == config@,
    {
        HttpSender { config: config.clone() }
    }

    /// The requests that deliver a payload: one for each endpoint, in
    /// order, each a POST of the payload's bytes to the endpoint's address
    /// in the given state.
    pub fn requests(&self, payload: &Payload, state: &State) -> (r: Vec<Request>)
        ensures
            r@.len() == self@.len(),
            forall|i: int|
                0 <= i < r@.len() ==> (#[trigger] r@[i]).method == Method::Post && r@[i].url@
                    == address(self@[i], state@) && r@[i].body@ == payload@,
    {
        let mut requests: Vec<Request> = Vec::new();
        let mut i: usize = 0;
        while i < self.config.http.len()
            invariant
                i <= self.config.http@.len(),
                self@ == self.config@,
                requests@.len() == i,
                forall|j: int|
                    0 <= j < i ==> (#[trigger] requests@[j]).method == Method::Post
                        && requests@[j].url@ == address(self@[j], state@) && requests@[j].body@
                        == payload@,
            decreases self.config.http@.len() - i,
        {
            match &self.config.http[i] {
                HttpSenderType::Post { post } => {
                    let url = match post.url.to_string(state) {
                        Some(url) => url,
                        None => "missing url".to_owned(),
                    };
                    requests.push(
                        Request { method: Method::Post, url, body: payload.content.clone() },
                    );
                },
            }
            i += 1;
        }
        requests
    }

    /// The endpoints to report as failed, by position, given how each
    /// request ended. A failure is reported, never passed on: the sender
    /// itself has still done its work.
    pub fn failures(outcomes: &Vec<Outcome>) -> (r: Vec<usize>)
        ensures
            forall|k: int| 0 <= k < r@.len() ==> (#[trigger] r@[k]) < outcomes@.len() && !outcomes@[r@[k] as int].delivered(),
            forall|i: int|
                0 <= i < outcomes@.len() && !(#[trigger] outcomes@[i]).delivered() ==> r@.contains(
                    i as usize,
                ),
            forall|a: int, b: int| 0 <= a < b < r@.len() ==> r@[a] < r@[b],
    {
        let mut failed: Vec<usize> = Vec::new();
        let mut i: usize = 0;
        while i < outcomes.len()
            invariant
                i <= outcomes@.len(),
                forall|k: int| 0 <= k < failed@.len() ==> (#[trigger] failed@[k]) < i && !outcomes@[failed@[k] as int].delivered(),
                forall|j: int|
                    0 <= j < i && !(#[trigger] outcomes@[j]).delivered() ==> failed@.contains(
                        j as usize,
                    ),
                forall|a: int, b: int| 0 <= a < b < failed@.len() ==> failed@[a] < failed@[b],
            decreases outcomes@.len() - i,
        {
            if !outcomes[i].is_delivered() {
                let ghost before = failed@;
                failed.push(i);
                proof {
                    assert forall|j: int|
                        0 <= j <= i && !(#[trigger] outcomes@[j]).delivered() implies failed@.contains(
                        j as usize,
                    ) by {
                        if j < i {
                            let k = choose|k: int| 0 <= k < before.len() && before[k] == j as usize;
                            assert(failed@[k] == j as usize);
                        } else {
                            assert(failed@[before.len() as int] == i);
                        }
                    }
                }
            }
            i += 1;
        }
        failed
    }
}

} // verus!
