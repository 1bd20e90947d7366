//! Declarative event routing: pipeline definitions pull events from sources,
//! run each one through a small program over a per-message state, and fan
//! the resulting payload out to targets.
//!
//! Everything in this crate is verified. Calls into other crates are kept
//! behind small trusted functions, each documented where it stands.

pub mod event;
