//! The per-message state and the items it holds.
//!
//! A [`State`] is a dictionary of [`Item`]s that is addressed by dotted
//! [`Identifier`]s such as `a.b.0.c`. The contracts of this module are
//! stated over the model in [`model`].

use vstd::prelude::*;

pub mod codec;
pub mod identifier;
pub mod item;
pub mod model;
pub mod operation;
pub mod state;

pub use identifier::Identifier;
pub use item::{view_of, view_of_ref, Item, ItemMap, Value};
pub use state::State;

use model::ErrorView;

verus! {

/// Why the state could not be read or written, or a program not be run.
#[derive(Debug)]
pub enum Error {
    /// A path went through a scalar of kind `t`, held under `field`.
    NonMapAccess { field: String, t: String },
    /// A path named an index that the list does not have.
    IndexOutOfBound { index: usize, len: usize },
    /// A path named a list element by something that is no index.
    InvalidIndex { reason: String },
    /// The program asked for something that is not provided.
    Unimplemented,
}

impl View for Error {
    type V = ErrorView;

    open spec fn view(&self) -> ErrorView {
        match self {
            Error::NonMapAccess { field, t } => ErrorView::NonMapAccess { field: field@, t: t@ },
            Error::IndexOutOfBound { index, len } => ErrorView::IndexOutOfBound {
                index: *index as nat,
                len: *len as nat,
            },
            Error::InvalidIndex { .. } => ErrorView::InvalidIndex,
            Error::Unimplemented => ErrorView::Unimplemented,
        }
    }
}

} // verus!
