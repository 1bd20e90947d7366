//! Small tools that the pipelines share.

pub mod sync;
