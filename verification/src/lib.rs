//! Task-tracking engine for a batch image-transformation pipeline.
//!
//! Each image in a batch is an independently progressing unit of work
//! ([`queue::ImageTask`]) moving through a fixed sequence of states. The
//! [`queue::TaskQueue`] owns all task state, hands out unique ids, records
//! per-task outcomes without losing sibling progress, and answers the queries
//! a batch driver needs for output writing and error reporting. Decoding,
//! transforming and encoding pixels happen outside, in the driver; only the
//! resulting buffers are handed in.
//!
//! [`command::Command::run`] is the command layer's admission gate: it
//! decides, before any file is touched, whether a command's arguments can be
//! worked with.

pub mod command;
pub mod error;
pub mod queue;

pub use error::TaskError;
