//! Failure representation for tasks.

use vstd::prelude::*;

verus! {

/// The reason a task failed, as recorded by the registry.
///
/// A failed task carries one human-readable message describing what went
/// wrong (a decode, transform or encode error reported by the driver).
#[derive(Debug, PartialEq)]
pub enum TaskError {
    SingleError(String),
}

impl TaskError {
    /// The recorded message.
    pub fn message(&self) -> (r: &str)
        ensures
            r@ == self.message_view(),
    {
        match self {
            TaskError::SingleError(m) => m.as_str(),
        }
    }

    /// The message as a sequence of characters.
    pub open spec fn message_view(&self) -> Seq<char> {
        match self {
            TaskError::SingleError(m) => m@,
        }
    }
}

} // verus!
