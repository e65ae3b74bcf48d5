//! Why a poll can fail. The engine itself never fails: both failures arise
//! before it is called, where the snapshot is taken and the store is fetched.

use vstd::prelude::*;

verus! {

/// A failure that ends a poll before any state was touched.
#[derive(Clone, Copy, Debug, PartialEq, Eq, Structural)]
pub enum PollError {
    /// The state store could not be had for exclusive use.
    StoreUnavailable,
    /// The process table could not be read.
    SnapshotUnavailable,
}

/// The text that describes a failure.
pub open spec fn message_of(error: PollError) -> Seq<char> {
    match error {
        PollError::StoreUnavailable => "the process state store could not be locked"@,
        PollError::SnapshotUnavailable => "the process table could not be read"@,
    }
}

impl PollError {
    /// The text that describes this failure.
    pub fn message(self) -> (text: String)
        ensures
            text@ == message_of(self),
    {
        match self {
            PollError::StoreUnavailable => String::from_str(
                "the process state store could not be locked",
            ),
            PollError::SnapshotUnavailable => String::from_str("the process table could not be read"),
        }
    }
}

} // verus!
