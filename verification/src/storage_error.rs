//! The report of a line that the store turned away.

use vstd::prelude::*;

verus! {

/// Why a line was not stored, with the line itself for diagnostics.
#[derive(Debug)]
pub struct StorageError {
    pub message: String,
    pub metric: String,
}

/// A [`StorageError`] as specifications see it.
pub struct Rejection {
    pub message: Seq<char>,
    pub metric: Seq<char>,
}

impl View for StorageError {
    type V = Rejection;

    open spec fn view(&self) -> Rejection {
        Rejection { message: self.message@, metric: self.metric@ }
    }
}

impl StorageError {
    /// Pairs a message with the line it is about.
    pub fn new(message: String, metric: String) -> (e: Self)
        ensures
            e.message == message,
            e.metric == metric,
    {
        Self { message: message, metric: metric }
    }

    /// The text shown for this error: its message.
    pub fn describe(&self) -> (text: String)
        ensures
            text@ == self.message@,
    {
        self.message.clone()
    }

    /// The message, borrowed.
    pub fn description(&self) -> (text: &str)
        ensures
            text@ == self.message@,
    {
        self.message.as_str()
    }
}

} // verus!
