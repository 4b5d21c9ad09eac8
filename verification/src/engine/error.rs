use vstd::prelude::*;

verus! {

/// The error of a failed engine session operation: a human-readable message.
#[derive(Clone, Debug, PartialEq, Eq)]
pub struct EngineError(String);

impl View for EngineError {
    type V = Seq<char>;

    closed spec fn view(&self) -> Seq<char> {
        self.0@
    }
}

impl EngineError {
    /// Creates an engine error with the given message.
    pub fn new(message: &str) -> (error: EngineError)
        ensures
            error@ == message@,
    {
        EngineError(message.to_owned())
    }

    /// Creates an engine error that takes ownership of `message`.
    pub fn from_message(message: String) -> (error: EngineError)
        ensures
            error@ == message@,
    {
        EngineError(message)
    }

    /// Returns the error's message.
    pub fn message(&self) -> (message: &str)
        ensures
            message@ == self@,
    {
        self.0.as_str()
    }
}

} // verus!
