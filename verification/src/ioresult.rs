//! The value that a callback receives.
use vstd::prelude::*;

verus! {

/// The value handed to a callback when its operation completes.
#[derive(Debug, PartialEq, Eq)]
pub enum IOResult {
    /// The operation produced nothing of its own.
    Undefined,
    /// The operation produced text.
    Text(String),
    /// The operation produced a number.
    Int(u64),
}

impl IOResult {
    /// The text, if this is a `Text`; otherwise nothing.
    pub fn into_string(self) -> (r: Option<String>)
        ensures
            r == (match self {
                IOResult::Text(s) => Some(s),
                _ => None,
            }),
    {
        match self {
            IOResult::Text(s) => Some(s),
            _ => None,
        }
    }

    /// The number, if this is an `Int`; otherwise nothing.
    pub fn into_int(self) -> (r: Option<u64>)
        ensures
            r == (match self {
                IOResult::Int(i) => Some(i),
                _ => None,
            }),
    {
        match self {
            IOResult::Int(i) => Some(i),
            _ => None,
        }
    }
}

} // verus!
