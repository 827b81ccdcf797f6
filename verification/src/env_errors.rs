//! Outcomes of looking an environment variable up.

use vstd::prelude::*;
use vstd::string::*;

verus! {

/// An identifier that holds no word: nothing is left of it once the
/// whitespace around it and its underscores are gone.
#[derive(Clone, Copy, Debug, PartialEq, Eq)]
pub struct InvalidIdentifier;

/// What one lookup of an environment variable gave: the value, or the reason
/// why there is none. Anything that isn't `Present` is an error and carries its message.
#[derive(PartialEq, Debug)]
pub enum EnvEnumResult<T: Clone> {
    Present(T),
    Absent(String),
    IncorrectCast(String),
}

impl<T: Clone> EnvEnumResult<T> {
    /// The outcome as a `Result`: the value, or the message of the error.
    pub fn into_result(self) -> (result: Result<T, String>)
        ensures
            match self {
                EnvEnumResult::Present(value) => result == Ok::<T, String>(value),
                EnvEnumResult::Absent(message) => result == Err::<T, String>(message),
                EnvEnumResult::IncorrectCast(message) => result == Err::<T, String>(message),
            },
    {
        match self {
            EnvEnumResult::Present(value) => Ok(value),
            EnvEnumResult::Absent(message) => Err(message),
            EnvEnumResult::IncorrectCast(message) => Err(message),
        }
    }

    /// The value of a `Present` outcome.
    pub fn panic_if_absent(&self) -> (value: T)
        requires
            self is Present,
        ensures
            cloned(self->Present_0, value),
    {
        match self {
            EnvEnumResult::Present(val) => val.clone(),
            EnvEnumResult::Absent(_) => unreached(),
            EnvEnumResult::IncorrectCast(_) => unreached(),
        }
    }
}

/// What is said of a key that the environment does not hold.
pub open spec fn absent_message(key: Seq<char>) -> Seq<char> {
    "No "@ + key + " in .env file"@
}

/// What is said of a key whose value cannot be read as the type asked for.
pub open spec fn cast_message(key: Seq<char>, target_type: Seq<char>) -> Seq<char> {
    "Cannot cast "@ + key + " into "@ + target_type
}

/// `No <key> in .env file`
pub fn absent_message_for(key: &str) -> (message: String)
    ensures
        message@ == absent_message(key@),
{
    let mut message = String::from_str("No ");
    message.append(key);
    message.append(" in .env file");
    message
}

/// `Cannot cast <key> into <type>`
pub fn cast_message_for(key: &str, target_type: &str) -> (message: String)
    ensures
        message@ == cast_message(key@, target_type@),
{
    let mut message = String::from_str("Cannot cast ");
    message.append(key);
    message.append(" into ");
    message.append(target_type);
    message
}

} // verus!
