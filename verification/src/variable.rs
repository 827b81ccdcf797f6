//! One variable of a grouping: its key, and what to make of the answer
//! that the environment gave for that key.
//!
//! Reading the environment is left to the caller, who hands the answer in:
//! `Some` with the value found under the key, `None` where the key is not
//! set.

use vstd::prelude::*;
use vstd::string::*;
use crate::env_errors::{
    absent_message, absent_message_for, cast_message, cast_message_for, EnvEnumResult,
    InvalidIdentifier,
};
use crate::key_builder::{create_env_string, key_of};

verus! {

/// Get the value of the variable `key` from what the environment holds
/// under it: the value, or that the key is not there.
pub fn get_value(key: &str, found: Option<String>) -> (value: EnvEnumResult<String>)
    ensures
        match found {
            Some(v) => value == EnvEnumResult::Present(v),
            None => value matches EnvEnumResult::Absent(message) && message@ == absent_message(
                key@,
            ),
        },
{
    match found {
        Some(v) => EnvEnumResult::Present(v),
        None => EnvEnumResult::Absent(absent_message_for(key)),
    }
}

/// What the value of the variable `key` is once it has been read as a `T`:
/// the value read, or that it cannot be read as `target_type`.
pub fn judge_cast<T: Clone>(key: &str, target_type: &str, parsed: Option<T>) -> (value:
    EnvEnumResult<T>)
    ensures
        match parsed {
            Some(t) => value == EnvEnumResult::Present(t),
            None => value matches EnvEnumResult::IncorrectCast(message) && message@
                == cast_message(key@, target_type@),
        },
{
    match parsed {
        Some(t) => EnvEnumResult::Present(t),
        None => EnvEnumResult::IncorrectCast(cast_message_for(key, target_type)),
    }
}

/// Get the value of the variable `key` and casted it into the type T.
/// Where the key is not there `parse` is not asked; where it is, `parse` is
/// asked once, with the value found, and decides between the value read and
/// the failure to read it.
pub fn get_casted_value<T: Clone, F: Fn(&str) -> Option<T>>(
    key: &str,
    target_type: &str,
    found: Option<String>,
    parse: F,
) -> (value: EnvEnumResult<T>)
    requires
        forall|text: &str| found matches Some(v) && text@ == v@ ==> call_requires(parse, (text,)),
    ensures
        match found {
            None => value matches EnvEnumResult::Absent(message) && message@ == absent_message(
                key@,
            ),
            Some(v) => exists|text: &str, parsed: Option<T>|
                text@ == v@ && #[trigger] call_ensures(parse, (text,), parsed) && (match parsed {
                    Some(t) => value == EnvEnumResult::Present(t),
                    None => value matches EnvEnumResult::IncorrectCast(message) && message@
                        == cast_message(key@, target_type@),
                }),
        },
{
    match found {
        None => EnvEnumResult::Absent(absent_message_for(key)),
        Some(v) => {
            let parsed = parse(v.as_str());
            judge_cast(key, target_type, parsed)
        },
    }
}

/// A member of a grouping, together with the key that the two identifiers
/// give.
#[derive(Debug, PartialEq, Eq)]
pub struct EnvVar {
    grouping: String,
    member: String,
    key: String,
}

impl EnvVar {
    /// The identifier of the grouping.
    pub closed spec fn grouping(&self) -> Seq<char> {
        self.grouping@
    }

    /// The identifier of the member.
    pub closed spec fn member(&self) -> Seq<char> {
        self.member@
    }

    /// The key.
    pub closed spec fn key(&self) -> Seq<char> {
        self.key@
    }

    /// The key is the one that the grouping and the member give.
    pub open spec fn wf(&self) -> bool {
        key_of(self.grouping(), self.member()) == Some(self.key())
    }

    #[verifier::type_invariant]
    spec fn key_is_built(&self) -> bool {
        self.wf()
    }

    /// The variable `member` of `grouping`. An identifier that holds no word
    /// is refused.
    pub fn new(grouping: &str, member: &str) -> (var: Result<EnvVar, InvalidIdentifier>)
        ensures
            match var {
                Ok(v) => v.wf() && v.grouping() == grouping@ && v.member() == member@,
                Err(_) => key_of(grouping@, member@) is None,
            },
    {
        match create_env_string(grouping, member) {
            Ok(key) => Ok(
                EnvVar { grouping: grouping.to_owned(), member: member.to_owned(), key },
            ),
            Err(e) => Err(e),
        }
    }

    /// Get the key string of this variable.
    pub fn get_key(&self) -> (key: String)
        ensures
            key@ == self.key(),
            key_of(self.grouping(), self.member()) == Some(key@),
    {
        proof {
            use_type_invariant(self);
        }
        self.key.clone()
    }

    /// The identifier of the member.
    pub fn get_member(&self) -> (member: &str)
        ensures
            member@ == self.member(),
    {
        self.member.as_str()
    }

    /// The identifier of the grouping.
    pub fn get_grouping(&self) -> (grouping: &str)
        ensures
            grouping@ == self.grouping(),
    {
        self.grouping.as_str()
    }

    /// Whether `key` is the key of this variable.
    pub fn has_key(&self, key: &str) -> (same: bool)
        ensures
            same == (self.key() == key@),
    {
        let asked = key.to_owned();
        self.key == asked
    }

    /// Get the value related to the variable from what the environment
    /// holds under its key: the value, or that the key is not there.
    pub fn get_value(&self, found: Option<String>) -> (value: EnvEnumResult<String>)
        ensures
            match found {
                Some(v) => value == EnvEnumResult::Present(v),
                None => value matches EnvEnumResult::Absent(message) && message@
                    == absent_message(self.key()),
            },
    {
        get_value(self.key.as_str(), found)
    }

    /// Get the value related to the variable and casted it into the type T.
    /// Where the key is not there `parse` is not asked; where it is, `parse`
    /// is asked once, with the value found, and decides between the value
    /// read and the failure to read it.
    pub fn get_casted_value<T: Clone, F: Fn(&str) -> Option<T>>(
        &self,
        target_type: &str,
        found: Option<String>,
        parse: F,
    ) -> (value: EnvEnumResult<T>)
        requires
            forall|text: &str|
                found matches Some(v) && text@ == v@ ==> call_requires(parse, (text,)),
        ensures
            match found {
                None => value matches EnvEnumResult::Absent(message) && message@
                    == absent_message(self.key()),
                Some(v) => exists|text: &str, parsed: Option<T>|
                    text@ == v@ && #[trigger] call_ensures(parse, (text,), parsed) && (match parsed
                    {
                        Some(t) => value == EnvEnumResult::Present(t),
                        None => value matches EnvEnumResult::IncorrectCast(message) && message@
                            == cast_message(self.key(), target_type@),
                    }),
            },
    {
        get_casted_value(self.key.as_str(), target_type, found, parse)
    }
}

} // verus!
