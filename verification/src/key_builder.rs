//! Building the key of a variable from its grouping and its member.
//!
//! Both identifiers are cut into words. A last word `Env` of the grouping is
//! dropped, once. Every word is put in uppercase, the words of each
//! identifier are joined by `_`, and so are the two results:
//! `LocationsEnv` and `Folder` give `LOCATIONS_FOLDER`.

use vstd::prelude::*;
use vstd::string::*;
use crate::chars::{append_uppercased, uppercased};
use crate::env_errors::InvalidIdentifier;
use crate::tokenizer::{get_env_strings, stripped, tokens};

verus! {

/// The word that a grouping's identifier ends in by convention, and that
/// its keys leave out.
pub open spec fn env_word() -> Seq<char> {
    seq!['E', 'n', 'v']
}

/// The words without a last word `Env`. Only one such word is dropped.
pub open spec fn without_env_suffix(words: Seq<Seq<char>>) -> Seq<Seq<char>> {
    if words.len() > 0 && words.last() == env_word() {
        words.drop_last()
    } else {
        words
    }
}

/// The words in uppercase, joined by `_`.
pub open spec fn joined_upper(words: Seq<Seq<char>>) -> Seq<char>
    decreases words.len(),
{
    if words.len() == 0 {
        Seq::empty()
    } else if words.len() == 1 {
        uppercased(words[0])
    } else {
        joined_upper(words.drop_last()) + seq!['_'] + uppercased(words.last())
    }
}

/// The part of a key that a grouping gives.
pub open spec fn grouping_part(grouping: Seq<char>) -> Seq<char> {
    joined_upper(without_env_suffix(tokens(grouping)))
}

/// The part of a key that a member gives.
pub open spec fn member_part(member: Seq<char>) -> Seq<char> {
    joined_upper(tokens(member))
}

/// The key of `member` in `grouping`, where both identifiers hold a word.
pub open spec fn key_of(grouping: Seq<char>, member: Seq<char>) -> Option<Seq<char>> {
    if stripped(grouping).len() == 0 || stripped(member).len() == 0 {
        None
    } else {
        Some(grouping_part(grouping) + seq!['_'] + member_part(member))
    }
}

/// Drops a last word `Env`, once.
pub fn strip_env_suffix(words: &mut Vec<String>)
    ensures
        final(words).deep_view() == without_env_suffix(old(words).deep_view()),
{
    let n: usize = words.len();
    if n > 0 {
        let suffix = String::from_str("Env");
        proof {
            reveal_strlit("Env");
            assert(suffix@ == env_word());
        }
        if words[n - 1] == suffix {
            words.pop();
        }
    }
}

/// The words in uppercase, joined by `_`.
pub fn join_uppercased(words: &Vec<String>) -> (joined: String)
    ensures
        joined@ == joined_upper(words.deep_view()),
{
    let mut out = String::new();
    let mut i: usize = 0;
    while i < words.len()
        invariant
            i <= words.len(),
            out@ == joined_upper(words.deep_view().take(i as int)),
        decreases words.len() - i,
    {
        proof {
            let all = words.deep_view();
            assert(all.take(i + 1).drop_last() == all.take(i as int));
        }
        if i > 0 {
            out.push('_');
        }
        append_uppercased(&mut out, words[i].as_str());
        i = i + 1;
    }
    assert(words.deep_view().take(words.len() as int) == words.deep_view());
    out
}

/// Create a full capitalize, seperated by underscored, without suffix Env,
/// and merge name_value: `"LolEnv"` and `"AValue"` give `"LOL_A_VALUE"`.
/// An identifier that holds no word is refused.
pub fn create_env_string(enum_name: &str, enum_value: &str) -> (key: Result<
    String,
    InvalidIdentifier,
>)
    ensures
        match key {
            Ok(k) => key_of(enum_name@, enum_value@) == Some(k@),
            Err(_) => key_of(enum_name@, enum_value@) is None,
        },
{
    let values = match get_env_strings(enum_value) {
        Ok(list) => list,
        Err(e) => { return Err(e); },
    };
    let mut name = match get_env_strings(enum_name) {
        Ok(list) => list,
        Err(e) => { return Err(e); },
    };
    strip_env_suffix(&mut name);
    let mut key = join_uppercased(&name);
    key.push('_');
    let member = join_uppercased(&values);
    key.append(member.as_str());
    Ok(key)
}

} // verus!
