//! Cutting an identifier into words.
//!
//! Whitespace around the identifier is dropped, then every underscore, and
//! what is left is cut before each uppercase letter. `"LolEnv_Ok"` becomes
//! `Lol`, `Env`, `Ok`; a run of capitals gives one word per capital.

use vstd::prelude::*;
use vstd::string::*;
use crate::chars::{char_is_space, char_is_upper, is_space, is_upper};
use crate::env_errors::InvalidIdentifier;

verus! {

/// `s` without the whitespace it begins with.
pub open spec fn trim_start(s: Seq<char>) -> Seq<char>
    decreases s.len(),
{
    if s.len() > 0 && is_space(s[0]) {
        trim_start(s.drop_first())
    } else {
        s
    }
}

/// `s` without the whitespace it ends with.
pub open spec fn trim_end(s: Seq<char>) -> Seq<char>
    decreases s.len(),
{
    if s.len() > 0 && is_space(s.last()) {
        trim_end(s.drop_last())
    } else {
        s
    }
}

/// `s` without the whitespace around it.
pub open spec fn trimmed(s: Seq<char>) -> Seq<char> {
    trim_end(trim_start(s))
}

/// `s` without its underscores.
pub open spec fn without_underscores(s: Seq<char>) -> Seq<char>
    decreases s.len(),
{
    if s.len() == 0 {
        Seq::empty()
    } else if s.last() == '_' {
        without_underscores(s.drop_last())
    } else {
        without_underscores(s.drop_last()).push(s.last())
    }
}

/// The words of `s`: a word begins at the first character and at every
/// uppercase letter, and runs up to the next beginning.
pub open spec fn split_words(s: Seq<char>) -> Seq<Seq<char>>
    decreases s.len(),
{
    if s.len() == 0 {
        Seq::empty()
    } else {
        let before = split_words(s.drop_last());
        if before.len() == 0 || is_upper(s.last()) {
            before.push(seq![s.last()])
        } else {
            before.update(before.len() - 1, before.last().push(s.last()))
        }
    }
}

/// What is left of a raw identifier once the whitespace around it and its
/// underscores are gone.
pub open spec fn stripped(raw: Seq<char>) -> Seq<char> {
    without_underscores(trimmed(raw))
}

/// The words of a raw identifier.
pub open spec fn tokens(raw: Seq<char>) -> Seq<Seq<char>> {
    split_words(stripped(raw))
}

/// All the words one after the other.
pub open spec fn concat_words(words: Seq<Seq<char>>) -> Seq<char>
    decreases words.len(),
{
    if words.len() == 0 {
        Seq::empty()
    } else {
        concat_words(words.drop_last()) + words.last()
    }
}

/// A well-formed word is not empty and holds no uppercase letter after its
/// first character.
pub open spec fn is_word(w: Seq<char>) -> bool {
    &&& w.len() > 0
    &&& forall|j: int| 0 < j < w.len() ==> !is_upper(#[trigger] w[j])
}

/// `words` cuts `s` into maximal words: they are well-formed, each one after
/// the first begins with an uppercase letter, and together they spell `s`.
pub open spec fn is_word_split(s: Seq<char>, words: Seq<Seq<char>>) -> bool {
    &&& concat_words(words) == s
    &&& forall|k: int| 0 <= k < words.len() ==> is_word(#[trigger] words[k])
    &&& forall|k: int| 0 < k < words.len() ==> is_upper((#[trigger] words[k])[0])
}

/// Whitespace up to the first other character is what `trim_start` drops.
pub proof fn lemma_trim_start_skips(s: Seq<char>, k: int)
    requires
        0 <= k <= s.len(),
        forall|j: int| 0 <= j < k ==> is_space(#[trigger] s[j]),
        k == s.len() || !is_space(s[k]),
    ensures
        trim_start(s) == s.skip(k),
    decreases k,
{
    if k > 0 {
        let rest = s.drop_first();
        assert forall|j: int| 0 <= j < k - 1 implies is_space(#[trigger] rest[j]) by {}
        lemma_trim_start_skips(rest, k - 1);
    }
}

/// Whitespace after the last other character is what `trim_end` drops.
pub proof fn lemma_trim_end_takes(s: Seq<char>, k: int)
    requires
        0 <= k <= s.len(),
        forall|j: int| k <= j < s.len() ==> is_space(#[trigger] s[j]),
        k == 0 || !is_space(s[k - 1]),
    ensures
        trim_end(s) == s.take(k),
    decreases s.len() - k,
{
    if k < s.len() {
        lemma_trim_end_takes(s.drop_last(), k);
    }
}

/// Trimming keeps the stretch from the first to the last character that is
/// no whitespace.
pub proof fn lemma_trimmed_is_subrange(s: Seq<char>, start: int, end: int)
    requires
        0 <= start <= end <= s.len(),
        forall|j: int| 0 <= j < start ==> is_space(#[trigger] s[j]),
        forall|j: int| end <= j < s.len() ==> is_space(#[trigger] s[j]),
        start == end || (!is_space(s[start]) && !is_space(s[end - 1])),
        start == end ==> end == s.len(),
    ensures
        trimmed(s) == s.subrange(start, end),
{
    lemma_trim_start_skips(s, start);
    let rest = s.skip(start);
    assert forall|j: int| end - start <= j < rest.len() implies is_space(#[trigger] rest[j]) by {}
    lemma_trim_end_takes(rest, end - start);
}

/// The words of a text are its maximal words: put together they give the
/// text back, none is empty, and a capital stands at the head of each word
/// after the first and nowhere else.
pub proof fn lemma_split_words_is_word_split(s: Seq<char>)
    ensures
        is_word_split(s, split_words(s)),
        split_words(s).len() == 0 <==> s.len() == 0,
    decreases s.len(),
{
    if s.len() > 0 {
        let init = s.drop_last();
        let before = split_words(init);
        let words = split_words(s);
        lemma_split_words_is_word_split(init);
        if before.len() == 0 || is_upper(s.last()) {
            // a word of its own
            assert(words.drop_last() == before);
            assert(init + seq![s.last()] == s);
            assert forall|k: int| 0 <= k < words.len() implies is_word(#[trigger] words[k]) by {}
        } else {
            // one more character of the last word
            let grown = before.last().push(s.last());
            assert(words.drop_last() == before.drop_last());
            assert(init.push(s.last()) == s);
            assert forall|k: int| 0 <= k < words.len() implies is_word(#[trigger] words[k]) by {
                if k == before.len() - 1 {
                    assert forall|j: int| 0 < j < grown.len() implies !is_upper(
                        #[trigger] grown[j],
                    ) by {}
                }
            }
        }
        assert forall|k: int| 0 < k < words.len() implies is_upper((#[trigger] words[k])[0]) by {}
    } else {
        assert(s == Seq::<char>::empty());
    }
}

/// A text is cut into maximal words in one way only.
pub proof fn lemma_word_split_is_unique(s: Seq<char>, words: Seq<Seq<char>>)
    requires
        is_word_split(s, words),
    ensures
        words == split_words(s),
    decreases s.len(),
{
    if words.len() > 0 {
        let w = words.last();
        let rest = words.drop_last();
        let init = s.drop_last();
        if w.len() == 1 {
            // the last word is the last character: the words before it cut the rest
            assert(init == concat_words(rest));
            assert forall|k: int| 0 <= k < rest.len() implies is_word(#[trigger] rest[k]) by {}
            assert forall|k: int| 0 < k < rest.len() implies is_upper((#[trigger] rest[k])[0]) by {}
            lemma_word_split_is_unique(init, rest);
            assert(w == seq![s.last()]);
        } else {
            // the last word without its last character still ends a cut of the rest
            let shorter = words.update(words.len() - 1, w.drop_last());
            assert(shorter.drop_last() == rest);
            assert(init == concat_words(rest) + w.drop_last());
            assert forall|k: int| 0 <= k < shorter.len() implies is_word(#[trigger] shorter[k]) by {
                if k == rest.len() {
                    assert forall|j: int| 0 < j < shorter[k].len() implies !is_upper(
                        #[trigger] shorter[k][j],
                    ) by {}
                }
            }
            assert forall|k: int| 0 < k < shorter.len() implies is_upper(
                (#[trigger] shorter[k])[0],
            ) by {}
            lemma_word_split_is_unique(init, shorter);
            assert(shorter.last().push(s.last()) == w);
        }
    }
}

/// `s` without the whitespace around it.
pub fn trim<'a>(s: &'a str) -> (r: &'a str)
    ensures
        r@ == trimmed(s@),
{
    broadcast use vstd::string::group_string_axioms;

    let n: usize = s.unicode_len();
    let mut start: usize = n;
    let mut end: usize = n;
    let mut seen = false;
    let mut i: usize = 0;
    for c in it: s.chars()
        invariant
            it.seq() == s@,
            n == s@.len(),
            i == it.index(),
            !seen ==> start == n && end == n,
            !seen ==> forall|j: int| 0 <= j < i ==> is_space(#[trigger] s@[j]),
            seen ==> start < end <= i,
            seen ==> !is_space(s@[start as int]) && !is_space(s@[end - 1]),
            seen ==> forall|j: int| 0 <= j < start ==> is_space(#[trigger] s@[j]),
            seen ==> forall|j: int| end <= j < i ==> is_space(#[trigger] s@[j]),
    {
        if !char_is_space(c) {
            if !seen {
                start = i;
                seen = true;
            }
            end = i + 1;
        }
        i = i + 1;
    }
    proof {
        lemma_trimmed_is_subrange(s@, start as int, end as int);
    }
    s.substring_char(start, end)
}

/// `s` without its underscores.
pub fn remove_underscores(s: &str) -> (r: String)
    ensures
        r@ == without_underscores(s@),
{
    broadcast use vstd::string::group_string_axioms;

    let mut out = String::new();
    for c in it: s.chars()
        invariant
            it.seq() == s@,
            out@ == without_underscores(s@.take(it.index())),
    {
        proof {
            let i = it.index();
            assert(s@.take(i + 1).drop_last() == s@.take(i));
        }
        if c != '_' {
            out.push(c);
        }
    }
    assert(s@.take(s@.len() as int) == s@);
    out
}

/// Split a string on capital letter and keep it: a word begins at the first
/// character and at every uppercase letter.
pub fn split_string_on_capitalize(value: String) -> (words: Vec<String>)
    ensures
        words.deep_view() == split_words(value@),
{
    broadcast use vstd::string::group_string_axioms;

    let mut words: Vec<String> = Vec::new();
    let mut current = String::new();
    let mut started = false;
    for c in it: value.as_str().chars()
        invariant
            it.seq() == value@,
            started == (it.index() > 0),
            !started ==> words.len() == 0,
            started ==> words.deep_view().push(current@) == split_words(
                value@.take(it.index()),
            ),
    {
        proof {
            let i = it.index();
            assert(value@.take(i + 1).drop_last() == value@.take(i));
            lemma_split_words_is_word_split(value@.take(i));
        }
        if !started || char_is_upper(c) {
            if started {
                words.push(current);
            }
            current = String::new();
            current.push(c);
            started = true;
        } else {
            current.push(c);
        }
    }
    assert(value@.take(value@.len() as int) == value@);
    if started {
        words.push(current);
    }
    words
}

/// Create a vector of all the words seperated by either underscores or
/// capital letters. An identifier that holds no word is refused.
pub fn get_env_strings(enum_value: &str) -> (words: Result<Vec<String>, InvalidIdentifier>)
    ensures
        match words {
            Ok(list) => list.deep_view() == tokens(enum_value@) && stripped(enum_value@).len()
                > 0,
            Err(_) => stripped(enum_value@).len() == 0,
        },
{
    let bare = remove_underscores(trim(enum_value));
    proof {
        lemma_split_words_is_word_split(bare@);
    }
    let words = split_string_on_capitalize(bare);
    if words.len() == 0 {
        Err(InvalidIdentifier)
    } else {
        Ok(words)
    }
}

} // verus!
