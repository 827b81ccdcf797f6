//! What holds of the keys of identifiers that are written with ASCII
//! letters, digits and underscores.

use vstd::prelude::*;
use crate::chars::{
    ascii_upper, is_ascii, is_ascii_letter, is_ascii_upper, is_upper, upper_of, uppercased,
};
use crate::key_builder::{
    env_word, grouping_part, joined_upper, key_of, member_part, without_env_suffix,
};
use crate::tokenizer::{
    lemma_split_words_is_word_split, lemma_trimmed_is_subrange, split_words, stripped, tokens,
    trimmed, without_underscores,
};

verus! {

/// `0` to `9`.
pub open spec fn is_ascii_digit(c: char) -> bool {
    '0' <= c && c <= '9'
}

/// An ASCII letter or digit.
pub open spec fn is_ascii_alphanumeric(c: char) -> bool {
    is_ascii_letter(c) || is_ascii_digit(c)
}

/// An identifier is written with ASCII letters, digits and underscores.
pub open spec fn is_identifier(s: Seq<char>) -> bool {
    forall|i: int| 0 <= i < s.len() ==> is_ascii_alphanumeric(#[trigger] s[i]) || s[i] == '_'
}

/// A text of ASCII letters and digits.
pub open spec fn is_alphanumeric(s: Seq<char>) -> bool {
    forall|i: int| 0 <= i < s.len() ==> is_ascii_alphanumeric(#[trigger] s[i])
}

/// A text of uppercase ASCII letters, digits and underscores.
pub open spec fn is_key_text(s: Seq<char>) -> bool {
    forall|i: int|
        0 <= i < s.len() ==> is_ascii_upper(#[trigger] s[i]) || is_ascii_digit(s[i]) || s[i]
            == '_'
}

/// The key part of a text, character by character: each character in
/// uppercase, with `_` before every uppercase letter but the first character.
pub open spec fn snake(t: Seq<char>) -> Seq<char>
    decreases t.len(),
{
    if t.len() == 0 {
        Seq::empty()
    } else if t.len() == 1 {
        upper_of(t[0])
    } else if is_upper(t.last()) {
        snake(t.drop_last()) + seq!['_'] + upper_of(t.last())
    } else {
        snake(t.drop_last()) + upper_of(t.last())
    }
}

/// `t` with its first character in uppercase.
pub open spec fn capitalized(t: Seq<char>) -> Seq<char> {
    if t.len() == 0 {
        t
    } else {
        t.update(0, ascii_upper(t[0]))
    }
}

/// What tells the keys of two identifiers apart: the identifier without
/// its underscores and with its first character in uppercase.
pub open spec fn canonical(raw: Seq<char>) -> Seq<char> {
    capitalized(stripped(raw))
}

/// Nothing is trimmed from an identifier.
pub proof fn lemma_identifier_is_trimmed(s: Seq<char>)
    requires
        is_identifier(s),
    ensures
        trimmed(s) == s,
{
    // an identifier neither begins nor ends with whitespace
    lemma_trimmed_is_subrange(s, 0, s.len() as int);
}

/// Without its underscores an identifier holds letters and digits only.
pub proof fn lemma_identifier_without_underscores(s: Seq<char>)
    requires
        is_identifier(s),
    ensures
        is_alphanumeric(without_underscores(s)),
    decreases s.len(),
{
    if s.len() > 0 {
        assert(is_identifier(s.drop_last()));
        lemma_identifier_without_underscores(s.drop_last());
    }
}

/// The uppercase form of a text grows by that of the character added.
pub proof fn lemma_uppercased_push(s: Seq<char>, c: char)
    ensures
        uppercased(s.push(c)) == uppercased(s) + upper_of(c),
{
    assert(s.push(c).drop_last() == s);
}

/// Joining the words of a text in uppercase gives its key part character
/// by character.
pub proof fn lemma_joined_upper_is_snake(t: Seq<char>)
    ensures
        joined_upper(split_words(t)) == snake(t),
    decreases t.len(),
{
    if t.len() > 0 {
        let init = t.drop_last();
        let c = t.last();
        let before = split_words(init);
        let words = split_words(t);
        lemma_joined_upper_is_snake(init);
        lemma_split_words_is_word_split(init);
        if before.len() == 0 || is_upper(c) {
            assert(words.drop_last() == before);
            lemma_uppercased_push(Seq::empty(), c);
        } else {
            lemma_uppercased_push(before.last(), c);
            assert(words.drop_last() == before.drop_last());
        }
    }
}

/// The key part of a text of letters and digits: it is a key text, it is as
/// long as the text at least, it ends in the uppercase form of the last
/// character, and `_` stands before that character where it is an uppercase
/// letter and only there.
pub proof fn lemma_snake_shape(t: Seq<char>)
    requires
        is_alphanumeric(t),
    ensures
        is_key_text(snake(t)),
        snake(t).len() >= t.len(),
        t.len() > 0 ==> snake(t).last() == ascii_upper(t.last()) && snake(t).last() != '_',
        t.len() == 1 ==> snake(t).len() == 1,
        t.len() > 1 ==> (snake(t)[snake(t).len() - 2] == '_' <==> is_upper(t.last())),
        t.len() > 1 && is_upper(t.last()) ==> snake(t) == snake(t.drop_last()) + seq![
            '_',
            t.last(),
        ],
        t.len() > 1 && !is_upper(t.last()) ==> snake(t) == snake(t.drop_last()) + seq![
            ascii_upper(t.last()),
        ],
    decreases t.len(),
{
    if t.len() > 0 {
        assert(is_alphanumeric(t.drop_last()));
        lemma_snake_shape(t.drop_last());
    }
}

/// The first character's case does not show in the key part.
pub proof fn lemma_snake_of_capitalized(t: Seq<char>)
    requires
        t.len() > 0 ==> is_ascii(t[0]),
    ensures
        snake(capitalized(t)) == snake(t),
    decreases t.len(),
{
    if t.len() > 1 {
        let init = t.drop_last();
        lemma_snake_of_capitalized(init);
        assert(capitalized(t).drop_last() == capitalized(init));
    }
}

/// Two texts of letters and digits with one key part are one text, but for
/// the case of the first character.
pub proof fn lemma_snake_is_injective(t1: Seq<char>, t2: Seq<char>)
    requires
        is_alphanumeric(t1),
        is_alphanumeric(t2),
        snake(t1) == snake(t2),
    ensures
        capitalized(t1) == capitalized(t2),
    decreases t1.len(),
{
    lemma_snake_shape(t1);
    lemma_snake_shape(t2);
    if t1.len() > 1 && t2.len() > 1 {
        // the key parts end alike, so the texts end in one character, and
        // what stands before it has one key part
        let i1 = t1.drop_last();
        let i2 = t2.drop_last();
        let a = t1.last();
        assert(is_alphanumeric(i1));
        assert(is_alphanumeric(i2));
        let tail = if is_upper(a) {
            seq!['_', a]
        } else {
            seq![ascii_upper(a)]
        };
        assert(snake(i1) == snake(t1).take(snake(t1).len() - tail.len()));
        assert(snake(i2) == snake(t2).take(snake(t2).len() - tail.len()));
        lemma_snake_is_injective(i1, i2);
        assert(capitalized(t2) == capitalized(i2).push(a));
    }
}

/// The member part of an identifier is the key part of what is left of it
/// without its underscores, a text of letters and digits.
pub proof fn lemma_member_part_of_identifier(m: Seq<char>)
    requires
        is_identifier(m),
    ensures
        stripped(m) == without_underscores(m),
        is_alphanumeric(stripped(m)),
        member_part(m) == snake(stripped(m)),
{
    lemma_identifier_is_trimmed(m);
    lemma_identifier_without_underscores(m);
    lemma_joined_upper_is_snake(stripped(m));
}

/// In one grouping two identifiers have the same key exactly where they are
/// the same once their underscores are gone and their first character is in
/// uppercase: `AB` and `A_B` share a key, and so do `ab` and `Ab`.
pub proof fn lemma_same_key_same_canonical(g: Seq<char>, m1: Seq<char>, m2: Seq<char>)
    requires
        stripped(g).len() > 0,
        is_identifier(m1),
        is_identifier(m2),
    ensures
        key_of(g, m1) == key_of(g, m2) <==> canonical(m1) == canonical(m2),
{
    let t1 = stripped(m1);
    let t2 = stripped(m2);
    lemma_member_part_of_identifier(m1);
    lemma_member_part_of_identifier(m2);
    lemma_snake_shape(t1);
    lemma_snake_shape(t2);
    let head = grouping_part(g) + seq!['_'];
    if key_of(g, m1) == key_of(g, m2) {
        if t1.len() == 0 || t2.len() == 0 {
            assert(t1 == t2);
        } else {
            assert(snake(t1) == (head + snake(t1)).skip(head.len() as int));
            assert(snake(t2) == (head + snake(t2)).skip(head.len() as int));
            lemma_snake_is_injective(t1, t2);
        }
    }
    if canonical(m1) == canonical(m2) {
        if t1.len() > 0 {
            lemma_snake_of_capitalized(t1);
            lemma_snake_of_capitalized(t2);
        }
    }
}

/// Identifiers that differ once their underscores are gone and their first
/// character is in uppercase have keys that differ.
pub proof fn lemma_distinct_members_distinct_keys(g: Seq<char>, m1: Seq<char>, m2: Seq<char>)
    requires
        stripped(g).len() > 0,
        is_identifier(m1),
        is_identifier(m2),
        canonical(m1) != canonical(m2),
    ensures
        key_of(g, m1) != key_of(g, m2),
{
    lemma_same_key_same_canonical(g, m1, m2);
}

/// Every word is a text of letters and digits.
pub open spec fn are_alphanumeric(words: Seq<Seq<char>>) -> bool {
    forall|k: int| 0 <= k < words.len() ==> is_alphanumeric(#[trigger] words[k])
}

/// The words of a text of letters and digits are such texts.
pub proof fn lemma_words_are_alphanumeric(t: Seq<char>)
    requires
        is_alphanumeric(t),
    ensures
        are_alphanumeric(split_words(t)),
    decreases t.len(),
{
    if t.len() > 0 {
        let init = t.drop_last();
        let words = split_words(t);
        assert(is_alphanumeric(init));
        lemma_words_are_alphanumeric(init);
        assert forall|k: int| 0 <= k < words.len() implies is_alphanumeric(
            #[trigger] words[k],
        ) by {
            assert forall|j: int| 0 <= j < words[k].len() implies is_ascii_alphanumeric(
                #[trigger] words[k][j],
            ) by {}
        }
    }
}

/// In uppercase a text of letters and digits is a key text of the same
/// length.
pub proof fn lemma_uppercased_alphanumeric(w: Seq<char>)
    requires
        is_alphanumeric(w),
    ensures
        is_key_text(uppercased(w)),
        uppercased(w).len() == w.len(),
    decreases w.len(),
{
    if w.len() > 0 {
        assert(is_alphanumeric(w.drop_last()));
        lemma_uppercased_alphanumeric(w.drop_last());
    }
}

/// Words of letters and digits join into a key text.
pub proof fn lemma_joined_upper_is_key_text(words: Seq<Seq<char>>)
    requires
        are_alphanumeric(words),
    ensures
        is_key_text(joined_upper(words)),
    decreases words.len(),
{
    if words.len() > 0 {
        let init = words.drop_last();
        assert(are_alphanumeric(init));
        lemma_joined_upper_is_key_text(init);
        lemma_uppercased_alphanumeric(words.last());
        lemma_uppercased_alphanumeric(words[0]);
    }
}

/// The key of two identifiers is there unless one of them holds nothing
/// but underscores, and it is written with uppercase letters, digits and
/// underscores.
pub proof fn lemma_key_of_identifiers(g: Seq<char>, m: Seq<char>)
    requires
        is_identifier(g),
        is_identifier(m),
    ensures
        key_of(g, m) is None <==> without_underscores(g).len() == 0 || without_underscores(
            m,
        ).len() == 0,
        key_of(g, m) matches Some(k) ==> is_key_text(k),
{
    lemma_identifier_is_trimmed(g);
    lemma_identifier_is_trimmed(m);
    lemma_identifier_without_underscores(g);
    lemma_identifier_without_underscores(m);
    lemma_words_are_alphanumeric(stripped(g));
    lemma_words_are_alphanumeric(stripped(m));
    let kept = without_env_suffix(tokens(g));
    assert(are_alphanumeric(kept));
    lemma_joined_upper_is_key_text(kept);
    lemma_joined_upper_is_key_text(tokens(m));
}

/// A grouping whose last word is `Env` gives its key the words before that
/// one: the word is dropped, and no other, whatever the word before it is.
pub proof fn lemma_env_suffix_dropped_once(g: Seq<char>, m: Seq<char>)
    requires
        stripped(g).len() > 0,
        stripped(m).len() > 0,
        tokens(g).last() == env_word(),
    ensures
        key_of(g, m) == Some(joined_upper(tokens(g).drop_last()) + seq!['_'] + member_part(m)),
{
    lemma_split_words_is_word_split(stripped(g));
}

/// A grouping whose last word is not `Env` gives its key all its words.
pub proof fn lemma_other_suffix_kept(g: Seq<char>, m: Seq<char>)
    requires
        stripped(g).len() > 0,
        stripped(m).len() > 0,
        tokens(g).last() != env_word(),
    ensures
        key_of(g, m) == Some(joined_upper(tokens(g)) + seq!['_'] + member_part(m)),
{
}

/// A character added at the end stays unless it is an underscore.
pub proof fn lemma_without_underscores_push(s: Seq<char>, c: char)
    ensures
        without_underscores(s.push(c)) == if c == '_' {
            without_underscores(s)
        } else {
            without_underscores(s).push(c)
        },
{
    assert(s.push(c).drop_last() == s);
}

/// A grouping named with or without the suffix `Env` gives the same keys:
/// `LocationsEnv` and `Locations` both give `LOCATIONS_FOLDER` for `Folder`.
pub proof fn lemma_env_suffix_is_left_out(g: Seq<char>, m: Seq<char>)
    requires
        is_identifier(g),
        stripped(g).len() > 0,
        tokens(g).last() != env_word(),
    ensures
        key_of(g + env_word(), m) == key_of(g, m),
{
    let long = g + env_word();
    let g1 = g.push('E');
    let g2 = g1.push('n');
    let g3 = g2.push('v');
    assert(long == g3);
    assert(is_identifier(long));
    lemma_identifier_is_trimmed(g);
    lemma_identifier_is_trimmed(long);
    lemma_without_underscores_push(g, 'E');
    lemma_without_underscores_push(g1, 'n');
    lemma_without_underscores_push(g2, 'v');
    let t = stripped(g);
    let t1 = t.push('E');
    let t2 = t1.push('n');
    let t3 = t2.push('v');
    lemma_split_words_is_word_split(t);
    let w = split_words(t);
    assert(t1.drop_last() == t);
    assert(t2.drop_last() == t1);
    assert(split_words(t2) == w.push(seq!['E', 'n'])) by {
        let w1 = split_words(t1);
        assert(w1.last().push('n') == seq!['E', 'n']);
    }
    assert(t3.drop_last() == t2);
    assert(split_words(t3) == w.push(env_word())) by {
        let w2 = split_words(t2);
        assert(w2.last().push('v') == env_word());
    }
    assert(w.push(env_word()).drop_last() == w);
}

} // verus!
