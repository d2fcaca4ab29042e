//! Splitting an invocation string into its whitespace-separated tokens.

use vstd::prelude::*;
use crate::text::{chars_of, is_space, is_whitespace, string_of, texts, words};

verus! {

/// The index just past the run of non-space characters of `s` that starts at `i`
/// (`i` itself where `s[i]` is a space or `i` is not an index of `s`).
pub open spec fn word_end(s: Seq<char>, i: int) -> int
    decreases s.len() - i,
{
    if 0 <= i < s.len() && !is_space(s[i]) {
        word_end(s, i + 1)
    } else {
        i
    }
}

/// The tokens of `s` that start at index `i` or later: the maximal runs of non-space
/// characters, in the order in which they stand.
pub open spec fn tokens_from(s: Seq<char>, i: int) -> Seq<Seq<char>>
    decreases s.len() - i,
{
    if i < 0 || i >= s.len() {
        Seq::empty()
    } else if is_space(s[i]) {
        tokens_from(s, i + 1)
    } else {
        proof {
            lemma_word_end(s, i + 1);
        }
        seq![s.subrange(i, word_end(s, i + 1))] + tokens_from(s, word_end(s, i + 1))
    }
}

/// The tokens of an invocation string.
pub open spec fn tokens(s: Seq<char>) -> Seq<Seq<char>> {
    tokens_from(s, 0)
}

/// A word ends at or after the index where it starts, within the string, and holds no space.
pub proof fn lemma_word_end(s: Seq<char>, i: int)
    ensures
        i <= word_end(s, i),
        0 <= i <= s.len() ==> word_end(s, i) <= s.len(),
        forall|k: int| 0 <= i <= k < word_end(s, i) ==> !is_space(#[trigger] s[k]),
        0 <= i && word_end(s, i) < s.len() ==> is_space(s[word_end(s, i)]),
    decreases s.len() - i,
{
    if 0 <= i < s.len() && !is_space(s[i]) {
        lemma_word_end(s, i + 1);
    }
}

/// The name of the command that an invocation string calls: its first token, if it has
/// one.
pub open spec fn command_of(s: Seq<char>) -> Option<Seq<char>> {
    if tokens(s).len() == 0 {
        None
    } else {
        Some(tokens(s)[0])
    }
}

/// Whether `word` can be a token: it holds at least one character, and no space.
pub open spec fn is_word(word: Seq<char>) -> bool {
    word.len() > 0 && forall|j: int| 0 <= j < word.len() ==> !is_space(#[trigger] word[j])
}

/// Every token that starts at `i` or later holds at least one character and no space.
pub proof fn lemma_tokens_from_are_words(s: Seq<char>, i: int)
    ensures
        forall|k: int| 0 <= k < tokens_from(s, i).len() ==> is_word(#[trigger] tokens_from(s, i)[k]),
    decreases s.len() - i,
{
    if i < 0 || i >= s.len() {
        assert(tokens_from(s, i).len() == 0);
    } else if is_space(s[i]) {
        lemma_tokens_from_are_words(s, i + 1);
        assert(tokens_from(s, i) == tokens_from(s, i + 1));
    } else {
        let end = word_end(s, i + 1);
        lemma_word_end(s, i + 1);
        lemma_tokens_from_are_words(s, end);
        let word = s.subrange(i, end);
        let rest = tokens_from(s, end);
        assert(tokens_from(s, i) == seq![word] + rest);
        assert forall|j: int| 0 <= j < word.len() implies !is_space(#[trigger] word[j]) by {
            assert(word[j] == s[i + j]);
        }
        assert(is_word(word));
        assert forall|k: int| 0 <= k < tokens_from(s, i).len() implies is_word(
            #[trigger] tokens_from(s, i)[k],
        ) by {
            if k == 0 {
                assert(tokens_from(s, i)[0] == word);
            } else {
                assert(tokens_from(s, i)[k] == rest[k - 1]);
            }
        }
    }
}

/// Every token of an invocation string holds at least one character and no space.
pub proof fn lemma_tokens_are_words(s: Seq<char>)
    ensures
        forall|k: int| 0 <= k < tokens(s).len() ==> is_word(#[trigger] tokens(s)[k]),
{
    lemma_tokens_from_are_words(s, 0);
}

/// Splits `chars` into its tokens.
pub fn split_words(chars: &Vec<char>) -> (out: Vec<Vec<char>>)
    ensures
        words(out@) == tokens(chars@),
{
    let n = chars.len();
    let mut out: Vec<Vec<char>> = Vec::new();
    let mut i: usize = 0;
    while i < n
        invariant
            n == chars@.len(),
            i <= n,
            tokens(chars@) == words(out@) + tokens_from(chars@, i as int),
        decreases n - i,
    {
        if is_whitespace(chars[i]) {
            i += 1;
        } else {
            let start = i;
            let mut word: Vec<char> = Vec::new();
            while i < n && !is_whitespace(chars[i])
                invariant
                    n == chars@.len(),
                    start <= i <= n,
                    word@ == chars@.subrange(start as int, i as int),
                    word_end(chars@, start as int) == word_end(chars@, i as int),
                decreases n - i,
            {
                word.push(chars[i]);
                i += 1;
            }
            let ghost before = words(out@);
            out.push(word);
            proof {
                assert(word_end(chars@, start as int) == word_end(chars@, start + 1));
                assert(words(out@) == before.push(word@));
                assert(before.push(word@) + tokens_from(chars@, i as int) == before + tokens_from(
                    chars@,
                    start as int,
                ));
            }
        }
    }
    assert(tokens_from(chars@, n as int) == Seq::<Seq<char>>::empty());
    out
}

/// The tokens of `raw`, each as a string.
pub fn tokenize(raw: &str) -> (out: Vec<String>)
    ensures
        texts(out@) == tokens(raw@),
{
    let chars = chars_of(raw);
    let split = split_words(&chars);
    let mut out: Vec<String> = Vec::new();
    let mut i: usize = 0;
    while i < split.len()
        invariant
            i <= split@.len(),
            texts(out@) == words(split@).take(i as int),
        decreases split@.len() - i,
    {
        let ghost before = texts(out@);
        let token = string_of(split[i].as_slice());
        out.push(token);
        proof {
            assert(texts(out@) == before.push(token@));
            assert(words(split@).take(i + 1) == words(split@).take(i as int).push(token@));
        }
        i += 1;
    }
    out
}

/// The name of the command that the invocation string `raw` calls: its first token.
/// `None` where `raw` holds nothing but spaces.
pub fn command_name(raw: &str) -> (name: Option<String>)
    ensures
        match name {
            Some(n) => command_of(raw@) == Some(n@),
            None => command_of(raw@) is None,
        },
{
    let chars = chars_of(raw);
    let split = split_words(&chars);
    if split.len() == 0 {
        None
    } else {
        Some(string_of(split[0].as_slice()))
    }
}

} // verus!
