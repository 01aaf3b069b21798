//! How an exchange decides whether a binding lets a message through.

use vstd::prelude::*;
use crate::text::{same_chars, same_name};

verus! {

/// The kinds of exchange, each with its own routing rule.
#[derive(Clone, Copy, Debug, PartialEq, Eq, Structural)]
pub enum ExchangeKind {
    /// Every bound queue gets every message; the routing key is ignored.
    Fanout,
    /// A bound queue gets the messages whose routing key equals its binding key.
    Direct,
    /// A bound queue gets the messages whose routing key matches its binding
    /// pattern, word by word.
    Topic,
}

/// The words of `s` between its dots; a text with `n` dots has `n + 1` words,
/// some of them possibly empty.
pub open spec fn split_dots(s: Seq<char>) -> Seq<Seq<char>>
    decreases s.len(),
{
    if s.len() == 0 {
        seq![Seq::empty()]
    } else if s.last() == '.' {
        split_dots(s.drop_last()).push(Seq::empty())
    } else {
        let words = split_dots(s.drop_last());
        words.drop_last().push(words.last().push(s.last()))
    }
}

/// The words of a routing key or of a binding pattern. The empty text has no
/// words; any other text has the words between its dots.
pub open spec fn topic_words(s: Seq<char>) -> Seq<Seq<char>> {
    if s.len() == 0 {
        Seq::empty()
    } else {
        split_dots(s)
    }
}

/// The pattern word `*`, which stands for exactly one word.
pub open spec fn is_star(word: Seq<char>) -> bool {
    word.len() == 1 && word[0] == '*'
}

/// The pattern word `#`, which stands for any number of words, none included.
pub open spec fn is_hash(word: Seq<char>) -> bool {
    word.len() == 1 && word[0] == '#'
}

/// Whether the words of a pattern match the words of a key.
pub open spec fn words_match(pattern: Seq<Seq<char>>, key: Seq<Seq<char>>) -> bool
    decreases pattern.len(), key.len(),
{
    if pattern.len() == 0 {
        key.len() == 0
    } else if is_hash(pattern[0]) {
        words_match(pattern.skip(1), key) || (key.len() > 0 && words_match(pattern, key.skip(1)))
    } else if key.len() == 0 {
        false
    } else {
        (is_star(pattern[0]) || pattern[0] == key[0]) && words_match(pattern.skip(1), key.skip(1))
    }
}

/// Whether a topic pattern matches a routing key.
pub open spec fn topic_match(pattern: Seq<char>, key: Seq<char>) -> bool {
    words_match(topic_words(pattern), topic_words(key))
}

/// Whether a binding with `pattern` on an exchange of `kind` lets a message
/// with routing key `key` through.
pub open spec fn binding_match(kind: ExchangeKind, pattern: Seq<char>, key: Seq<char>) -> bool {
    match kind {
        ExchangeKind::Fanout => true,
        ExchangeKind::Direct => pattern == key,
        ExchangeKind::Topic => topic_match(pattern, key),
    }
}

/// The words that a vector of words stands for.
pub open spec fn words_view(words: Seq<Vec<char>>) -> Seq<Seq<char>> {
    Seq::new(words.len(), |i: int| words[i]@)
}

fn word_is(word: &Vec<char>, c: char) -> (r: bool)
    ensures
        r == (word@.len() == 1 && word@[0] == c),
{
    word.len() == 1 && word[0] == c
}

/// Splits a routing key or a binding pattern into its words.
pub fn split_words(text: &str) -> (words: Vec<Vec<char>>)
    ensures
        words_view(words@) == topic_words(text@),
{
    broadcast use vstd::string::group_string_axioms;

    let mut words: Vec<Vec<char>> = Vec::new();
    let mut current: Vec<char> = Vec::new();
    let mut any: bool = false;
    for c in it: text.chars()
        invariant
            it.seq() == text@,
            any == (it.index() > 0),
            split_dots(text@.take(it.index())) == words_view(words@).push(current@),
    {
        let ghost before = text@.take(it.index());
        let ghost after = text@.take(it.index() + 1);
        assert(after.drop_last() =~= before);
        assert(after.last() == c);
        let ghost done = words_view(words@);
        let ghost word = current@;
        assert(done.push(word).drop_last() =~= done);
        if c == '.' {
            words.push(current);
            current = Vec::new();
            assert(words_view(words@) =~= done.push(word));
        } else {
            current.push(c);
        }
        any = true;
    }
    assert(text@.take(text@.len() as int) =~= text@);
    if any {
        let ghost done = words_view(words@);
        words.push(current);
        assert(words_view(words@) =~= done.push(current@));
    }
    words
}


/// Whether the words of a pattern match the words of a key.
pub fn match_words(pattern: &Vec<Vec<char>>, key: &Vec<Vec<char>>) -> (r: bool)
    ensures
        r == words_match(words_view(pattern@), words_view(key@)),
{
    let ghost p = words_view(pattern@);
    let ghost k = words_view(key@);
    let plen: usize = pattern.len();
    let klen: usize = key.len();
    // below[j] says whether the pattern from word i on matches the key from word j on
    let mut below: Vec<bool> = Vec::new();
    let mut j: usize = 0;
    while j < klen
        invariant
            j <= klen,
            klen == k.len(),
            plen == p.len(),
            below@.len() == j,
            forall|t: int| 0 <= t < j ==> below@[t] == words_match(p.skip(plen as int), k.skip(t)),
        decreases klen - j,
    {
        assert(p.skip(plen as int).len() == 0);
        assert(k.skip(j as int).len() > 0);
        below.push(false);
        j = j + 1;
    }
    below.push(true);
    assert(p.skip(plen as int).len() == 0);
    assert(k.skip(klen as int).len() == 0);
    let mut i: usize = plen;
    while i > 0
        invariant
            i <= plen,
            plen == pattern@.len(),
            klen == key@.len(),
            p == words_view(pattern@),
            k == words_view(key@),
            below@.len() == klen + 1,
            forall|t: int| 0 <= t <= klen ==> below@[t] == words_match(p.skip(i as int), k.skip(t)),
        decreases i,
    {
        i = i - 1;
        let word: &Vec<char> = &pattern[i];
        let hash: bool = word_is(word, '#');
        let star: bool = word_is(word, '*');
        let ghost rest = p.skip(i as int);
        assert(rest.skip(1) =~= p.skip(i + 1));
        assert(rest[0] == word@);
        let mut row: Vec<bool> = below.clone();
        row.set(klen, hash && below[klen]);
        assert(k.skip(klen as int).len() == 0);
        let mut j: usize = klen;
        while j > 0
            invariant
                j <= klen,
                i < plen,
                plen == pattern@.len(),
                klen == key@.len(),
                p == words_view(pattern@),
                k == words_view(key@),
                rest == p.skip(i as int),
                rest.skip(1) == p.skip(i + 1),
                rest.len() > 0,
                rest[0] == word@,
                hash == is_hash(word@),
                star == is_star(word@),
                below@.len() == klen + 1,
                row@.len() == klen + 1,
                forall|t: int|
                    0 <= t <= klen ==> below@[t] == words_match(p.skip(i + 1), k.skip(t)),
                forall|t: int| j <= t <= klen ==> row@[t] == words_match(rest, k.skip(t)),
            decreases j,
        {
            j = j - 1;
            let ghost tail = k.skip(j as int);
            assert(tail.skip(1) =~= k.skip(j + 1));
            assert(tail[0] == key@[j as int]@);
            let here: bool = if hash {
                below[j] || row[j + 1]
            } else {
                (star || same_chars(word, &key[j])) && below[j + 1]
            };
            row.set(j, here);
        }
        below = row;
    }
    assert(p.skip(0) =~= p);
    assert(k.skip(0) =~= k);
    below[0]
}

/// Whether a topic pattern matches a routing key. Both are split into words at
/// their dots; `*` in the pattern stands for exactly one word and `#` for any
/// number of words.
pub fn topic_matches(pattern: &str, key: &str) -> (r: bool)
    ensures
        r == topic_match(pattern@, key@),
{
    let pattern_words = split_words(pattern);
    let key_words = split_words(key);
    match_words(&pattern_words, &key_words)
}


/// Whether a binding with `pattern` on an exchange of `kind` lets a message
/// with routing key `key` through.
pub fn binding_matches(kind: ExchangeKind, pattern: &str, key: &str) -> (r: bool)
    ensures
        r == binding_match(kind, pattern@, key@),
{
    match kind {
        ExchangeKind::Fanout => true,
        ExchangeKind::Direct => same_name(pattern, key),
        ExchangeKind::Topic => topic_matches(pattern, key),
    }
}

/// Whether a pattern word is an ordinary word, neither `*` nor `#`.
pub open spec fn is_literal(word: Seq<char>) -> bool {
    !is_star(word) && !is_hash(word)
}

/// The pattern `#` alone matches every routing key.
pub proof fn lemma_hash_matches_all(key: Seq<Seq<char>>)
    ensures
        words_match(seq![seq!['#']], key),
    decreases key.len(),
{
    let pattern = seq![seq!['#']];
    assert(is_hash(pattern[0]));
    if key.len() == 0 {
        assert(pattern.skip(1).len() == 0);
        assert(words_match(pattern.skip(1), key));
    } else {
        lemma_hash_matches_all(key.skip(1));
    }
}

/// A pattern without `*` and `#` matches its own words and no others: on such
/// patterns a topic exchange routes as a direct exchange does.
pub proof fn lemma_literal_pattern(pattern: Seq<Seq<char>>, key: Seq<Seq<char>>)
    requires
        forall|i: int| 0 <= i < pattern.len() ==> is_literal(#[trigger] pattern[i]),
    ensures
        words_match(pattern, key) <==> pattern == key,
    decreases pattern.len(),
{
    if pattern.len() == 0 {
        assert(key.len() == 0 ==> pattern =~= key);
    } else if key.len() == 0 {
    } else {
        assert(is_literal(pattern[0]));
        assert forall|i: int| 0 <= i < pattern.skip(1).len() implies is_literal(
            #[trigger] pattern.skip(1)[i],
        ) by {
            assert(pattern.skip(1)[i] == pattern[i + 1]);
        }
        lemma_literal_pattern(pattern.skip(1), key.skip(1));
        if pattern[0] == key[0] && pattern.skip(1) == key.skip(1) {
            assert(pattern =~= key) by {
                assert(pattern.len() == key.len()) by {
                    assert(pattern.skip(1).len() == pattern.len() - 1);
                    assert(key.skip(1).len() == key.len() - 1);
                }
                assert forall|i: int| 0 <= i < pattern.len() implies pattern[i] == key[i] by {
                    if i > 0 {
                        assert(pattern[i] == pattern.skip(1)[i - 1]);
                        assert(key[i] == key.skip(1)[i - 1]);
                    }
                }
            }
        }
    }
}

/// A `*` in front of a pattern takes exactly one word off the key, whatever
/// the word is.
pub proof fn lemma_star_takes_one(rest: Seq<Seq<char>>, word: Seq<char>, key: Seq<Seq<char>>)
    ensures
        words_match(seq![seq!['*']] + rest, seq![word] + key) == words_match(rest, key),
        !words_match(seq![seq!['*']] + rest, Seq::empty()),
{
    let pattern = seq![seq!['*']] + rest;
    let full = seq![word] + key;
    assert(is_star(pattern[0]));
    assert(!is_hash(pattern[0]));
    assert(pattern.skip(1) =~= rest);
    assert(full.skip(1) =~= key);
}

/// A `#` at the end of a pattern takes every key that the words before it
/// begin: a key matches `prefix.#` exactly when it starts with a match of
/// `prefix`, for a prefix of ordinary words.
pub proof fn lemma_trailing_hash(prefix: Seq<Seq<char>>, key: Seq<Seq<char>>)
    requires
        forall|i: int| 0 <= i < prefix.len() ==> is_literal(#[trigger] prefix[i]),
    ensures
        words_match(prefix.push(seq!['#']), key) <==> (prefix.len() <= key.len() && key.take(
            prefix.len() as int,
        ) == prefix),
    decreases prefix.len(),
{
    let pattern = prefix.push(seq!['#']);
    if prefix.len() == 0 {
        assert(pattern =~= seq![seq!['#']]);
        lemma_hash_matches_all(key);
        assert(key.take(0) =~= prefix);
    } else {
        assert(pattern[0] == prefix[0]);
        assert(is_literal(prefix[0]));
        assert(pattern.skip(1) =~= prefix.skip(1).push(seq!['#']));
        if key.len() > 0 {
            assert forall|i: int| 0 <= i < prefix.skip(1).len() implies is_literal(
                #[trigger] prefix.skip(1)[i],
            ) by {
                assert(prefix.skip(1)[i] == prefix[i + 1]);
            }
            lemma_trailing_hash(prefix.skip(1), key.skip(1));
            let n = prefix.len() as int;
            if prefix.len() <= key.len() {
                assert(key.skip(1).take(n - 1) =~= key.take(n).skip(1));
                if key.take(n) == prefix {
                    assert(key[0] == key.take(n)[0]);
                } else if prefix[0] == key[0] && key.skip(1).take(n - 1) == prefix.skip(1) {
                    assert(key.take(n) =~= prefix) by {
                        assert forall|i: int| 0 <= i < n implies key.take(n)[i] == prefix[i] by {
                            if i > 0 {
                                assert(key.take(n)[i] == key.skip(1).take(n - 1)[i - 1]);
                                assert(prefix[i] == prefix.skip(1)[i - 1]);
                            }
                        }
                    }
                }
            }
        }
    }
}

} // verus!
