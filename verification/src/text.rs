//! Payload text: UTF-8 decoding and the decimal form of integers.

use vstd::prelude::*;
use vstd::utf8::{decode_utf8, valid_utf8};

verus! {

/// ASCII `'0'`.
pub const DIGIT_ZERO: u8 = 48;

/// ASCII `'-'`.
pub const MINUS: u8 = 45;

/// ASCII `'+'`.
pub const PLUS: u8 = 43;

/// Whether `b` is an ASCII decimal digit.
pub open spec fn is_digit(b: u8) -> bool {
    48 <= b <= 57
}

/// Whether every byte of `s` is an ASCII decimal digit.
pub open spec fn all_digits(s: Seq<u8>) -> bool {
    forall|i: int| 0 <= i < s.len() ==> is_digit(#[trigger] s[i])
}

/// The number that a run of decimal digits denotes, most significant first.
pub open spec fn digits_value(s: Seq<u8>) -> nat
    decreases s.len(),
{
    if s.len() == 0 {
        0
    } else {
        digits_value(s.drop_last()) * 10 + (s.last() - 48) as nat
    }
}

/// The integer that `s` denotes: an optional sign, `+` or `-`, then one or more
/// decimal digits and nothing else.
pub open spec fn decimal_value(s: Seq<u8>) -> Option<int> {
    if s.len() > 0 && s[0] == 45 {
        if s.len() > 1 && all_digits(s.skip(1)) {
            Some(-(digits_value(s.skip(1)) as int))
        } else {
            None
        }
    } else if s.len() > 0 && s[0] == 43 {
        if s.len() > 1 && all_digits(s.skip(1)) {
            Some(digits_value(s.skip(1)) as int)
        } else {
            None
        }
    } else if s.len() > 0 && all_digits(s) {
        Some(digits_value(s) as int)
    } else {
        None
    }
}

/// The `i32` that `s` denotes in decimal, if it denotes an integer in range.
pub open spec fn i32_of_decimal(s: Seq<u8>) -> Option<i32> {
    match decimal_value(s) {
        Some(v) => if i32::MIN <= v <= i32::MAX {
            Some(v as i32)
        } else {
            None
        },
        None => None,
    }
}

/// The decimal digits of `n`, most significant first, without leading zeros.
pub open spec fn digits_of(n: nat) -> Seq<u8>
    decreases n,
{
    if n < 10 {
        seq![(48 + n) as u8]
    } else {
        digits_of(n / 10).push((48 + n % 10) as u8)
    }
}

/// The decimal form of `v`: a `-` for a negative number, then its digits.
pub open spec fn decimal_of(v: int) -> Seq<u8> {
    if v < 0 {
        seq![45u8] + digits_of((-v) as nat)
    } else {
        digits_of(v as nat)
    }
}

/// The digits of a number are digits, at least one, and denote the number.
pub proof fn lemma_digits_roundtrip(n: nat)
    ensures
        digits_of(n).len() > 0,
        all_digits(digits_of(n)),
        digits_value(digits_of(n)) == n,
    decreases n,
{
    if n < 10 {
        let s = digits_of(n);
        assert(s.drop_last().len() == 0);
        assert(digits_value(s.drop_last()) == 0);
    } else {
        lemma_digits_roundtrip(n / 10);
        let s = digits_of(n);
        assert(s.drop_last() =~= digits_of(n / 10));
    }
}

/// Reading the decimal form of an integer gives the integer back.
pub proof fn lemma_decimal_roundtrip(v: int)
    ensures
        decimal_value(decimal_of(v)) == Some(v),
{
    if v < 0 {
        let d = digits_of((-v) as nat);
        lemma_digits_roundtrip((-v) as nat);
        assert(decimal_of(v).skip(1) =~= d);
    } else {
        lemma_digits_roundtrip(v as nat);
        assert(is_digit(digits_of(v as nat)[0]));
    }
}

/// Reading what `encode_i32` writes gives the number back.
pub proof fn lemma_i32_roundtrip(n: i32)
    ensures
        i32_of_decimal(decimal_of(n as int)) == Some(n),
{
    lemma_decimal_roundtrip(n as int);
}

/// A prefix of a run of digits denotes no more than the whole run.
pub proof fn lemma_digits_prefix(s: Seq<u8>, k: int)
    requires
        0 <= k <= s.len(),
        all_digits(s),
    ensures
        digits_value(s.take(k)) <= digits_value(s),
    decreases s.len() - k,
{
    if k < s.len() {
        lemma_digits_prefix(s, k + 1);
        assert(s.take(k + 1).drop_last() =~= s.take(k));
    } else {
        assert(s.take(k) =~= s);
    }
}

fn push_digits(n: u32, out: &mut Vec<u8>)
    ensures
        final(out)@ == old(out)@ + digits_of(n as nat),
    decreases n,
{
    if n >= 10 {
        push_digits(n / 10, out);
    }
    let d: u32 = n % 10;
    out.push(DIGIT_ZERO + d as u8);
    proof {
        if n < 10 {
            assert(old(out)@.push((48 + n) as u8) =~= old(out)@ + digits_of(n as nat));
        } else {
            assert((old(out)@ + digits_of((n / 10) as nat)).push((48 + n % 10) as u8) =~= old(out)@
                + digits_of(n as nat));
        }
    }
}

/// Writes `n` in decimal, as the request and the reply of a remote call carry it.
pub fn encode_i32(n: i32) -> (out: Vec<u8>)
    ensures
        out@ == decimal_of(n as int),
{
    let mut out: Vec<u8> = Vec::new();
    if n < 0 {
        out.push(MINUS);
        let magnitude: u32 = (-(n as i64)) as u32;
        push_digits(magnitude, &mut out);
    } else {
        push_digits(n as u32, &mut out);
        assert(out@ =~= digits_of(n as nat));
    }
    out
}

/// The value of the digits from `start` on, where they are all digits and the
/// value is at most 2^31.
fn parse_digits(bytes: &[u8], start: usize) -> (r: Option<i64>)
    requires
        start <= bytes@.len(),
    ensures
        r == (if all_digits(bytes@.skip(start as int)) && digits_value(bytes@.skip(start as int))
            <= 2147483648 {
            Some(digits_value(bytes@.skip(start as int)) as i64)
        } else {
            None
        }),
{
    let len: usize = bytes.len();
    let ghost digits = bytes@.skip(start as int);
    let mut acc: i64 = 0;
    let mut i: usize = start;
    assert(digits.take(0) =~= Seq::<u8>::empty());
    while i < len
        invariant
            start <= i <= len,
            len == bytes@.len(),
            digits == bytes@.skip(start as int),
            all_digits(digits.take(i - start)),
            acc == digits_value(digits.take(i - start)),
            0 <= acc <= 2147483648,
        decreases len - i,
    {
        let b: u8 = bytes[i];
        if b < DIGIT_ZERO || b > DIGIT_ZERO + 9 {
            assert(!is_digit(digits[i - start]));
            return None;
        }
        let ghost before = digits.take(i - start);
        let ghost after = digits.take(i - start + 1);
        assert(after.drop_last() =~= before);
        assert(after.last() == b);
        assert(all_digits(after)) by {
            assert forall|j: int| 0 <= j < after.len() implies is_digit(#[trigger] after[j]) by {
                if j < before.len() {
                    assert(after[j] == before[j]);
                }
            }
        }
        let next: i64 = acc * 10 + (b - DIGIT_ZERO) as i64;
        if next > 2147483648 {
            proof {
                if all_digits(digits) {
                    lemma_digits_prefix(digits, i - start + 1);
                }
            }
            return None;
        }
        acc = next;
        i = i + 1;
    }
    assert(digits.take(i - start) =~= digits);
    Some(acc)
}

/// Reads a decimal `i32`: an optional sign, then digits, and nothing else.
pub fn parse_i32(bytes: &[u8]) -> (r: Option<i32>)
    ensures
        r == i32_of_decimal(bytes@),
{
    let len: usize = bytes.len();
    if len == 0 {
        return None;
    }
    let negative: bool = bytes[0] == MINUS;
    let start: usize = if negative || bytes[0] == PLUS {
        1
    } else {
        0
    };
    if start == len {
        return None;
    }
    assert(bytes@.skip(0) =~= bytes@);
    match parse_digits(bytes, start) {
        None => None,
        Some(magnitude) => {
            if negative {
                Some((-magnitude) as i32)
            } else if magnitude <= 2147483647 {
                Some(magnitude as i32)
            } else {
                None
            }
        },
    }
}

/// How many times `c` occurs in `s`.
pub open spec fn occurrences(s: Seq<char>, c: char) -> nat
    decreases s.len(),
{
    if s.len() == 0 {
        0
    } else {
        occurrences(s.drop_last(), c) + if s.last() == c {
            1nat
        } else {
            0nat
        }
    }
}

/// `std::str::from_utf8`: the text that `bytes` encode, where they are valid
/// UTF-8, and `None` where they are not.
#[verifier::external_body]
fn utf8_text(bytes: &[u8]) -> (r: Option<String>)
    ensures
        r is Some <==> valid_utf8(bytes@),
        r matches Some(s) ==> s@ == decode_utf8(bytes@),
{
    match std::str::from_utf8(bytes) {
        Ok(s) => Some(s.to_owned()),
        Err(_) => None,
    }
}

/// The text of a payload, or `None` for bytes that are not UTF-8.
pub fn decode_text(bytes: &[u8]) -> (r: Option<String>)
    ensures
        r is Some <==> valid_utf8(bytes@),
        r matches Some(s) ==> s@ == decode_utf8(bytes@),
{
    utf8_text(bytes)
}

/// The characters of a text, in order.
pub fn chars_of(text: &str) -> (chars: Vec<char>)
    ensures
        chars@ == text@,
{
    broadcast use vstd::string::group_string_axioms;

    let mut chars: Vec<char> = Vec::new();
    for c in it: text.chars()
        invariant
            it.seq() == text@,
            chars@ == text@.take(it.index()),
    {
        chars.push(c);
        assert(text@.take(it.index() + 1) =~= text@.take(it.index()).push(c));
    }
    assert(text@.take(text@.len() as int) =~= text@);
    chars
}

/// Whether two runs of characters are the same.
pub fn same_chars(a: &Vec<char>, b: &Vec<char>) -> (same: bool)
    ensures
        same == (a@ == b@),
{
    if a.len() != b.len() {
        return false;
    }
    let mut i: usize = 0;
    while i < a.len()
        invariant
            i <= a.len(),
            a.len() == b.len(),
            forall|j: int| 0 <= j < i ==> a@[j] == b@[j],
        decreases a.len() - i,
    {
        if a[i] != b[i] {
            return false;
        }
        i = i + 1;
    }
    assert(a@ =~= b@);
    true
}

/// Whether two names are the same text.
pub fn same_name(a: &str, b: &str) -> (same: bool)
    ensures
        same == (a@ == b@),
{
    let a_chars = chars_of(a);
    let b_chars = chars_of(b);
    same_chars(&a_chars, &b_chars)
}

/// How many dots a task's text holds: each stands for one second of work.
pub fn count_dots(text: &str) -> (n: usize)
    ensures
        n == occurrences(text@, '.'),
{
    let chars = chars_of(text);
    let mut n: usize = 0;
    let mut i: usize = 0;
    while i < chars.len()
        invariant
            i <= chars@.len(),
            n <= i,
            n == occurrences(chars@.take(i as int), '.'),
        decreases chars@.len() - i,
    {
        assert(chars@.take(i + 1).drop_last() =~= chars@.take(i as int));
        if chars[i] == '.' {
            n = n + 1;
        }
        i = i + 1;
    }
    assert(chars@.take(i as int) =~= chars@);
    n
}

/// Whether `c` is white space: one of the characters with the Unicode
/// property `White_Space`. These are U+0009 to U+000D, U+0020, U+0085,
/// U+00A0, U+1680, U+2000 to U+200A, U+2028, U+2029, U+202F, U+205F and
/// U+3000.
pub open spec fn is_white_space(c: char) -> bool {
    let u = c as u32;
    ||| 0x0009 <= u <= 0x000D
    ||| u == 0x0020
    ||| u == 0x0085
    ||| u == 0x00A0
    ||| u == 0x1680
    ||| 0x2000 <= u <= 0x200A
    ||| u == 0x2028
    ||| u == 0x2029
    ||| u == 0x202F
    ||| u == 0x205F
    ||| u == 0x3000
}

/// Whether `c` is white space.
pub fn white_space(c: char) -> (r: bool)
    ensures
        r == is_white_space(c),
{
    let u: u32 = c as u32;
    let control: bool = 0x0009 <= u && u <= 0x000D;
    let spaces: bool = 0x2000 <= u && u <= 0x200A;
    let single: bool = u == 0x0020 || u == 0x0085 || u == 0x00A0 || u == 0x1680 || u == 0x2028
        || u == 0x2029 || u == 0x202F || u == 0x205F || u == 0x3000;
    control || spaces || single
}

/// The words read so far and the word being read, going through `s` from the
/// left: white space ends a word, any other character goes on with it.
pub open spec fn scan_words(s: Seq<char>) -> (Seq<Seq<char>>, Seq<char>)
    decreases s.len(),
{
    if s.len() == 0 {
        (Seq::empty(), Seq::empty())
    } else {
        let (done, word) = scan_words(s.drop_last());
        if !is_white_space(s.last()) {
            (done, word.push(s.last()))
        } else if word.len() > 0 {
            (done.push(word), Seq::empty())
        } else {
            (done, word)
        }
    }
}

/// The words of `s`: its longest runs of characters that are not white space,
/// in their order.
pub open spec fn words_of(s: Seq<char>) -> Seq<Seq<char>> {
    let (done, word) = scan_words(s);
    if word.len() > 0 {
        done.push(word)
    } else {
        done
    }
}

/// The texts that a vector of strings stands for.
pub open spec fn texts_view(texts: Seq<String>) -> Seq<Seq<char>> {
    Seq::new(texts.len(), |i: int| texts[i]@)
}

/// Splits a text into its words at white space, as binding keys are given on
/// one line.
pub fn split_whitespace(text: &str) -> (words: Vec<String>)
    ensures
        texts_view(words@) == words_of(text@),
{
    let chars = chars_of(text);
    let mut words: Vec<String> = Vec::new();
    let mut start: usize = 0;
    let mut in_word: bool = false;
    let mut i: usize = 0;
    while i < chars.len()
        invariant
            i <= chars@.len(),
            chars@ == text@,
            in_word ==> start < i,
            scan_words(chars@.take(i as int)) == (
                texts_view(words@),
                if in_word {
                    chars@.subrange(start as int, i as int)
                } else {
                    Seq::empty()
                },
            ),
        decreases chars@.len() - i,
    {
        assert(chars@.take(i + 1).drop_last() =~= chars@.take(i as int));
        let ghost done = texts_view(words@);
        if !white_space(chars[i]) {
            if !in_word {
                start = i;
                in_word = true;
            }
            assert(chars@.subrange(start as int, i + 1) =~= chars@.subrange(
                start as int,
                i as int,
            ).push(chars@[i as int]));
        } else if in_word {
            words.push(String::from_str(text.substring_char(start, i)));
            in_word = false;
            assert(texts_view(words@) =~= done.push(chars@.subrange(start as int, i as int)));
        }
        i = i + 1;
    }
    assert(chars@.take(i as int) =~= chars@);
    if in_word {
        let ghost done = texts_view(words@);
        words.push(String::from_str(text.substring_char(start, i)));
        assert(texts_view(words@) =~= done.push(chars@.subrange(start as int, i as int)));
    }
    words
}

/// Whether `w` holds no white space.
pub open spec fn no_white_space(w: Seq<char>) -> bool {
    forall|j: int| 0 <= j < w.len() ==> !is_white_space(#[trigger] w[j])
}

/// Whether `w` is a word: not empty, and without white space.
pub open spec fn is_word(w: Seq<char>) -> bool {
    w.len() > 0 && no_white_space(w)
}

/// What `scan_words` keeps: every finished word is a word, and the word being
/// read holds no white space.
pub proof fn lemma_scan_words(s: Seq<char>)
    ensures
        forall|i: int| 0 <= i < scan_words(s).0.len() ==> is_word(#[trigger] scan_words(s).0[i]),
        no_white_space(scan_words(s).1),
    decreases s.len(),
{
    if s.len() > 0 {
        lemma_scan_words(s.drop_last());
        let (done, word) = scan_words(s.drop_last());
        if !is_white_space(s.last()) {
            let next = word.push(s.last());
            assert forall|j: int| 0 <= j < next.len() implies !is_white_space(
                #[trigger] next[j],
            ) by {
                if j < word.len() {
                    assert(next[j] == word[j]);
                }
            }
        } else if word.len() > 0 {
            let all = done.push(word);
            assert forall|i: int| 0 <= i < all.len() implies is_word(#[trigger] all[i]) by {
                if i < done.len() {
                    assert(all[i] == done[i]);
                }
            }
        }
    }
}

/// Every word of a text is a word: none is empty, and none holds white space.
pub proof fn lemma_words_are_words(s: Seq<char>)
    ensures
        forall|i: int| 0 <= i < words_of(s).len() ==> is_word(#[trigger] words_of(s)[i]),
{
    lemma_scan_words(s);
    let (done, word) = scan_words(s);
    if word.len() > 0 {
        let all = done.push(word);
        assert forall|i: int| 0 <= i < all.len() implies is_word(#[trigger] all[i]) by {
            if i < done.len() {
                assert(all[i] == done[i]);
            }
        }
    }
}

} // verus!
