use amqp_patterns::routing::{
    binding_matches, match_words, split_words, topic_matches, ExchangeKind,
};
use amqp_patterns::text::{chars_of, same_chars, same_name};

fn word(s: &str) -> Vec<char> {
    s.chars().collect()
}

#[test]
fn topic_key_matches_star_and_hash_but_not_a_prefix() {
    assert!(topic_matches("a.*.c", "a.b.c"));
    assert!(topic_matches("a.#", "a.b.c"));
    assert!(!topic_matches("a.b", "a.b.c"));
}

#[test]
fn star_stands_for_exactly_one_word() {
    assert!(topic_matches("*", "a"));
    assert!(!topic_matches("*", "a.b"));
    assert!(!topic_matches("*", ""));
    assert!(topic_matches("*.*", "a.b"));
    assert!(!topic_matches("*.*", "a"));
    assert!(topic_matches("*.orange.*", "quick.orange.rabbit"));
    assert!(!topic_matches("*.orange.*", "quick.orange.male.rabbit"));
    assert!(!topic_matches("*.orange.*", "orange"));
}

#[test]
fn hash_stands_for_any_number_of_words() {
    assert!(topic_matches("#", ""));
    assert!(topic_matches("#", "a"));
    assert!(topic_matches("#", "a.b.c"));
    assert!(topic_matches("lazy.#", "lazy"));
    assert!(topic_matches("lazy.#", "lazy.brown.fox"));
    assert!(!topic_matches("lazy.#", "quick.lazy"));
    assert!(topic_matches("#.c", "a.b.c"));
    assert!(topic_matches("#.c", "c"));
    assert!(topic_matches("a.#.c", "a.c"));
    assert!(topic_matches("a.#.c", "a.x.y.c"));
    assert!(!topic_matches("a.#.c", "a.x.y"));
    assert!(topic_matches("#.#", "a"));
    assert!(topic_matches("*.#", "a"));
    assert!(!topic_matches("*.#", ""));
}

#[test]
fn plain_patterns_match_themselves_only() {
    assert!(topic_matches("kern.critical", "kern.critical"));
    assert!(!topic_matches("kern.critical", "kern.info"));
    assert!(!topic_matches("kern.critical", "kern"));
    assert!(!topic_matches("kern", "kern.critical"));
    assert!(topic_matches("", ""));
    assert!(!topic_matches("", "a"));
    assert!(!topic_matches("a", ""));
}

#[test]
fn wildcards_are_whole_words() {
    assert!(!topic_matches("a*", "ab"));
    assert!(topic_matches("a*", "a*"));
    assert!(!topic_matches("a#", "a.b"));
    assert!(topic_matches("**", "**"));
    assert!(!topic_matches("**", "a"));
}

#[test]
fn empty_words_are_words() {
    assert!(topic_matches("a.*", "a."));
    assert!(topic_matches("*.a", ".a"));
    assert!(!topic_matches("a", "a."));
    assert!(topic_matches("a..b", "a..b"));
    assert!(topic_matches("a.*.b", "a..b"));
}

#[test]
fn split_words_at_dots() {
    assert_eq!(split_words("a.b.c"), vec![word("a"), word("b"), word("c")]);
    assert_eq!(split_words("abc"), vec![word("abc")]);
    assert_eq!(split_words("a."), vec![word("a"), word("")]);
    assert_eq!(split_words("."), vec![word(""), word("")]);
    assert_eq!(split_words(""), Vec::<Vec<char>>::new());
}

#[test]
fn match_words_on_words() {
    let pattern = vec![word("a"), word("#")];
    assert!(match_words(&pattern, &vec![word("a")]));
    assert!(match_words(&pattern, &vec![word("a"), word("b"), word("c")]));
    assert!(!match_words(&pattern, &vec![word("b")]));
    assert!(match_words(&Vec::new(), &Vec::new()));
    assert!(!match_words(&Vec::new(), &vec![word("a")]));
}

#[test]
fn fanout_ignores_the_key() {
    assert!(binding_matches(ExchangeKind::Fanout, "", "anything.at.all"));
    assert!(binding_matches(ExchangeKind::Fanout, "x", ""));
}

#[test]
fn direct_wants_the_same_key() {
    assert!(binding_matches(ExchangeKind::Direct, "error", "error"));
    assert!(!binding_matches(ExchangeKind::Direct, "error", "info"));
    assert!(!binding_matches(ExchangeKind::Direct, "#", "info"));
    assert!(!binding_matches(ExchangeKind::Direct, "*", "info"));
    assert!(binding_matches(ExchangeKind::Direct, "", ""));
}

#[test]
fn topic_goes_by_the_pattern() {
    assert!(binding_matches(ExchangeKind::Topic, "*.info", "anonymous.info"));
    assert!(!binding_matches(ExchangeKind::Topic, "*.info", "anonymous.warn"));
    assert!(binding_matches(ExchangeKind::Topic, "#", "anonymous.info"));
}

#[test]
fn same_name_compares_texts() {
    assert!(same_name("hello", "hello"));
    assert!(!same_name("hello", "hellp"));
    assert!(!same_name("hello", "hell"));
    assert!(same_name("", ""));
    assert!(same_name("\u{e9}t\u{e9}", "\u{e9}t\u{e9}"));
}

#[test]
fn chars_of_gives_the_characters() {
    assert_eq!(chars_of("a.b"), vec!['a', '.', 'b']);
    assert_eq!(chars_of(""), Vec::<char>::new());
    assert_eq!(chars_of("\u{2603}x"), vec!['\u{2603}', 'x']);
}

#[test]
fn same_chars_compares_runs() {
    assert!(same_chars(&word("abc"), &word("abc")));
    assert!(!same_chars(&word("abc"), &word("abd")));
    assert!(!same_chars(&word("abc"), &word("ab")));
    assert!(same_chars(&word(""), &word("")));
}
