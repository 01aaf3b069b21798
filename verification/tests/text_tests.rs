use amqp_patterns::text::{
    count_dots, decode_text, encode_i32, parse_i32, split_whitespace, white_space,
};

#[test]
fn encode_small_numbers() {
    assert_eq!(encode_i32(0), b"0".to_vec());
    assert_eq!(encode_i32(7), b"7".to_vec());
    assert_eq!(encode_i32(55), b"55".to_vec());
    assert_eq!(encode_i32(-1), b"-1".to_vec());
    assert_eq!(encode_i32(1000), b"1000".to_vec());
}

#[test]
fn encode_the_limits() {
    assert_eq!(encode_i32(i32::MAX), b"2147483647".to_vec());
    assert_eq!(encode_i32(i32::MIN), b"-2147483648".to_vec());
}

#[test]
fn encode_agrees_with_to_string() {
    for n in [0, 1, -1, 9, 10, 11, 99, 100, 101, -10, -99, 123456789, -987654321, i32::MAX, i32::MIN] {
        assert_eq!(encode_i32(n), n.to_string().into_bytes());
    }
}

#[test]
fn parse_plain_numbers() {
    assert_eq!(parse_i32(b"0"), Some(0));
    assert_eq!(parse_i32(b"30"), Some(30));
    assert_eq!(parse_i32(b"55"), Some(55));
    assert_eq!(parse_i32(b"-17"), Some(-17));
    assert_eq!(parse_i32(b"+17"), Some(17));
}

#[test]
fn parse_leading_zeros() {
    assert_eq!(parse_i32(b"007"), Some(7));
    assert_eq!(parse_i32(b"-0"), Some(0));
    assert_eq!(parse_i32(b"00000000000000000000001"), Some(1));
}

#[test]
fn parse_the_limits() {
    assert_eq!(parse_i32(b"2147483647"), Some(i32::MAX));
    assert_eq!(parse_i32(b"-2147483648"), Some(i32::MIN));
    assert_eq!(parse_i32(b"2147483648"), None);
    assert_eq!(parse_i32(b"-2147483649"), None);
    assert_eq!(parse_i32(b"99999999999999999999999999"), None);
}

#[test]
fn parse_rejects_what_is_no_number() {
    assert_eq!(parse_i32(b""), None);
    assert_eq!(parse_i32(b"-"), None);
    assert_eq!(parse_i32(b"+"), None);
    assert_eq!(parse_i32(b" 1"), None);
    assert_eq!(parse_i32(b"1 "), None);
    assert_eq!(parse_i32(b"1.5"), None);
    assert_eq!(parse_i32(b"--1"), None);
    assert_eq!(parse_i32(b"+-1"), None);
    assert_eq!(parse_i32(b"12a"), None);
    assert_eq!(parse_i32(b"abc"), None);
    assert_eq!(parse_i32(&[0xff, 0xfe]), None);
}

#[test]
fn parse_agrees_with_std() {
    let samples: [&str; 14] = [
        "0", "1", "-1", "+1", "0042", "2147483647", "2147483648", "-2147483648", "-2147483649", "",
        "-", "1x", "x1", "1_000",
    ];
    for s in samples {
        assert_eq!(parse_i32(s.as_bytes()), s.parse::<i32>().ok());
    }
}

#[test]
fn decimal_roundtrip() {
    for n in [0, 1, -1, 10, -10, 46, 55, 1836311903, i32::MAX, i32::MIN] {
        assert_eq!(parse_i32(&encode_i32(n)), Some(n));
    }
}

#[test]
fn decode_text_of_utf8() {
    assert_eq!(decode_text(b"Hello World!"), Some(String::from("Hello World!")));
    assert_eq!(decode_text(b""), Some(String::new()));
    assert_eq!(decode_text("gr\u{fc}\u{df}e \u{2603}".as_bytes()), Some(String::from("gr\u{fc}\u{df}e \u{2603}")));
}

#[test]
fn decode_text_rejects_other_bytes() {
    assert_eq!(decode_text(&[0xff]), None);
    assert_eq!(decode_text(&[b'a', 0xc3]), None);
    assert_eq!(decode_text(&[0xed, 0xa0, 0x80]), None);
}

#[test]
fn count_dots_counts_dots() {
    assert_eq!(count_dots(""), 0);
    assert_eq!(count_dots("Hello World!"), 0);
    assert_eq!(count_dots("Hello..."), 3);
    assert_eq!(count_dots(".a.b."), 3);
    assert_eq!(count_dots("\u{2026}."), 1);
}

#[test]
fn split_whitespace_gives_the_words() {
    assert_eq!(split_whitespace("info warning error"), vec!["info", "warning", "error"]);
    assert_eq!(split_whitespace("  kern.*   *.critical\t#\n"), vec!["kern.*", "*.critical", "#"]);
    assert_eq!(split_whitespace("anonymous.info"), vec!["anonymous.info"]);
}

#[test]
fn split_whitespace_of_nothing() {
    assert_eq!(split_whitespace(""), Vec::<String>::new());
    assert_eq!(split_whitespace(" \t \n"), Vec::<String>::new());
}

#[test]
fn split_whitespace_agrees_with_std() {
    for s in ["a b", " a  b ", "a\u{a0}b", "a\u{3000}b\u{2003}c", "x", "", "\u{85}y\u{85}"] {
        let want: Vec<String> = s.split_whitespace().map(String::from).collect();
        assert_eq!(split_whitespace(s), want);
    }
}

#[test]
fn white_space_is_what_std_takes_for_it() {
    let mut count: u32 = 0;
    for code in 0..=0x10FFFFu32 {
        if let Some(c) = char::from_u32(code) {
            assert_eq!(white_space(c), c.is_whitespace(), "U+{:04X}", code);
            if white_space(c) {
                count += 1;
            }
        }
    }
    assert_eq!(count, 25);
}

#[test]
fn white_space_on_chosen_characters() {
    for c in [' ', '\t', '\n', '\r', '\u{b}', '\u{c}', '\u{85}', '\u{a0}', '\u{1680}', '\u{2000}', '\u{200a}', '\u{2028}', '\u{2029}', '\u{202f}', '\u{205f}', '\u{3000}'] {
        assert!(white_space(c));
    }
    for c in ['a', '0', '.', '\u{0}', '\u{8}', '\u{e}', '\u{1f}', '\u{200b}', '\u{180e}', '\u{feff}', '\u{2060}', '\u{3001}'] {
        assert!(!white_space(c));
    }
}

#[test]
fn three_severities_on_one_line() {
    assert_eq!(split_whitespace("info warning  error"), vec!["info", "warning", "error"]);
}
