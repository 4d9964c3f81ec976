use clockstop::number::{parse_u64, to_decimal, to_signed_decimal};
use clockstop::text::{is_whitespace, join, split_at_char, split_words, trim, Class};

#[test]
fn white_space_is_unicodes() {
    for n in 0..=0x10ffffu32 {
        if let Some(c) = char::from_u32(n) {
            assert_eq!(is_whitespace(c), c.is_whitespace(), "U+{n:04X}");
        }
    }
}

#[test]
fn classes_hold_their_characters() {
    assert!(Class::Space.contains('\u{3000}'));
    assert!(!Class::Word.contains('\t'));
    assert!(Class::Except('"').contains('\''));
    assert!(!Class::Except('"').contains('"'));
    assert!(Class::Only(',').contains(','));
    for c in "\"'[](),;".chars() {
        assert!(Class::Wrapping.contains(c));
    }
    assert!(!Class::Wrapping.contains('{'));
}

#[test]
fn trimming_takes_both_ends() {
    let texts = ["", " ", "a", " \ta b\u{a0}\r\n", "\u{2003}x\u{2003}", "\u{200b}x", "é "];
    for text in texts {
        assert_eq!(trim(text, Class::Space), text.trim());
    }
    assert_eq!(trim(",,a,b,,", Class::Only(',')), "a,b");
    assert_eq!(trim("[(\"x y\")];", Class::Wrapping), "x y");
    assert_eq!(trim("[()]", Class::Wrapping), "");
}

#[test]
fn words_are_split_at_white_space() {
    let texts = ["", "  ", "one", " a  b\tc\u{3000}d ", "é\u{85}ü"];
    for text in texts {
        let expected: Vec<String> = text.split_whitespace().map(str::to_string).collect();
        assert_eq!(split_words(text), expected);
    }
}

#[test]
fn pieces_are_split_at_every_separator() {
    assert_eq!(split_at_char("", '\n'), vec![""]);
    assert_eq!(split_at_char("a\n\nb\n", '\n'), vec!["a", "", "b", ""]);
}

#[test]
fn joining_puts_separators_between() {
    assert_eq!(join(&vec![], ", "), "");
    assert_eq!(join(&vec!["a".to_string()], ", "), "a");
    assert_eq!(join(&vec!["a".to_string(), "".to_string(), "c".to_string()], ", "), "a, , c");
}

#[test]
fn numbers_are_written_in_decimal() {
    for n in [0u128, 7, 10, 42, 480, 1000, u64::MAX as u128, u128::MAX] {
        assert_eq!(to_decimal(n), n.to_string());
    }
    for n in [0i32, 9, -1, -10, 123, i32::MAX, i32::MIN] {
        assert_eq!(to_signed_decimal(n), n.to_string());
    }
}

#[test]
fn numbers_are_read_from_digits() {
    let texts = [
        "", "+", "-", "0", "00", "25", "+25", "-1", "-0", "++1", "1+", " 1", "1 ", "1_0", "0x1", "٣",
        "18446744073709551615", "18446744073709551616", "184467440737095516150",
        "00000000000000000000000000000001",
    ];
    for text in texts {
        assert_eq!(parse_u64(text), text.parse::<u64>().ok(), "{text:?}");
    }
}

#[test]
fn written_numbers_are_read_back() {
    for n in [0u64, 1, 15, 25, 480, u64::MAX] {
        assert_eq!(parse_u64(&to_decimal(n as u128)), Some(n));
        let line = format!("{}\n", to_decimal(n as u128));
        assert_eq!(parse_u64(trim(&line, Class::Space)), Some(n));
    }
}
