use devenv_shell::utf8_accumulator::{is_incomplete_start, utf8_valid_prefix_len};
use devenv_shell::Utf8Accumulator;
use std::borrow::Cow;
use std::collections::HashSet;

#[test]
fn ascii_fast_path_borrows() {
    let mut acc = Utf8Accumulator::new();
    let result = acc.accumulate(b"hello world");
    assert!(matches!(result, Cow::Borrowed(_)));
    assert_eq!(&*result, "hello world");
}

#[test]
fn valid_utf8_fast_path_borrows() {
    let mut acc = Utf8Accumulator::new();
    let data = "こんにちは".as_bytes();
    let result = acc.accumulate(data);
    assert!(matches!(result, Cow::Borrowed(_)));
    assert_eq!(&*result, "こんにちは");
}

#[test]
fn split_two_byte_char() {
    let mut acc = Utf8Accumulator::new();
    // 'é' = 0xC3 0xA9
    let result1 = acc.accumulate(&[0xC3]);
    assert_eq!(&*result1, "");
    let result2 = acc.accumulate(&[0xA9]);
    assert_eq!(&*result2, "é");
}

#[test]
fn split_three_byte_char() {
    let mut acc = Utf8Accumulator::new();
    // '€' = 0xE2 0x82 0xAC
    let result1 = acc.accumulate(b"abc\xE2\x82");
    assert_eq!(&*result1, "abc");
    let result2 = acc.accumulate(b"\xACdef");
    assert_eq!(&*result2, "€def");
}

#[test]
fn split_four_byte_char() {
    let mut acc = Utf8Accumulator::new();
    // '𝕳' = 0xF0 0x9D 0x95 0xB3
    let result1 = acc.accumulate(b"x\xF0\x9D\x95");
    assert_eq!(&*result1, "x");
    let result2 = acc.accumulate(b"\xB3y");
    assert_eq!(&*result2, "𝕳y");
}

#[test]
fn split_four_byte_at_one() {
    let mut acc = Utf8Accumulator::new();
    let result1 = acc.accumulate(b"\xF0");
    assert_eq!(&*result1, "");
    let result2 = acc.accumulate(b"\x9D\x95\xB3");
    assert_eq!(&*result2, "𝕳");
}

#[test]
fn invalid_byte_replaced() {
    let mut acc = Utf8Accumulator::new();
    let result = acc.accumulate(b"hello\xFFworld");
    assert_eq!(&*result, "hello\u{FFFD}world");
}

#[test]
fn empty_input() {
    let mut acc = Utf8Accumulator::new();
    let result = acc.accumulate(b"");
    assert_eq!(&*result, "");
}

#[test]
fn consecutive_splits() {
    let mut acc = Utf8Accumulator::new();
    // Two consecutive 3-byte chars split across boundaries:
    // '日' = 0xE6 0x97 0xA5, '本' = 0xE6 0x9C 0xAC
    let r1 = acc.accumulate(b"\xE6\x97");
    assert_eq!(&*r1, "");
    let r2 = acc.accumulate(b"\xA5\xE6\x9C");
    assert_eq!(&*r2, "日");
    let r3 = acc.accumulate(b"\xAC");
    assert_eq!(&*r3, "本");
}

#[test]
fn text_survives_every_way_to_cut_it() {
    let text = "aé€𝕳 日本 z";
    let bytes = text.as_bytes();
    for i in 0..=bytes.len() {
        for j in i..=bytes.len() {
            let mut acc = Utf8Accumulator::new();
            let mut out = String::new();
            out.push_str(&acc.accumulate(&bytes[..i]));
            out.push_str(&acc.accumulate(&bytes[i..j]));
            out.push_str(&acc.accumulate(&bytes[j..]));
            assert_eq!(out, text);
            assert!(matches!(acc.accumulate(b"!"), Cow::Borrowed("!")));
        }
    }
}

#[test]
fn one_byte_at_a_time() {
    let text = "é€𝕳";
    let mut acc = Utf8Accumulator::new();
    let mut out = String::new();
    for b in text.as_bytes() {
        out.push_str(&acc.accumulate(&[*b]));
    }
    assert_eq!(out, text);
}

#[test]
fn leftover_makes_the_result_owned() {
    let mut acc = Utf8Accumulator::new();
    acc.accumulate(b"\xC3");
    assert!(matches!(acc.accumulate(b"\xA9"), Cow::Owned(_)));
    assert!(matches!(acc.accumulate(b"x"), Cow::Borrowed(_)));
}

#[test]
fn buffered_start_that_is_never_finished_is_replaced() {
    let mut acc = Utf8Accumulator::new();
    assert_eq!(acc.accumulate(b"a\xE2\x82"), "a");
    assert_eq!(acc.accumulate(b"b"), "\u{FFFD}b");
    assert_eq!(acc.accumulate(b"c"), "c");
}

#[test]
fn bytes_that_begin_no_character_are_replaced_at_once() {
    for byte in (0x80..=0xC1u8).chain(0xF5..=0xFF) {
        let mut acc = Utf8Accumulator::new();
        assert_eq!(acc.accumulate(&[byte]), "\u{FFFD}");
        assert!(matches!(acc.accumulate(b"x"), Cow::Borrowed("x")));
    }
}

#[test]
fn starts_that_cannot_be_completed_are_replaced_at_once() {
    for start in [b"\xE0\x80", b"\xED\xA0", b"\xF0\x80", b"\xF4\x90"] {
        let mut acc = Utf8Accumulator::new();
        assert_eq!(acc.accumulate(start), "\u{FFFD}\u{FFFD}");
        assert!(matches!(acc.accumulate(b"x"), Cow::Borrowed("x")));
    }
}

#[test]
fn invalid_byte_before_a_cut_character() {
    let mut acc = Utf8Accumulator::new();
    assert_eq!(acc.accumulate(b"\xFFa\xC3"), "\u{FFFD}a");
    assert_eq!(acc.accumulate(b"\xA9"), "é");
    assert_eq!(acc.accumulate(b"a\xFFb\xC3"), "a\u{FFFD}b");
    assert_eq!(acc.accumulate(b"\xA9"), "é");
    assert_eq!(acc.accumulate(b"\xE2\xF0\x9D\x95"), "\u{FFFD}");
    assert_eq!(acc.accumulate(b"\xB3!"), "𝕳!");
}

#[test]
fn what_is_buffered_is_the_start_of_a_character() {
    let mut starts: HashSet<Vec<u8>> = HashSet::new();
    for code in 0..=0x10FFFFu32 {
        if let Some(c) = char::from_u32(code) {
            let text = c.to_string();
            for n in 1..text.len() {
                starts.insert(text.as_bytes()[..n].to_vec());
            }
        }
    }
    let mut reads: Vec<Vec<u8>> = Vec::new();
    for first in 0..=255u8 {
        for second in 0..=255u8 {
            reads.push(vec![first, second]);
            reads.push(vec![b'a', first, second, 0x80]);
            reads.push(vec![0xFF, first, second]);
        }
    }
    for read in reads {
        let mut at = read.len();
        for n in 1..=3 {
            if n <= read.len() && starts.contains(&read[read.len() - n..]) {
                at = read.len() - n;
            }
        }
        let mut acc = Utf8Accumulator::new();
        assert_eq!(acc.accumulate(&read), String::from_utf8_lossy(&read[..at]));
        let mut rest = read[at..].to_vec();
        rest.push(b'!');
        assert_eq!(acc.accumulate(b"!"), String::from_utf8_lossy(&rest));
    }
}

#[test]
fn invalid_sequences_take_no_other_character_with_them() {
    for first in 0x80..=0xFFu8 {
        for second in 0x80..=0xFFu8 {
            let mut acc = Utf8Accumulator::new();
            let text = acc.accumulate(&[b'a', first, second, b'b', 0xC3, 0xA9]).into_owned();
            let inner = text.strip_prefix('a').unwrap().strip_suffix("bé").unwrap();
            let replaced = inner.chars().filter(|&c| c == '\u{FFFD}').count();
            assert!(replaced == inner.chars().count() && replaced <= 2 && replaced >= 1
                || inner.len() == 2 && inner.as_bytes() == [first, second]);
        }
    }
}

#[test]
fn stream_that_ends_inside_a_character() {
    let mut acc = Utf8Accumulator::new();
    let mut out = String::new();
    for chunk in [b"a\xE2".as_slice(), b"\x82\xACb", b"\xF0", b"\x9D"] {
        out.push_str(&acc.accumulate(chunk));
    }
    assert_eq!(out, "a€b");
    assert_eq!(acc.accumulate(b"\x95\xB3"), "𝕳");
}

#[test]
fn empty_read_keeps_what_is_buffered() {
    let mut acc = Utf8Accumulator::new();
    assert_eq!(acc.accumulate(b"\xF0\x9D"), "");
    assert_eq!(acc.accumulate(b""), "");
    assert_eq!(acc.accumulate(b"\x95\xB3"), "𝕳");
}

#[test]
fn valid_prefix_lengths() {
    assert_eq!(utf8_valid_prefix_len(b""), 0);
    assert_eq!(utf8_valid_prefix_len(b"abc"), 3);
    assert_eq!(utf8_valid_prefix_len(b"ab\xFFc"), 2);
    assert_eq!(utf8_valid_prefix_len("aé".as_bytes()), 3);
    assert_eq!(utf8_valid_prefix_len(b"a\xE2\x82"), 1);
    assert_eq!(utf8_valid_prefix_len(b"\xED\xA0\x80"), 0);
}

#[test]
fn incomplete_starts() {
    assert!(!is_incomplete_start(b""));
    assert!(!is_incomplete_start(b"a"));
    assert!(!is_incomplete_start(b"\x80"));
    assert!(!is_incomplete_start(b"\xF8"));
    assert!(is_incomplete_start(b"\xC3"));
    assert!(!is_incomplete_start(b"\xC3\xA9"));
    assert!(is_incomplete_start(b"\xE2"));
    assert!(is_incomplete_start(b"\xE2\x82"));
    assert!(!is_incomplete_start(b"\xE2a"));
    assert!(is_incomplete_start(b"\xF7\x80\xBF"));
    assert!(!is_incomplete_start(b"\xF0\x9D\x95\xB3"));
    assert!(!is_incomplete_start(b"\xF0\x9D\xC0"));
}
