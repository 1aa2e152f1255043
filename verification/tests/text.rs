use devenv_shell::text::{is_word, push_decimal, push_signed_decimal, says};

fn word(s: &str) -> String {
    s.to_string()
}

#[test]
fn decimals() {
    for n in [0u64, 1, 9, 10, 11, 99, 100, 1234567890, u64::MAX] {
        let mut out = String::from("<");
        push_decimal(&mut out, n);
        assert_eq!(out, format!("<{}", n));
    }
    for i in [0i32, 1, -1, 10, -10, 255, i32::MAX, i32::MIN] {
        let mut out = String::new();
        push_signed_decimal(&mut out, i);
        assert_eq!(out, format!("{}", i));
    }
}

#[test]
fn white_space_is_trimmed_and_nothing_else() {
    let white: Vec<char> = "\u{9}\u{A}\u{B}\u{C}\u{D}\u{20}\u{85}\u{A0}\u{1680}\u{2000}\u{2001}\u{2002}\u{2003}\u{2004}\u{2005}\u{2006}\u{2007}\u{2008}\u{2009}\u{200A}\u{2028}\u{2029}\u{202F}\u{205F}\u{3000}".chars().collect();
    assert_eq!(white.len(), 25);
    let x = word("x");
    for code in 0..=0x10FFFFu32 {
        if let Some(c) = char::from_u32(code) {
            let mut text = String::new();
            text.push(c);
            text.push('x');
            text.push(c);
            assert_eq!(is_word(&text, &x), white.contains(&c));
        }
    }
}

#[test]
fn inner_white_space_stays() {
    assert!(is_word("  a b \t", &word("a b")));
    assert!(!is_word("a b", &word("ab")));
    assert!(is_word("   ", &word("")));
}

#[test]
fn line_says_its_word() {
    assert!(says("fence", &word("fence")));
    assert!(says("fence\r", &word("fence")));
    assert!(says("  fence  \r", &word("fence")));
    assert!(!says("fences", &word("fence")));
    assert!(!says("echo 'fence'", &word("fence")));
    assert!(!says("", &word("fence")));
}

#[test]
fn escape_sequences_are_stripped() {
    assert!(says("\u{1b}[?2004l\rfence\r", &word("fence")));
    assert!(says("\u{1b}[32mfence\u{1b}[m", &word("fence")));
    assert!(says("\u{1b}]0;title\u{7}fence", &word("fence")));
    assert!(!says("\u{1b}[32mfence\u{1b}[m", &word("\u{1b}[32mfence\u{1b}[m")));
}

#[test]
fn control_characters_are_dropped_without_escape() {
    assert!(says("f\u{7}en\u{8}ce\u{9b}", &word("fence")));
    assert!(says("fen\u{7f}ce", &word("fen\u{7f}ce")));
    assert!(says("a\tb", &word("ab")));
    for code in 0..=0xFFu32 {
        let c = char::from_u32(code).unwrap();
        if c != '\u{1b}' {
            let text = format!("<{}>", c);
            let dropped = c != '\n' && (code <= 0x1f || (0x80..=0x9f).contains(&code));
            assert_eq!(says(&text, &word("<>")), dropped);
            assert_eq!(says(&text, &text), !dropped);
        }
    }
}
