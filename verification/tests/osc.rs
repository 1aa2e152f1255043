use devenv_shell::escape::osc::{OscParser, OscResult, MAX_PAYLOAD};

#[test]
fn query_with_bel() {
    let mut p = OscParser::new();
    for &b in b"11;?" {
        assert!(matches!(p.feed(b), OscResult::Pending));
    }
    assert!(matches!(p.feed(0x07), OscResult::Complete));
}

#[test]
fn non_query_rejected() {
    let mut p = OscParser::new();
    for &b in b"0;title" {
        assert!(matches!(p.feed(b), OscResult::Pending));
    }
    assert!(matches!(p.feed(0x07), OscResult::Reject));
}

#[test]
fn c0_control_rejects() {
    let mut p = OscParser::new();
    p.feed(b'1');
    assert!(matches!(p.feed(0x00), OscResult::Reject));
}

#[test]
fn del_rejects() {
    let mut p = OscParser::new();
    p.feed(b'1');
    assert!(matches!(p.feed(0x7f), OscResult::Reject));
}

#[test]
fn max_payload_rejects() {
    let mut p = OscParser::new();
    for _ in 0..MAX_PAYLOAD {
        assert!(matches!(p.feed(b'x'), OscResult::Pending));
    }
    assert!(matches!(p.feed(b'x'), OscResult::Reject));
}

#[test]
fn empty_payload_query_with_just_question_mark() {
    let mut p = OscParser::new();
    p.feed(b'?');
    assert!(matches!(p.feed(0x07), OscResult::Complete));
}

#[test]
fn finish_checks_payload() {
    let mut p = OscParser::new();
    for &b in b"11;?" {
        p.feed(b);
    }
    assert!(matches!(p.finish(), OscResult::Complete));
}

#[test]
fn finish_rejects_non_query() {
    let mut p = OscParser::new();
    for &b in b"0;title" {
        p.feed(b);
    }
    assert!(matches!(p.finish(), OscResult::Reject));
}

#[test]
fn payload_limit_is_256() {
    assert_eq!(MAX_PAYLOAD, 256);
}

#[test]
fn empty_sequence_is_no_query() {
    let mut p = OscParser::new();
    assert!(matches!(p.finish(), OscResult::Reject));
    assert!(matches!(p.feed(0x07), OscResult::Reject));
}

#[test]
fn every_control_byte_but_bel_rejects_and_changes_nothing() {
    for byte in 0x00..=0x1fu8 {
        let mut p = OscParser::new();
        p.feed(b'?');
        let result = p.feed(byte);
        if byte == 0x07 {
            assert_eq!(result, OscResult::Complete);
        } else {
            assert_eq!(result, OscResult::Reject);
        }
        assert_eq!(p.finish(), OscResult::Complete);
    }
}

#[test]
fn high_bytes_belong_to_the_payload() {
    let mut p = OscParser::new();
    assert_eq!(p.feed(0x80), OscResult::Pending);
    assert_eq!(p.feed(0xff), OscResult::Pending);
    assert_eq!(p.feed(b'?'), OscResult::Pending);
    assert_eq!(p.finish(), OscResult::Complete);
}

#[test]
fn full_payload_still_ends_with_bel() {
    let mut p = OscParser::new();
    for _ in 0..MAX_PAYLOAD - 1 {
        p.feed(b'x');
    }
    p.feed(b'?');
    assert_eq!(p.feed(b'y'), OscResult::Reject);
    assert_eq!(p.feed(0x07), OscResult::Complete);
}

#[test]
fn reset_forgets_the_payload() {
    let mut p = OscParser::new();
    p.feed(b'?');
    p.reset();
    assert_eq!(p.finish(), OscResult::Reject);
    for _ in 0..MAX_PAYLOAD {
        assert_eq!(p.feed(b'x'), OscResult::Pending);
    }
}
