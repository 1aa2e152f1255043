use devenv_shell::control_pipe::{message_text, FIFO_MODE};
use devenv_shell::{ControlMessage, ControlPipe};

#[test]
fn fifo_is_for_its_owner() {
    assert_eq!(FIFO_MODE, 0o600);
}

#[test]
fn created_pipe_keeps_its_path() {
    let fifo = ControlPipe::create(b"/tmp/fifo".to_vec()).ok().unwrap();
    assert_eq!(fifo.c_path().as_slice(), b"/tmp/fifo\0");
    let pipe = fifo.made(0).unwrap();
    assert_eq!(pipe.path().as_slice(), b"/tmp/fifo");
}

#[test]
fn failed_mkfifo_makes_no_pipe() {
    let fifo = ControlPipe::create(b"/tmp/fifo".to_vec()).ok().unwrap();
    assert!(fifo.made(-1).is_none());
    let fifo = ControlPipe::create(Vec::new()).ok().unwrap();
    assert_eq!(fifo.c_path().as_slice(), b"\0");
    assert!(fifo.made(1).is_none());
}

#[test]
fn path_with_nul_is_refused_at_the_first_one() {
    assert_eq!(ControlPipe::create(b"a\0b\0".to_vec()).err(), Some(1));
    assert_eq!(ControlPipe::create(b"\0".to_vec()).err(), Some(0));
}

#[test]
fn message_is_trimmed() {
    assert_eq!(message_text(19, " {\"type\":\"ready\"}\r\n"), Some("{\"type\":\"ready\"}"));
    assert_eq!(message_text(1, "\n"), Some(""));
}

#[test]
fn no_bytes_are_the_end_of_the_pipe() {
    assert_eq!(message_text(0, ""), None);
}

#[test]
fn messages_are_shown_as_debug_shows_them() {
    let messages = [
        ControlMessage::Ready,
        ControlMessage::TaskEnd { id: 0, exit_code: 0 },
        ControlMessage::TaskEnd { id: u64::MAX, exit_code: -7 },
        ControlMessage::TaskEnd { id: 10, exit_code: i32::MIN },
        ControlMessage::TaskEnd { id: 1234567890, exit_code: i32::MAX },
    ];
    for message in messages {
        assert_eq!(message.show(), format!("{:?}", message));
    }
    let end = ControlMessage::TaskEnd { id: 5, exit_code: 3 };
    assert_eq!(end.show(), "TaskEnd { id: 5, exit_code: 3 }");
    assert_eq!(ControlMessage::Ready.show(), "Ready");
}
