use devenv_shell::task_runner::drain::{drain_line, says_twice, Drain, DrainEvent, DRAIN_TIMEOUT_SECS};
use devenv_shell::task_runner::execute::{TaskRun, TaskStep};
use devenv_shell::task_runner::ready::{wait_for_shell_ready, PtyRead, WaitEvent, WaitStep};
use devenv_shell::task_runner::run::{PtyCommand, RunAction, RunEvent, RunMode, RunPhase, TaskLoop};
use devenv_shell::{ControlMessage, PtyTaskResult, Screen, TaskRunnerError};
use std::io;
use std::time::Instant;

fn io_error(text: &str) -> io::Error {
    io::Error::new(io::ErrorKind::Other, text.to_string())
}

fn data(text: &str) -> PtyRead {
    PtyRead::Data(text.as_bytes().to_vec())
}

fn control(msg: Result<Option<ControlMessage>, String>) -> WaitEvent {
    WaitEvent::Control(msg, data("output"))
}

fn lines(result: &PtyTaskResult) -> Vec<&str> {
    result.stdout_lines.iter().map(|line| line.1.as_str()).collect()
}

/// Runs a task whose output is `chunks`, up to the report of its exit code.
fn read_all(id: u64, chunks: &[&str]) -> TaskRun {
    let mut run = TaskRun::new(id);
    for chunk in chunks {
        if run.step() == TaskStep::Read {
            run.on_read(data(chunk), None);
        }
    }
    run
}

fn finish_well(mut run: TaskRun, id: u64, exit_code: i32) -> PtyTaskResult {
    assert_eq!(run.step(), TaskStep::Report);
    run.on_report(Ok(Some(ControlMessage::TaskEnd { id, exit_code })));
    assert_eq!(run.step(), TaskStep::Write);
    run.on_write(Ok(Ok(())));
    assert_eq!(run.step(), TaskStep::Reply);
    run.finish()
}

// Errors

#[test]
fn error_messages() {
    assert_eq!(TaskRunnerError::Pty("x".to_string()).message(), "PTY error: x");
    assert_eq!(TaskRunnerError::Io(io_error("gone")).message(), "IO error: gone");
    assert_eq!(TaskRunnerError::ShellNotReady.message(), "shell closed before ready");
    assert_eq!(TaskRunnerError::SpawnBlocking("x".to_string()).message(), "spawn_blocking failed: x");
    assert_eq!(TaskRunnerError::ControlPipe("x".to_string()).message(), "control pipe error: x");
    let error: TaskRunnerError = io_error("gone").into();
    assert!(matches!(error, TaskRunnerError::Io(_)));
}

// Waiting

#[test]
fn ready_message_ends_the_wait() {
    let step = wait_for_shell_ready(control(Ok(Some(ControlMessage::Ready))), None);
    assert!(matches!(step, WaitStep::Ready));
}

#[test]
fn other_messages_and_output_are_passed_over() {
    let end = ControlMessage::TaskEnd { id: 1, exit_code: 0 };
    assert!(matches!(wait_for_shell_ready(control(Ok(Some(end))), None), WaitStep::Continue));
    assert!(matches!(wait_for_shell_ready(WaitEvent::Pty(data("x")), None), WaitStep::Continue));
}

#[test]
fn closed_channels_fail_the_wait() {
    let closed = wait_for_shell_ready(control(Ok(None)), None);
    assert!(matches!(closed, WaitStep::Fail(TaskRunnerError::ShellNotReady)));
    let closed = wait_for_shell_ready(WaitEvent::Pty(data("")), None);
    assert!(matches!(closed, WaitStep::Fail(TaskRunnerError::ShellNotReady)));
}

#[test]
fn errors_fail_the_wait() {
    let event = control(Err("bad".to_string()));
    match wait_for_shell_ready(event, None) {
        WaitStep::Fail(TaskRunnerError::ControlPipe(e)) => assert_eq!(e, "bad"),
        _ => panic!(),
    }
    let event = WaitEvent::Pty(PtyRead::Failed(io_error("gone")));
    match wait_for_shell_ready(event, None) {
        WaitStep::Fail(TaskRunnerError::Io(e)) => assert_eq!(format!("{}", e), "gone"),
        _ => panic!(),
    }
    let event = WaitEvent::Pty(PtyRead::NotRun("panicked".to_string()));
    match wait_for_shell_ready(event, None) {
        WaitStep::Fail(TaskRunnerError::SpawnBlocking(e)) => assert_eq!(e, "panicked"),
        _ => panic!(),
    }
}

#[test]
fn output_during_the_wait_is_shown() {
    let mut vt = avt::Vt::new(20, 2);
    {
        let mut screen = Screen::new(&mut vt).unwrap();
        wait_for_shell_ready(WaitEvent::Pty(data("boot\u{1b}[1m ok")), Some(&mut screen));
        wait_for_shell_ready(WaitEvent::Pty(PtyRead::Data(b"\xFF".to_vec())), Some(&mut screen));
    }
    assert_eq!(vt.text()[0], "boot ok\u{FFFD}");
}

#[test]
fn read_beside_a_message_is_shown_and_does_not_count() {
    let mut vt = avt::Vt::new(20, 2);
    {
        let mut screen = Screen::new(&mut vt).unwrap();
        wait_for_shell_ready(WaitEvent::Pty(data("boot ")), Some(&mut screen));
        let end = Ok(Some(ControlMessage::TaskEnd { id: 1, exit_code: 0 }));
        let step = wait_for_shell_ready(WaitEvent::Control(end, data("and ")), Some(&mut screen));
        assert!(matches!(step, WaitStep::Continue));
        let ready = Ok(Some(ControlMessage::Ready));
        let step = wait_for_shell_ready(WaitEvent::Control(ready, data("go")), Some(&mut screen));
        assert!(matches!(step, WaitStep::Ready));
    }
    assert_eq!(vt.text()[0], "boot and go");
    for read in [data(""), PtyRead::Failed(io_error("x")), PtyRead::NotRun("x".to_string())] {
        let ready = Ok(Some(ControlMessage::Ready));
        assert!(matches!(wait_for_shell_ready(WaitEvent::Control(ready, read), None), WaitStep::Ready));
    }
}

// Running a task

#[test]
fn successful_task() {
    let run = read_all(5, &["one\r\ntwo\r\n", "__DEVENV_FENCE_5__\r\n"]);
    let result = finish_well(run, 5, 0);
    assert!(result.success);
    assert_eq!(result.error, None);
    assert_eq!(lines(&result), vec!["one\r", "two\r"]);
    assert!(result.stderr_lines.is_empty());
    assert!(result.stdout_lines[0].0 <= result.stdout_lines[1].0);
}

#[test]
fn lines_keep_the_times_at_which_they_were_seen() {
    let start = Instant::now();
    let mut run = read_all(1, &["one\n"]);
    let middle = Instant::now();
    run.on_output("two\n__DEVENV_FENCE_1__\n");
    let end = Instant::now();
    let result = finish_well(run, 1, 0);
    let times: Vec<Instant> = result.stdout_lines.iter().map(|line| line.0).collect();
    assert!(start <= times[0] && times[0] <= middle);
    assert!(middle <= times[1] && times[1] <= end);
}

#[test]
fn output_is_the_same_however_it_is_cut() {
    let output = "a\nbé\n\n__DEVENV_FENCE_9__ x\n__DEVENV_FENCE_9__\nafter\n";
    let chars: Vec<char> = output.chars().collect();
    for i in 0..chars.len() {
        let front: String = chars[..i].iter().collect();
        let back: String = chars[i..].iter().collect();
        let mut run = TaskRun::new(9);
        run.on_output(&front);
        if run.step() == TaskStep::Read {
            run.on_output(&back);
        }
        let result = finish_well(run, 9, 0);
        assert_eq!(lines(&result), vec!["a", "bé", "", "__DEVENV_FENCE_9__ x"]);
    }
}

#[test]
fn echoed_command_is_no_fence() {
    let run = read_all(1, &["$ true; echo '__DEVENV_FENCE_1__'\r\n", "__DEVENV_FENCE_2__\n"]);
    assert_eq!(run.step(), TaskStep::Read);
}

#[test]
fn fence_is_found_behind_escape_sequences() {
    let run = read_all(1, &["\u{1b}[?2004l\r__DEVENV_FENCE_1__\r\n"]);
    let result = finish_well(run, 1, 0);
    assert!(lines(&result).is_empty());
}

#[test]
fn fence_without_newline_is_awaited() {
    let mut run = read_all(1, &["__DEVENV_FENCE_1__"]);
    assert_eq!(run.step(), TaskStep::Read);
    run.on_read(data("\n"), None);
    assert_eq!(run.step(), TaskStep::Report);
}

#[test]
fn invalid_output_is_replaced() {
    let mut run = TaskRun::new(1);
    run.on_read(PtyRead::Data(b"a\xFFb\n__DEVENV_FENCE_1__\n".to_vec()), None);
    let result = finish_well(run, 1, 0);
    assert_eq!(lines(&result), vec!["a\u{FFFD}b"]);
}

#[test]
fn task_output_is_shown() {
    let mut vt = avt::Vt::new(30, 4);
    {
        let mut screen = Screen::new(&mut vt).unwrap();
        let mut run = TaskRun::new(1);
        run.on_read(data("hello\r\n__DEVENV_FENCE_1__\r\nmore"), Some(&mut screen));
        assert_eq!(run.step(), TaskStep::Report);
    }
    assert_eq!(vt.text()[0], "hello");
    assert_eq!(vt.text()[1], "__DEVENV_FENCE_1__");
    assert_eq!(vt.text()[2], "more");
}

#[test]
fn exit_code_other_than_zero_fails_the_task() {
    let run = read_all(1, &["x\n__DEVENV_FENCE_1__\n"]);
    let result = finish_well(run, 1, 2);
    assert!(!result.success);
    assert_eq!(result.error.as_deref(), Some("Task exited with code 2"));
    assert_eq!(lines(&result), vec!["x"]);
    let run = read_all(1, &["__DEVENV_FENCE_1__\n"]);
    let result = finish_well(run, 1, -1);
    assert_eq!(result.error.as_deref(), Some("Task exited with code -1"));
}

fn read_failure(read: PtyRead) -> PtyTaskResult {
    let mut run = read_all(1, &["x\n"]);
    run.on_read(read, None);
    assert_eq!(run.step(), TaskStep::Reply);
    run.finish()
}

#[test]
fn failed_reads_end_the_task() {
    let result = read_failure(data(""));
    assert!(!result.success);
    assert_eq!(result.error.as_deref(), Some("PTY closed unexpectedly"));
    assert_eq!(lines(&result), vec!["x"]);
    let result = read_failure(PtyRead::Failed(io_error("gone")));
    assert_eq!(result.error.as_deref(), Some("PTY read error: gone"));
    let result = read_failure(PtyRead::NotRun("panicked".to_string()));
    assert_eq!(result.error.as_deref(), Some("spawn_blocking failed: panicked"));
}

fn report_failure(msg: Result<Option<ControlMessage>, String>) -> PtyTaskResult {
    let mut run = read_all(1, &["__DEVENV_FENCE_1__\n"]);
    run.on_report(msg);
    assert_eq!(run.step(), TaskStep::Reply);
    run.finish()
}

#[test]
fn unexpected_reports_end_the_task() {
    let result = report_failure(Ok(Some(ControlMessage::TaskEnd { id: 2, exit_code: 0 })));
    assert!(!result.success);
    assert_eq!(
        result.error.as_deref(),
        Some("unexpected control message: TaskEnd { id: 2, exit_code: 0 }")
    );
    let result = report_failure(Ok(Some(ControlMessage::Ready)));
    assert_eq!(result.error.as_deref(), Some("unexpected control message: Ready"));
    let result = report_failure(Ok(None));
    assert_eq!(result.error.as_deref(), Some("control pipe closed"));
    let result = report_failure(Err("bad".to_string()));
    assert_eq!(result.error.as_deref(), Some("control pipe error: bad"));
}

fn write_failure(outcome: Result<Result<(), String>, String>) -> PtyTaskResult {
    let mut run = read_all(1, &["__DEVENV_FENCE_1__\n"]);
    run.on_report(Ok(Some(ControlMessage::TaskEnd { id: 1, exit_code: 0 })));
    run.on_write(outcome);
    assert_eq!(run.step(), TaskStep::Reply);
    run.finish()
}

#[test]
fn failed_writes_fail_the_task() {
    let result = write_failure(Ok(Err("gone".to_string())));
    assert!(!result.success);
    assert_eq!(result.error.as_deref(), Some("Failed to write to PTY: gone"));
    let result = write_failure(Err("boom".to_string()));
    assert!(!result.success);
    assert_eq!(result.error.as_deref(), Some("PTY write task panicked: boom"));
}

// Draining

#[test]
fn drain_lines() {
    assert_eq!(drain_line(), " echo '__DEVENV_DRAIN__'\n echo '__DEVENV_DRAIN__'; set -o history\n");
    assert_eq!(DRAIN_TIMEOUT_SECS, 5);
}

#[test]
fn lines_that_say_the_word_are_counted() {
    let w = "w".to_string();
    assert!(!says_twice("", &w));
    assert!(!says_twice("w", &w));
    assert!(says_twice("w\nw", &w));
    assert!(says_twice("w\r\nx\nw\r\n", &w));
    assert!(says_twice("w\r\r\n\u{1b}[1m w \r", &w));
    assert!(!says_twice("w\nww\nxw\n", &w));
    assert!(says_twice("w\nw\nw\n", &w));
    let empty = String::new();
    assert!(!says_twice("\n", &empty));
    assert!(says_twice("\n\r\n", &empty));
    assert!(!says_twice("\nx", &empty));
    assert!(says_twice("\n\r", &empty));
}

#[test]
fn carriage_return_belongs_to_the_line_ending() {
    // A carriage return inside of an unfinished escape sequence is no text of it.
    let w = "a".to_string();
    assert!(says_twice("a\u{1b}]0;t\r\na\n", &w));
}

#[test]
fn drain_ends_with_the_second_fence() {
    let mut vt = avt::Vt::new(40, 10);
    {
        let mut screen = Screen::new(&mut vt).unwrap();
        let mut drain = Drain::new();
        let echo = " echo '__DEVENV_DRAIN__'\r\n";
        assert!(!drain.on_event(DrainEvent::Read(data(echo)), Some(&mut screen)));
        assert!(!drain.on_event(DrainEvent::Read(data("__DEVENV_DRAIN__\r\nprompt")), Some(&mut screen)));
        assert!(!drain.on_event(DrainEvent::Read(data("\r\n__DEVENV_")), Some(&mut screen)));
        assert!(drain.on_event(DrainEvent::Read(data("DRAIN__")), Some(&mut screen)));
    }
    assert_eq!(vt.text()[1], "__DEVENV_DRAIN__");
    assert_eq!(vt.text()[2], "prompt");
}

#[test]
fn prompt_with_escape_sequences_does_not_hide_the_fences() {
    let mut drain = Drain::new();
    assert!(!drain.on_output("__DEVENV_DRAIN__\r\n\u{1b}[1;32muser\u{1b}[0m$ \r\n"));
    assert!(!drain.on_event(DrainEvent::Read(data("\u{1b}[1m__DEVENV_DRAIN\u{1b}[m\r\n")), None));
    assert!(drain.on_event(DrainEvent::Read(data("__DEVENV_DRAIN__\r\n")), None));
}

#[test]
fn drain_ends_with_anything_but_output() {
    let mut vt = avt::Vt::new(40, 10);
    let mut screen = Screen::new(&mut vt).unwrap();
    assert!(Drain::new().on_event(DrainEvent::NotSent, Some(&mut screen)));
    assert!(Drain::new().on_event(DrainEvent::TimedOut, Some(&mut screen)));
    assert!(Drain::new().on_event(DrainEvent::Read(data("")), Some(&mut screen)));
    assert!(Drain::new().on_event(DrainEvent::Read(PtyRead::Failed(io_error("x"))), Some(&mut screen)));
    assert!(Drain::new().on_event(DrainEvent::Read(PtyRead::NotRun("x".to_string())), Some(&mut screen)));
}

// The loop

#[test]
fn command_lines() {
    assert_eq!(
        PtyCommand::DisablePrompt.text(),
        "__devenv_saved_pc=\"$PROMPT_COMMAND\"; PROMPT_COMMAND=\n"
    );
    assert_eq!(PtyCommand::RestorePrompt.text(), "PROMPT_COMMAND=\"$__devenv_saved_pc\"\n");
    assert_eq!(PtyCommand::EnableHistory.text(), " set -o history\n");
}

#[test]
fn direct_run() {
    let (mut run, action) = TaskLoop::start(RunMode::Direct);
    assert!(matches!(action, RunAction::Write(PtyCommand::DisablePrompt)));
    assert!(matches!(run.next(RunEvent::Written(Ok(()))), RunAction::Flush));
    assert!(matches!(run.next(RunEvent::Flushed(Ok(()))), RunAction::NextRequest));
    for _ in 0..3 {
        assert!(matches!(run.next(RunEvent::Request(true)), RunAction::Execute));
        assert!(matches!(run.next(RunEvent::Executed), RunAction::NextRequest));
    }
    assert!(matches!(run.next(RunEvent::Request(false)), RunAction::Write(PtyCommand::RestorePrompt)));
    assert!(matches!(run.next(RunEvent::Written(Ok(()))), RunAction::Flush));
    assert!(matches!(run.next(RunEvent::Flushed(Ok(()))), RunAction::Write(PtyCommand::EnableHistory)));
    assert!(matches!(run.next(RunEvent::Written(Ok(()))), RunAction::Flush));
    assert!(matches!(run.next(RunEvent::Flushed(Ok(()))), RunAction::Return(Ok(()))));
    assert_eq!(run.current_phase(), RunPhase::Over);
}

#[test]
fn run_on_screen() {
    let (mut run, action) = TaskLoop::start(RunMode::Screen);
    assert!(matches!(action, RunAction::WaitForShell));
    assert!(matches!(run.next(RunEvent::Shell(Ok(()))), RunAction::NotifyReady));
    assert!(matches!(run.next(RunEvent::Notified), RunAction::Write(PtyCommand::DisablePrompt)));
    assert!(matches!(run.next(RunEvent::Written(Ok(()))), RunAction::Flush));
    assert!(matches!(run.next(RunEvent::Flushed(Ok(()))), RunAction::NextRequest));
    assert!(matches!(run.next(RunEvent::Request(false)), RunAction::Write(PtyCommand::RestorePrompt)));
    assert!(matches!(run.next(RunEvent::Written(Ok(()))), RunAction::Flush));
    assert!(matches!(run.next(RunEvent::Flushed(Ok(()))), RunAction::Drain));
    assert!(matches!(run.next(RunEvent::Drained), RunAction::Return(Ok(()))));
}

fn pty_error(action: RunAction) -> String {
    match action {
        RunAction::Return(Err(TaskRunnerError::Pty(e))) => e,
        _ => panic!(),
    }
}

#[test]
fn failures_end_the_run() {
    let gone = || "gone".to_string();
    let (mut run, _) = TaskLoop::start(RunMode::Screen);
    let action = run.next(RunEvent::Shell(Err(TaskRunnerError::ShellNotReady)));
    assert!(matches!(action, RunAction::Return(Err(TaskRunnerError::ShellNotReady))));

    let (mut run, _) = TaskLoop::start(RunMode::Direct);
    let action = run.next(RunEvent::Written(Err(gone())));
    assert_eq!(pty_error(action), "Failed to disable PROMPT_COMMAND: gone");

    let (mut run, _) = TaskLoop::start(RunMode::Direct);
    run.next(RunEvent::Written(Ok(())));
    assert_eq!(pty_error(run.next(RunEvent::Flushed(Err(gone())))), "Failed to flush PTY: gone");

    let (mut run, _) = TaskLoop::start(RunMode::Direct);
    run.next(RunEvent::Written(Ok(())));
    run.next(RunEvent::Flushed(Ok(())));
    run.next(RunEvent::Request(false));
    let action = run.next(RunEvent::Written(Err(gone())));
    assert_eq!(pty_error(action), "Failed to restore PROMPT_COMMAND: gone");
    assert_eq!(run.current_phase(), RunPhase::Over);

    let (mut run, _) = TaskLoop::start(RunMode::Direct);
    run.next(RunEvent::Written(Ok(())));
    run.next(RunEvent::Flushed(Ok(())));
    run.next(RunEvent::Request(false));
    run.next(RunEvent::Written(Ok(())));
    run.next(RunEvent::Flushed(Ok(())));
    let action = run.next(RunEvent::Written(Err(gone())));
    assert_eq!(pty_error(action), "Failed to re-enable history: gone");
}
