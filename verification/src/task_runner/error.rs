//! Errors of the task runner.

use std::io;
use vstd::prelude::*;
use vstd::string::*;

verus! {

/// An error of an input or output operation.
#[verifier::external_type_specification]
#[verifier::external_body]
pub struct ExIoError(io::Error);

/// Errors that can occur during task execution.
#[derive(Debug)]
pub enum TaskRunnerError {
    Pty(String),
    Io(io::Error),
    ShellNotReady,
    SpawnBlocking(String),
    ControlPipe(String),
}

impl TaskRunnerError {
    /// `text` says what the error is.
    pub open spec fn described_by(&self, text: Seq<char>) -> bool {
        match self {
            TaskRunnerError::Pty(e) => text == "PTY error: "@ + e@,
            TaskRunnerError::Io(e) => exists|s: String| #[trigger]
                to_string_from_display_ensures::<io::Error>(e, s) && text == "IO error: "@ + s@,
            TaskRunnerError::ShellNotReady => text == "shell closed before ready"@,
            TaskRunnerError::SpawnBlocking(e) => text == "spawn_blocking failed: "@ + e@,
            TaskRunnerError::ControlPipe(e) => text == "control pipe error: "@ + e@,
        }
    }

    /// What the error is, in words.
    pub fn message(&self) -> (res: String)
        ensures
            self.described_by(res@),
    {
        match self {
            TaskRunnerError::Pty(e) => "PTY error: ".to_owned().concat(e.as_str()),
            TaskRunnerError::Io(e) => "IO error: ".to_owned().concat(e.to_string().as_str()),
            TaskRunnerError::ShellNotReady => "shell closed before ready".to_owned(),
            TaskRunnerError::SpawnBlocking(e) => "spawn_blocking failed: ".to_owned().concat(
                e.as_str(),
            ),
            TaskRunnerError::ControlPipe(e) => "control pipe error: ".to_owned().concat(
                e.as_str(),
            ),
        }
    }
}

/// The words of an error: a fixed start that tells the kind, and what it holds behind it.
pub proof fn law_error_words(e: String, inner: io::Error, text: Seq<char>)
    ensures
        TaskRunnerError::Pty(e).described_by(text) <==> text == "PTY error: "@ + e@,
        TaskRunnerError::Io(inner).described_by(text) ==> exists|s: String| #[trigger]
            to_string_from_display_ensures::<io::Error>(&inner, s) && text == "IO error: "@ + s@,
        to_string_from_display_ensures::<io::Error>(&inner, e) ==> TaskRunnerError::Io(
            inner,
        ).described_by("IO error: "@ + e@),
        TaskRunnerError::ShellNotReady.described_by(text) <==> text == "shell closed before ready"@,
        TaskRunnerError::SpawnBlocking(e).described_by(text) <==> text == "spawn_blocking failed: "@
            + e@,
        TaskRunnerError::ControlPipe(e).described_by(text) <==> text == "control pipe error: "@
            + e@,
{
    if to_string_from_display_ensures::<io::Error>(&inner, e) {
        let error = TaskRunnerError::Io(inner);
        match error {
            TaskRunnerError::Io(x) => {
                assert(to_string_from_display_ensures::<io::Error>(&x, e));
                assert(error.described_by("IO error: "@ + e@));
            },
            _ => {},
        }
    }
}

impl From<io::Error> for TaskRunnerError {
    fn from(e: io::Error) -> (res: Self) {
        TaskRunnerError::Io(e)
    }
}

impl vstd::std_specs::convert::FromSpecImpl<io::Error> for TaskRunnerError {
    open spec fn obeys_from_spec() -> bool {
        true
    }

    open spec fn from_spec(e: io::Error) -> Self {
        TaskRunnerError::Io(e)
    }
}

} // verus!
