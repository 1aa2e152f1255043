//! Shell and PTY logic of devenv: decoding of terminal output, escape sequence
//! parsing, shell quoting, and the decisions of the task runner.

pub mod control_pipe;
pub mod escape;
pub mod protocol;
pub mod screen;
pub mod shell;
pub mod task_runner;
pub mod text;
pub mod utf8_accumulator;

pub use control_pipe::{ControlMessage, ControlPipe};
pub use protocol::{PtyTaskRequest, PtyTaskResult};
pub use screen::Screen;
pub use task_runner::error::TaskRunnerError;
pub use utf8_accumulator::Utf8Accumulator;
