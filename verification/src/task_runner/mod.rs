//! The decisions of the task runner, which runs tasks in the shell of a PTY.
//!
//! A control pipe carries structured messages (shell readiness, task completion
//! with exit code), and a fence marker in the PTY output frames the output of a
//! task.

pub mod command;
pub mod drain;
pub mod error;
pub mod execute;
pub mod ready;
pub mod run;
