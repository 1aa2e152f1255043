//! What a task is, and what comes of running it.

use std::time::Instant;
use vstd::prelude::*;

verus! {

/// A point in time, as a line of output is stamped with it.
#[verifier::external_type_specification]
#[verifier::external_body]
pub struct ExInstant(Instant);

/// A task to run in the shell.
pub struct PtyTaskRequest {
    /// Number by which the shell reports the end of the task.
    pub id: u64,
    /// The shell command.
    pub command: String,
    /// The directory to change to first.
    pub cwd: Option<String>,
    /// Environment variables to export first, in this order.
    pub env: Vec<(String, String)>,
}

/// What came of a task.
pub struct PtyTaskResult {
    pub success: bool,
    /// The lines of output, each with the time at which it was seen.
    pub stdout_lines: Vec<(Instant, String)>,
    pub stderr_lines: Vec<(Instant, String)>,
    pub error: Option<String>,
}

/// The texts of stamped lines.
pub open spec fn line_texts(lines: Seq<(Instant, String)>) -> Seq<Seq<char>> {
    lines.map_values(|line: (Instant, String)| line.1@)
}

/// The names and values of environment variables.
pub open spec fn env_texts(env: Seq<(String, String)>) -> Seq<(Seq<char>, Seq<char>)> {
    env.map_values(|pair: (String, String)| (pair.0@, pair.1@))
}

/// Every stamped line has its text, and every variable its name and value, in order.
pub proof fn law_texts_in_order(
    lines: Seq<(Instant, String)>,
    env: Seq<(String, String)>,
    i: int,
)
    ensures
        line_texts(lines).len() == lines.len(),
        0 <= i < lines.len() ==> line_texts(lines)[i] == lines[i].1@,
        env_texts(env).len() == env.len(),
        0 <= i < env.len() ==> env_texts(env)[i].0 == env[i].0@ && env_texts(env)[i].1 == env[i].1@,
{
}

/// Calls `Instant::now`. Nothing is claimed of the time that it returns.
#[verifier::external_body]
pub(crate) fn now() -> Instant {
    Instant::now()
}

} // verus!
