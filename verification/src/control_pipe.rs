//! Out-of-band control pipe for PTY task runner.
//!
//! A named pipe (FIFO) is a side channel by which the shell can send structured
//! JSON messages without mixing them into PTY output. The FIFO path is passed to
//! the shell via `DEVENV_CONTROL_FIFO` env var; the rcfile opens it on fd 3.

use crate::text::{push_decimal, push_signed_decimal, trim};
use vstd::prelude::*;
use vstd::string::*;

verus! {

/// The permissions of the FIFO: its owner may read and write it.
pub const FIFO_MODE: u32 = 0o600;

/// Messages sent by the shell through the control pipe.
#[derive(Debug, Clone, Copy, PartialEq, Eq, Structural)]
pub enum ControlMessage {
    /// Shell initialization is complete.
    Ready,
    /// A task finished executing.
    TaskEnd {
        /// Task ID matching the `PtyTaskRequest.id`.
        id: u64,
        /// Process exit code.
        exit_code: i32,
    },
}

impl ControlMessage {
    /// The message as it is shown in errors.
    pub open spec fn shown(self) -> Seq<char> {
        match self {
            ControlMessage::Ready => "Ready"@,
            ControlMessage::TaskEnd { id, exit_code } => "TaskEnd { id: "@ + crate::text::decimal(
                id as nat,
            ) + ", exit_code: "@ + crate::text::signed_decimal(exit_code as int) + " }"@,
        }
    }

    /// The message as it is shown in errors.
    pub fn show(&self) -> (res: String)
        ensures
            res@ == self.shown(),
    {
        match self {
            ControlMessage::Ready => "Ready".to_owned(),
            ControlMessage::TaskEnd { id, exit_code } => {
                let mut res = "TaskEnd { id: ".to_owned();
                push_decimal(&mut res, *id);
                res.append(", exit_code: ");
                push_signed_decimal(&mut res, *exit_code);
                res.append(" }");
                res
            },
        }
    }
}

/// The parts of what is shown of the end of a task can be told apart: the number ends at
/// the first character that is no digit.
proof fn lemma_shown_parts(
    digits: Seq<char>,
    rest: Seq<char>,
    other_digits: Seq<char>,
    other_rest: Seq<char>,
)
    requires
        digits + rest == other_digits + other_rest,
        forall|i: int| 0 <= i < digits.len() ==> crate::text::is_digit(#[trigger] digits[i]),
        forall|i: int|
            0 <= i < other_digits.len() ==> crate::text::is_digit(#[trigger] other_digits[i]),
        rest.len() > 0 && !crate::text::is_digit(rest[0]),
        other_rest.len() > 0 && !crate::text::is_digit(other_rest[0]),
    ensures
        digits == other_digits,
        rest == other_rest,
{
    let (a, b) = (digits + rest, other_digits + other_rest);
    let (m, n) = (digits.len() as int, other_digits.len() as int);
    assert(a[m] == rest[0]);
    assert(b[n] == other_rest[0]);
    if m < n {
        assert(b[m] == other_digits[m]);
    }
    if n < m {
        assert(a[n] == digits[n]);
    }
    assert(digits =~= a.take(m));
    assert(other_digits =~= b.take(m));
    assert(rest =~= a.skip(m));
    assert(other_rest =~= b.skip(m));
}

/// Different messages are shown differently: the number and the exit code of a task can
/// be read off.
pub proof fn law_messages_are_shown_apart(message: ControlMessage, other: ControlMessage)
    requires
        message.shown() == other.shown(),
    ensures
        message == other,
{
    reveal_strlit("Ready");
    reveal_strlit("TaskEnd { id: ");
    reveal_strlit(", exit_code: ");
    reveal_strlit(" }");
    assert(message is Ready ==> message.shown()[0] == 'R');
    assert(other is Ready ==> other.shown()[0] == 'R');
    assert(message is TaskEnd ==> message.shown()[0] == 'T');
    assert(other is TaskEnd ==> other.shown()[0] == 'T');
    if let ControlMessage::TaskEnd { id, exit_code } = message {
        if let ControlMessage::TaskEnd { id: other_id, exit_code: other_code } = other {
            let (a, b) = (crate::text::decimal(id as nat), crate::text::decimal(other_id as nat));
            let x = crate::text::signed_decimal(exit_code as int);
            let y = crate::text::signed_decimal(other_code as int);
            let (rest, other_rest) = (", exit_code: "@ + x + " }"@, ", exit_code: "@ + y + " }"@);
            let start = "TaskEnd { id: "@.len() as int;
            assert(a + rest =~= message.shown().skip(start));
            assert(b + other_rest =~= other.shown().skip(start));
            crate::text::lemma_decimal_digits(id as nat);
            crate::text::lemma_decimal_digits(other_id as nat);
            lemma_shown_parts(a, rest, b, other_rest);
            crate::text::lemma_decimal_injective(id as nat, other_id as nat);
            let middle = ", exit_code: "@.len() as int;
            assert(x =~= rest.subrange(middle, rest.len() - 2));
            assert(y =~= other_rest.subrange(middle, other_rest.len() - 2));
            crate::text::lemma_signed_decimal_injective(exit_code as int, other_code as int);
        }
    }
}

/// What is shown of a message: its name alone, or the number and the exit code of the
/// task, which read back.
pub proof fn law_message_is_shown(id: u64, exit_code: i32)
    ensures
        ControlMessage::Ready.shown() == "Ready"@,
        ({
            let shown = ControlMessage::TaskEnd { id, exit_code }.shown();
            let digits = crate::text::decimal(id as nat);
            let code = crate::text::signed_decimal(exit_code as int);
            &&& shown == "TaskEnd { id: "@ + digits + ", exit_code: "@ + code + " }"@
            &&& crate::text::digits_value(digits) == id
            &&& exit_code >= 0 ==> crate::text::digits_value(code) == exit_code
            &&& exit_code < 0 ==> code == seq!['-'] + crate::text::signed_decimal(-exit_code)
        }),
{
    crate::text::law_decimal_reads_back(id as nat);
    if exit_code >= 0 {
        crate::text::law_signed_decimal_reads_back(exit_code as nat);
    } else {
        crate::text::law_signed_decimal_reads_back((-exit_code) as nat);
    }
}

/// Owns the FIFO file on disk.
pub struct ControlPipe {
    path: Vec<u8>,
}

/// A FIFO that is yet to be made.
pub struct NewFifo {
    c_path: Vec<u8>,
}

impl ControlPipe {
    /// The bytes of the path.
    pub closed spec fn path_bytes(&self) -> Seq<u8> {
        self.path@
    }

    /// The path holds no NUL.
    pub open spec fn wf(&self) -> bool {
        !self.path_bytes().contains(0)
    }

    /// Prepare a new FIFO at `path`.
    ///
    /// Returns the position of the first NUL in the path, where there is one.
    pub fn create(path: Vec<u8>) -> (res: Result<NewFifo, usize>)
        ensures
            res is Ok <==> !path@.contains(0),
            res matches Ok(fifo) ==> fifo.wf() && fifo.path_bytes() == path@,
            res matches Err(i) ==> i < path@.len() && path@[i as int] == 0 && !path@.take(
                i as int,
            ).contains(0),
    {
        let mut i: usize = 0;
        while i < path.len()
            invariant
                i <= path@.len(),
                forall|j: int| 0 <= j < i ==> path@[j] != 0,
            decreases path@.len() - i,
        {
            if path[i] == 0 {
                return Err(i);
            }
            i += 1;
        }
        let ghost bytes = path@;
        let mut c_path = path;
        c_path.push(0);
        assert(c_path@.drop_last() =~= bytes);
        Ok(NewFifo { c_path })
    }

    /// Path to the FIFO (for `DEVENV_CONTROL_FIFO` env var).
    pub fn path(&self) -> (res: &Vec<u8>)
        ensures
            res@ == self.path_bytes(),
    {
        &self.path
    }
}

impl NewFifo {
    /// The bytes of the path.
    pub closed spec fn path_bytes(&self) -> Seq<u8> {
        self.c_path@.drop_last()
    }

    /// The path is closed by a NUL and holds no other.
    pub closed spec fn wf(&self) -> bool {
        &&& self.c_path@.len() > 0
        &&& self.c_path@.last() == 0
        &&& !self.path_bytes().contains(0)
    }

    /// The path as `mkfifo` takes it, closed by a NUL.
    pub fn c_path(&self) -> (res: &Vec<u8>)
        requires
            self.wf(),
        ensures
            res@ == self.path_bytes().push(0),
            !self.path_bytes().contains(0),
    {
        assert(self.c_path@.drop_last().push(0) =~= self.c_path@);
        &self.c_path
    }

    /// The pipe, where `mkfifo` returned 0; any other return is a failure (such as
    /// that the path already exists).
    pub fn made(self, ret: i32) -> (res: Option<ControlPipe>)
        requires
            self.wf(),
        ensures
            res is Some <==> ret == 0,
            res matches Some(pipe) ==> pipe.wf() && pipe.path_bytes() == self.path_bytes(),
    {
        if ret != 0 {
            return None;
        }
        let mut path = self.c_path;
        path.pop();
        Some(ControlPipe { path })
    }
}

/// The text of the next message, where a read of a line gave `n` bytes and the
/// text `line`: what stands between the whitespace around it.
///
/// Returns `None` on EOF (shell closed fd 3), which is a read of no bytes.
pub fn message_text<'a>(n: usize, line: &'a str) -> (res: Option<&'a str>)
    ensures
        res is None <==> n == 0,
        res matches Some(text) ==> text@ == crate::text::trimmed(line@),
{
    if n == 0 {
        return None;
    }
    Some(trim(line))
}

} // verus!
