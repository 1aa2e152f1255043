//! Running one task: reading its output up to the fence, then its exit code, then
//! how its command was written, and the result of all that.

use crate::control_pipe::ControlMessage;
use crate::protocol::{now, PtyTaskResult};
use crate::screen::{feed_shown, Screen};
use crate::task_runner::command::fence;
use crate::task_runner::ready::PtyRead;
use crate::text::{push_signed_decimal, says};
use crate::utf8_accumulator::from_utf8_lossy;
use std::io;
use std::time::Instant;
use vstd::prelude::*;
use vstd::string::*;

verus! {

/// What a task waits for.
#[derive(Debug, Clone, Copy, PartialEq, Eq, Structural)]
pub enum TaskStep {
    /// Output of the PTY.
    Read,
    /// The next message of the control pipe.
    Report,
    /// The end of the write of its command line.
    Write,
    /// Nothing: its result can be sent.
    Reply,
}

/// The index of the first line that says `word`; the number of lines where none
/// does.
pub open spec fn first_saying(lines: Seq<Seq<char>>, word: Seq<char>) -> int
    decreases lines.len(),
{
    if lines.len() == 0 || crate::text::judged_line_says(lines[0], word) {
        0
    } else {
        1 + first_saying(lines.drop_first(), word)
    }
}

/// The state of a running task.
#[verifier::ext_equal]
pub struct TaskState {
    pub id: u64,
    /// The output behind its last newline.
    pub unfinished: Seq<char>,
    /// The lines of output before the fence.
    pub lines: Seq<Seq<char>>,
    pub exit_code: Option<i32>,
    pub error: Option<Seq<char>>,
    pub step: TaskStep,
}

impl TaskState {
    /// A task that was just started.
    pub open spec fn started(id: u64) -> TaskState {
        TaskState {
            id,
            unfinished: seq![],
            lines: seq![],
            exit_code: None,
            error: None,
            step: TaskStep::Read,
        }
    }

    pub open spec fn fence(self) -> Seq<char> {
        crate::task_runner::command::fence_text(self.id as nat)
    }

    /// The lines that `text` completes.
    pub open spec fn completed(self, text: Seq<char>) -> Seq<Seq<char>> {
        crate::text::complete_lines(self.unfinished + text)
    }

    /// Of the lines that `text` completes, up to the first that says the fence, those
    /// without the escape character are judged by what they show as they are.
    pub open spec fn plain_lines_judged(self, text: Seq<char>) -> bool {
        let lines = self.completed(text);
        forall|i: int|
            #![trigger lines[i]]
            0 <= i < lines.len() && i <= first_saying(lines, self.fence())
                && !lines[i].contains('\u{1B}') ==> crate::text::line_says(lines[i], self.fence())
                == crate::text::plain_line_says(lines[i], self.fence())
    }

    /// The state after output: the completed lines are kept, up to the first that
    /// says the fence, which ends the output.
    pub open spec fn after_output(self, text: Seq<char>) -> TaskState {
        let lines = self.completed(text);
        let n = first_saying(lines, self.fence());
        if n < lines.len() {
            TaskState {
                unfinished: seq![],
                lines: self.lines + lines.take(n),
                step: TaskStep::Report,
                ..self
            }
        } else {
            TaskState {
                unfinished: crate::text::unfinished_line(self.unfinished + text),
                lines: self.lines + lines,
                ..self
            }
        }
    }

    /// The state after a failure, which ends the task.
    pub open spec fn failed(self, error: Seq<char>) -> TaskState {
        TaskState { error: Some(error), step: TaskStep::Reply, ..self }
    }

    /// The state after the control pipe was read: only the end of
    /// the same task is expected there.
    pub open spec fn after_report(
        self,
        msg: Result<Option<ControlMessage>, String>,
    ) -> TaskState {
        match msg {
            Ok(Some(message)) => match message {
                ControlMessage::TaskEnd { id, exit_code } if id == self.id => TaskState {
                    exit_code: Some(exit_code),
                    step: TaskStep::Write,
                    ..self
                },
                _ => self.failed("unexpected control message: "@ + message.shown()),
            },
            Ok(None) => self.failed("control pipe closed"@),
            Err(e) => self.failed("control pipe error: "@ + e@),
        }
    }

    /// The state after the write of the command line ended: well, with an error, or
    /// not at all.
    pub open spec fn after_write(self, outcome: Result<Result<(), String>, String>) -> TaskState {
        match outcome {
            Ok(Ok(())) => TaskState { step: TaskStep::Reply, ..self },
            Ok(Err(e)) => self.failed("Failed to write to PTY: "@ + e@),
            Err(e) => self.failed("PTY write task panicked: "@ + e@),
        }
    }

    /// What was wrong: the failure, or else an exit code other than 0.
    pub open spec fn final_error(self) -> Option<Seq<char>> {
        if self.error is Some {
            self.error
        } else {
            let code = match self.exit_code {
                Some(code) => code as int,
                None => 1,
            };
            if code == 0 {
                None
            } else {
                Some("Task exited with code "@ + crate::text::signed_decimal(code))
            }
        }
    }
}

/// Where no line of `a` says the word, the first that says it in `a + b` is that of
/// `b`; otherwise it is that of `a`.
proof fn lemma_first_saying_concat(a: Seq<Seq<char>>, b: Seq<Seq<char>>, word: Seq<char>)
    ensures
        0 <= first_saying(a, word) <= a.len(),
        first_saying(a, word) < a.len() ==> first_saying(a + b, word) == first_saying(a, word),
        first_saying(a, word) == a.len() ==> first_saying(a + b, word) == a.len() + first_saying(
            b,
            word,
        ),
    decreases a.len(),
{
    if a.len() == 0 {
        assert(a + b =~= b);
    } else {
        lemma_first_saying_concat(a.drop_first(), b, word);
        assert((a + b).drop_first() =~= a.drop_first() + b);
    }
}

/// Output may come in any pieces: as long as no fence was seen, two pieces do what
/// their concatenation does.
pub proof fn law_output_in_pieces(state: TaskState, a: Seq<char>, b: Seq<char>)
    requires
        state.step == TaskStep::Read,
        state.after_output(a).step == TaskStep::Read,
    ensures
        state.after_output(a).after_output(b) == state.after_output(a + b),
{
    let s = state.unfinished;
    let (first, second) = (state.completed(a), state.after_output(a).completed(b));
    crate::text::law_lines_piecewise(s + a, b);
    assert(s + a + b =~= s + (a + b));
    assert(state.completed(a + b) == first + second);
    lemma_first_saying_concat(first, second, state.fence());
    lemma_first_saying_concat(second, seq![], state.fence());
    assert(state.lines + first + second =~= state.lines + (first + second));
    let n = first_saying(second, state.fence());
    if n < second.len() {
        assert((first + second).take(first.len() + n) =~= first + second.take(n));
    }
    assert(state.after_output(a).after_output(b) =~= state.after_output(a + b));
}

/// Once the fence was seen, nothing that follows it matters.
pub proof fn law_output_ends_at_fence(state: TaskState, a: Seq<char>, b: Seq<char>)
    requires
        state.step == TaskStep::Read,
        state.after_output(a).step != TaskStep::Read,
    ensures
        state.after_output(a + b) == state.after_output(a),
{
    let s = state.unfinished;
    let first = state.completed(a);
    let second = crate::text::complete_lines(crate::text::unfinished_line(s + a) + b);
    crate::text::law_lines_piecewise(s + a, b);
    assert(s + a + b =~= s + (a + b));
    assert(state.completed(a + b) == first + second);
    lemma_first_saying_concat(first, second, state.fence());
    let n = first_saying(first, state.fence());
    assert((first + second).take(n) =~= first.take(n));
}

/// The state after successive pieces of output; those behind the fence are not read.
pub open spec fn after_outputs(state: TaskState, texts: Seq<Seq<char>>) -> TaskState
    decreases texts.len(),
{
    if texts.len() == 0 || state.step != TaskStep::Read {
        state
    } else {
        after_outputs(state.after_output(texts[0]), texts.drop_first())
    }
}

/// However the output of a task is read in pieces, what is captured are the lines of
/// the whole output before the first that says the fence.
pub proof fn law_captured_output(state: TaskState, texts: Seq<Seq<char>>)
    requires
        state.step == TaskStep::Read,
        !state.unfinished.contains('\n'),
    ensures
        after_outputs(state, texts) == state.after_output(texts.flatten()),
    decreases texts.len(),
{
    if texts.len() == 0 {
        let nothing: Seq<char> = seq![];
        assert(texts.flatten() =~= nothing);
        assert(state.unfinished + nothing =~= state.unfinished);
        crate::text::lemma_no_newline(state.unfinished);
        assert(state.after_output(nothing) =~= state);
    } else {
        let (first, rest) = (texts[0], texts.drop_first().flatten());
        let next = state.after_output(first);
        if next.step == TaskStep::Read {
            crate::text::lemma_unfinished_line(state.unfinished + first);
            law_captured_output(next, texts.drop_first());
            law_output_in_pieces(state, first, rest);
        } else {
            law_output_ends_at_fence(state, first, rest);
            assert(after_outputs(next, texts.drop_first()) == next);
        }
    }
}

/// A task whose fence was seen succeeds exactly where the next message is its end
/// with exit code 0 and its command line was written.
pub proof fn law_success(
    state: TaskState,
    msg: Result<Option<ControlMessage>, String>,
    outcome: Result<Result<(), String>, String>,
)
    requires
        state.step == TaskStep::Report,
        state.error is None,
    ensures
        ({
            let reported = state.after_report(msg);
            let ended = if reported.step == TaskStep::Write {
                reported.after_write(outcome)
            } else {
                reported
            };
            &&& ended.step == TaskStep::Reply
            &&& ended.final_error() is None <==> {
                &&& msg == Ok::<Option<ControlMessage>, String>(
                    Some(ControlMessage::TaskEnd { id: state.id, exit_code: 0 }),
                )
                &&& outcome is Ok
                &&& outcome->Ok_0 is Ok
            }
        }),
{
}

/// A task that failed says why, whatever its exit code was.
pub proof fn law_failure_is_reported(state: TaskState, error: Seq<char>)
    ensures
        state.failed(error).step == TaskStep::Reply,
        state.failed(error).final_error() == Some(error),
{
}

/// The first line that says the word says it, and no line before it does.
proof fn lemma_first_saying(lines: Seq<Seq<char>>, word: Seq<char>)
    ensures
        ({
            let n = first_saying(lines, word);
            &&& 0 <= n <= lines.len()
            &&& n < lines.len() ==> crate::text::judged_line_says(lines[n], word)
            &&& forall|i: int|
                0 <= i < n ==> !crate::text::judged_line_says(#[trigger] lines[i], word)
        }),
    decreases lines.len(),
{
    if lines.len() > 0 && !crate::text::judged_line_says(lines[0], word) {
        let rest = lines.drop_first();
        lemma_first_saying(rest, word);
        assert forall|i: int|
            0 <= i < first_saying(lines, word) implies !crate::text::judged_line_says(
            #[trigger] lines[i],
            word,
        ) by {
            if i > 0 {
                assert(lines[i] == rest[i - 1]);
            }
        }
    }
}

/// The first line that says the word is the one behind lines that do not say it.
proof fn lemma_first_saying_at(
    before: Seq<Seq<char>>,
    line: Seq<char>,
    after: Seq<Seq<char>>,
    word: Seq<char>,
)
    requires
        forall|i: int|
            0 <= i < before.len() ==> !crate::text::judged_line_says(#[trigger] before[i], word),
        crate::text::judged_line_says(line, word),
    ensures
        first_saying(before + seq![line] + after, word) == before.len(),
{
    let lines = before + seq![line] + after;
    lemma_first_saying(lines, word);
    let n = first_saying(lines, word);
    assert(lines[before.len() as int] == line);
    if n < before.len() {
        assert(lines[n] == before[n]);
    }
    if n > before.len() {
        assert(!crate::text::judged_line_says(lines[before.len() as int], word));
    }
}

/// A task takes its output line by line. The lines before the first that says the fence
/// with the number of the task are captured, as they are and in order; that line ends the
/// output, and nothing behind it matters.
pub proof fn law_fence_of_task_ends_output(
    state: TaskState,
    text: Seq<char>,
    before: Seq<Seq<char>>,
    line: Seq<char>,
    after: Seq<char>,
)
    requires
        state.unfinished + text == crate::text::joined(before) + line + seq!['\n'] + after,
        crate::text::without_newlines(before),
        !line.contains('\n'),
        forall|i: int|
            0 <= i < before.len() ==> !crate::text::judged_line_says(
                #[trigger] before[i],
                crate::task_runner::command::fence_text(state.id as nat),
            ),
        crate::text::judged_line_says(
            line,
            crate::task_runner::command::fence_text(state.id as nat),
        ),
    ensures
        state.after_output(text) == (TaskState {
            unfinished: seq![],
            lines: state.lines + before,
            step: TaskStep::Report,
            ..state
        }),
{
    let fence = crate::task_runner::command::fence_text(state.id as nat);
    let head = before.push(line);
    let nothing: Seq<char> = seq![];
    let front = crate::text::joined(head);
    assert(head.drop_last() =~= before);
    assert forall|i: int| 0 <= i < head.len() implies !(#[trigger] head[i]).contains('\n') by {
        if i < before.len() {
            assert(head[i] == before[i]);
        }
    }
    crate::text::law_joined_lines_are_split(head, nothing);
    assert(front + nothing =~= front);
    crate::text::law_lines_piecewise(front, after);
    let more = crate::text::complete_lines(nothing + after);
    assert(front + after =~= state.unfinished + text);
    assert(state.completed(text) =~= before + seq![line] + more);
    lemma_first_saying_at(before, line, more, fence);
    assert(state.completed(text).take(before.len() as int) =~= before);
}

/// As long as no line says the fence with the number of the task, all lines are captured,
/// as they are and in order, and what stands behind the last newline is kept for later.
pub proof fn law_output_before_fence(
    state: TaskState,
    text: Seq<char>,
    lines: Seq<Seq<char>>,
    last: Seq<char>,
)
    requires
        state.unfinished + text == crate::text::joined(lines) + last,
        crate::text::without_newlines(lines),
        !last.contains('\n'),
        forall|i: int|
            0 <= i < lines.len() ==> !crate::text::judged_line_says(
                #[trigger] lines[i],
                crate::task_runner::command::fence_text(state.id as nat),
            ),
    ensures
        state.after_output(text) == (TaskState {
            unfinished: last,
            lines: state.lines + lines,
            ..state
        }),
{
    crate::text::law_joined_lines_are_split(lines, last);
    lemma_first_saying(lines, crate::task_runner::command::fence_text(state.id as nat));
}

/// A task that was just started has its number, no output, no error and no exit code, and
/// waits for output.
pub proof fn law_started_task(id: u64)
    ensures
        TaskState::started(id).id == id,
        TaskState::started(id).unfinished.len() == 0,
        TaskState::started(id).lines.len() == 0,
        TaskState::started(id).exit_code is None,
        TaskState::started(id).error is None,
        TaskState::started(id).step == TaskStep::Read,
{
}

/// A task waits for the fence that its own line has the shell echo: the typed line ends
/// with an `echo` of one word, and a line of output that is this word, with or without a
/// carriage return, ends the output of the task, with the lines before it captured.
pub proof fn law_task_ends_at_its_echo(
    request: crate::protocol::PtyTaskRequest,
    on_screen: bool,
    lines: Seq<Seq<char>>,
    cr: bool,
    after: Seq<char>,
    texts: Seq<Seq<char>>,
) -> (word: Seq<char>)
    requires
        crate::text::without_newlines(lines),
        forall|i: int|
            0 <= i < lines.len() ==> !crate::text::judged_line_says(
                #[trigger] lines[i],
                crate::task_runner::command::fence_text(request.id as nat),
            ),
        texts.flatten() == crate::text::joined(lines) + (
        if cr {
            crate::task_runner::command::fence_text(request.id as nat).push('\r')
        } else {
            crate::task_runner::command::fence_text(request.id as nat)
        }) + seq!['\n'] + after,
    ensures
        word == crate::task_runner::command::fence_text(request.id as nat),
        ({
            let echo = "; echo '"@ + word + "'\n"@;
            let typed = request.typed_line(on_screen);
            &&& crate::shell::shell_word("'"@ + word + "'"@, false) == Some(word)
            &&& typed.len() >= echo.len()
            &&& typed.skip(typed.len() - echo.len()) == echo
        }),
        after_outputs(TaskState::started(request.id), texts) == (TaskState {
            lines,
            step: TaskStep::Report,
            ..TaskState::started(request.id)
        }),
{
    let word = crate::task_runner::command::fence_text(request.id as nat);
    let line = if cr {
        word.push('\r')
    } else {
        word
    };
    let state = TaskState::started(request.id);
    let text = texts.flatten();
    let nothing: Seq<char> = seq![];
    crate::task_runner::command::lemma_fence_is_visible(request.id as nat);
    crate::text::law_echoed_word_is_said(word);
    assert forall|i: int| 0 <= i < line.len() implies line[i] != '\n' && line[i] != '\u{1B}' by {
        if i < word.len() {
            assert('!' <= word[i] <= '~');
        }
    }
    assert(!line.contains('\n') && !line.contains('\u{1B}'));
    assert(nothing + text =~= text);
    law_fence_of_task_ends_output(state, text, lines, line, after);
    law_captured_output(state, texts);
    assert(state.lines + lines =~= lines);
    crate::task_runner::command::law_fence_argument(request.id as nat);
    crate::task_runner::command::law_report_precedes_fence(request, on_screen);
    reveal_strlit(" >&3; echo '");
    reveal_strlit("; echo '");
    reveal_strlit("'");
    reveal_strlit("\n");
    reveal_strlit("'\n");
    let echo = "; echo '"@ + word + "'\n"@;
    let typed = request.typed_line(on_screen);
    assert(typed.skip(typed.len() - echo.len()) =~= echo);
    word
}

/// What comes of a task whose fence was seen. It succeeds exactly where its own end is
/// reported with exit code 0 and its line was written. Otherwise its error names what went
/// wrong first: the report, then the write, then the exit code. The captured lines stay.
pub proof fn law_task_result(
    state: TaskState,
    msg: Result<Option<ControlMessage>, String>,
    outcome: Result<Result<(), String>, String>,
)
    requires
        state.step == TaskStep::Report,
        state.error is None,
    ensures
        ({
            let reported = state.after_report(msg);
            let ended = if reported.step == TaskStep::Write {
                reported.after_write(outcome)
            } else {
                reported
            };
            &&& ended.lines == state.lines
            &&& ended.id == state.id
            &&& ended.step == TaskStep::Reply
            &&& reported.step == TaskStep::Write <==> (msg matches Ok(
                Some(ControlMessage::TaskEnd { id, .. }),
            ) && id == state.id)
            &&& ended.final_error() == match msg {
                Ok(Some(ControlMessage::TaskEnd { id, exit_code })) if id == state.id => match
                outcome {
                    Ok(Ok(_)) => if exit_code == 0 {
                        None
                    } else {
                        Some(
                            "Task exited with code "@ + crate::text::signed_decimal(
                                exit_code as int,
                            ),
                        )
                    },
                    Ok(Err(e)) => Some("Failed to write to PTY: "@ + e@),
                    Err(e) => Some("PTY write task panicked: "@ + e@),
                },
                Ok(Some(message)) => Some("unexpected control message: "@ + message.shown()),
                Ok(None) => Some("control pipe closed"@),
                Err(e) => Some("control pipe error: "@ + e@),
            }
        }),
{
}

/// A read that gave no output ends the task with an error that says what was wrong with
/// it, and the lines that were captured before stay.
pub proof fn law_failed_read(state: TaskState, read: PtyRead, error: Seq<char>)
    requires
        is_read_failure(read, error),
    ensures
        state.failed(error).final_error() == Some(error),
        state.failed(error).step == TaskStep::Reply,
        state.failed(error).lines == state.lines,
        match read {
            PtyRead::Data(_) => error == "PTY closed unexpectedly"@,
            PtyRead::Failed(e) => exists|s: String| #[trigger]
                to_string_from_display_ensures::<io::Error>(&e, s) && error == "PTY read error: "@
                    + s@,
            PtyRead::NotRun(e) => error == "spawn_blocking failed: "@ + e@,
        },
{
}

/// The fence ends the output where the terminal echoes it on a line of its own, with
/// or without a carriage return.
pub proof fn law_echoed_fence_ends_output(state: TaskState, text: Seq<char>, i: int)
    requires
        0 <= i < state.completed(text).len(),
        state.completed(text)[i] == state.fence() || state.completed(text)[i]
            == state.fence().push('\r'),
    ensures
        state.after_output(text).step == TaskStep::Report,
{
    let lines = state.completed(text);
    let fence = state.fence();
    crate::task_runner::command::lemma_fence_is_visible(state.id as nat);
    crate::text::law_echoed_word_is_said(fence);
    lemma_first_saying(lines, fence);
    assert(!lines[i].contains('\u{1B}'));
}

/// Output without escape sequences is kept line by line, where none of its lines
/// shows the fence.
pub proof fn law_plain_output_is_kept(state: TaskState, text: Seq<char>)
    requires
        forall|i: int|
            0 <= i < state.completed(text).len() ==> {
                &&& !(#[trigger] state.completed(text)[i]).contains('\u{1B}')
                &&& !crate::text::plain_line_says(state.completed(text)[i], state.fence())
            },
    ensures
        state.after_output(text).step == state.step,
        state.after_output(text).lines == state.lines + state.completed(text),
{
    let lines = state.completed(text);
    lemma_first_saying(lines, state.fence());
    let n = first_saying(lines, state.fence());
    if n < lines.len() {
        assert(!lines[n].contains('\u{1B}'));
    }
}

/// What was judged up to a fence stays judged, whatever follows; what is judged
/// before it is judged in two pieces as in one.
proof fn lemma_judged_in_pieces(state: TaskState, a: Seq<char>, b: Seq<char>)
    requires
        state.step == TaskStep::Read,
        state.plain_lines_judged(a),
        state.after_output(a).step == TaskStep::Read ==> state.after_output(a).plain_lines_judged(
            b,
        ),
    ensures
        state.plain_lines_judged(a + b),
{
    let s = state.unfinished;
    let first = state.completed(a);
    let second = crate::text::complete_lines(crate::text::unfinished_line(s + a) + b);
    crate::text::law_lines_piecewise(s + a, b);
    assert(s + a + b =~= s + (a + b));
    lemma_first_saying_concat(first, second, state.fence());
    let lines = state.completed(a + b);
    assert(lines == first + second);
    assert forall|i: int|
        #![trigger lines[i]]
        0 <= i < lines.len() && i <= first_saying(lines, state.fence()) && !lines[i].contains(
            '\u{1B}',
        ) implies crate::text::line_says(lines[i], state.fence()) == crate::text::plain_line_says(
        lines[i],
        state.fence(),
    ) by {
        if i < first.len() {
            assert(lines[i] == first[i]);
        } else {
            let next = state.after_output(a);
            assert(first_saying(first, state.fence()) == first.len());
            assert(next.completed(b) == second && next.fence() == state.fence());
            assert(lines[i] == next.completed(b)[i - first.len()]);
        }
    }
}

/// One character of output: a newline completes the unfinished line, any other
/// character prolongs it.
proof fn lemma_one_character(state: TaskState, c: char)
    requires
        !state.unfinished.contains('\n'),
    ensures
        c != '\n' ==> state.after_output(seq![c]) == (TaskState {
            unfinished: state.unfinished.push(c),
            ..state
        }),
        c == '\n' && crate::text::judged_line_says(state.unfinished, state.fence())
            ==> state.after_output(seq![c]) == (TaskState {
            unfinished: seq![],
            step: TaskStep::Report,
            ..state
        }),
        c == '\n' && !crate::text::judged_line_says(state.unfinished, state.fence())
            ==> state.after_output(seq![c]) == (TaskState {
            unfinished: seq![],
            lines: state.lines.push(state.unfinished),
            ..state
        }),
{
    let s = state.unfinished;
    let t = s + seq![c];
    crate::text::lemma_no_newline(s);
    assert(t.drop_last() =~= s);
    let lines = state.completed(seq![c]);
    if c == '\n' {
        assert(lines =~= seq![s]);
        assert(lines.drop_first() =~= seq![]);
        assert(first_saying(lines.drop_first(), state.fence()) == 0);
        assert(state.lines + lines.take(0) =~= state.lines);
        assert(state.lines + lines =~= state.lines.push(s));
    } else {
        assert(lines =~= seq![]);
        assert(t =~= s.push(c));
        assert(state.lines + lines =~= state.lines);
    }
}

/// `error` says what was wrong with a read that gave no output.
pub open spec fn is_read_failure(read: PtyRead, error: Seq<char>) -> bool {
    match read {
        PtyRead::Data(_) => error == "PTY closed unexpectedly"@,
        PtyRead::Failed(e) => exists|s: String| #[trigger]
            to_string_from_display_ensures::<io::Error>(&e, s) && error == "PTY read error: "@ + s@,
        PtyRead::NotRun(e) => error == "spawn_blocking failed: "@ + e@,
    }
}

/// A running task.
pub struct TaskRun {
    id: u64,
    fence: String,
    unfinished: String,
    lines: Vec<(Instant, String)>,
    exit_code: Option<i32>,
    error: Option<String>,
    step: TaskStep,
}

impl View for TaskRun {
    type V = TaskState;

    closed spec fn view(&self) -> TaskState {
        TaskState {
            id: self.id,
            unfinished: self.unfinished@,
            lines: crate::protocol::line_texts(self.lines@),
            exit_code: self.exit_code,
            error: match self.error {
                Some(e) => Some(e@),
                None => None,
            },
            step: self.step,
        }
    }
}

impl TaskRun {
    /// The fence is that of the task, and the unfinished output holds no newline.
    pub closed spec fn wf(&self) -> bool {
        &&& self.fence@ == self@.fence()
        &&& !self.unfinished@.contains('\n')
    }

    /// The captured lines, each with the time at which it was seen.
    pub closed spec fn stamped(&self) -> Seq<(Instant, String)> {
        self.lines@
    }

    /// Every captured line has its time.
    pub proof fn lemma_stamped(&self)
        ensures
            crate::protocol::line_texts(self.stamped()) == self@.lines,
            self.stamped().len() == self@.lines.len(),
    {
    }

    /// Starts a task.
    pub fn new(id: u64) -> (res: TaskRun)
        ensures
            res.wf(),
            res@ == TaskState::started(id),
            res.stamped() == Seq::<(Instant, String)>::empty(),
    {
        let res = TaskRun {
            id,
            fence: fence(id),
            unfinished: String::new(),
            lines: Vec::new(),
            exit_code: None,
            error: None,
            step: TaskStep::Read,
        };
        assert(res@ =~= TaskState::started(id));
        res
    }

    /// What the task waits for.
    pub fn step(&self) -> (res: TaskStep)
        ensures
            res == self@.step,
    {
        self.step
    }

    /// Keeps a line of output that was seen at time `at`.
    fn keep_line(&mut self, at: Instant, line: String)
        ensures
            final(self)@ == (TaskState { lines: old(self)@.lines.push(line@), ..old(self)@ }),
            final(self).stamped() == old(self).stamped().push((at, line)),
            final(self).fence == old(self).fence,
    {
        self.lines.push((at, line));
        assert(self@.lines =~= old(self)@.lines.push(line@));
    }

    /// Takes output of the PTY.
    ///
    /// Complete lines are kept, each with the time at which it was seen. A line that
    /// says the fence, once escape sequences and whitespace are gone, ends the
    /// output. Lines that were kept before keep their times.
    pub fn on_output(&mut self, text: &str)
        requires
            old(self).wf(),
            old(self)@.step == TaskStep::Read,
        ensures
            final(self).wf(),
            final(self)@ == old(self)@.after_output(text@),
            old(self)@.plain_lines_judged(text@),
            final(self).stamped().take(old(self).stamped().len() as int) == old(self).stamped(),
    {
        let ghost start = self@;
        let ghost kept = self.stamped();
        proof {
            let nothing: Seq<char> = seq![];
            assert(text@.take(0) =~= nothing);
            assert(start.unfinished + nothing =~= start.unfinished);
            crate::text::lemma_no_newline(start.unfinished);
            assert(start.after_output(nothing) =~= start);
            assert(kept.take(kept.len() as int) =~= kept);
        }
        for c in it: text.chars()
            invariant
                it.seq() == text@,
                self.wf(),
                start == old(self)@,
                kept == old(self).stamped(),
                kept.len() <= self.stamped().len(),
                self.stamped().take(kept.len() as int) == kept,
                start.step == TaskStep::Read,
                start.plain_lines_judged(text@.take(it.index())),
                self@.step == TaskStep::Read,
                self@ == start.after_output(text@.take(it.index())),
        {
            let ghost before = self@;
            let ghost done = text@.take(it.index() + 1);
            proof {
                assert(done =~= text@.take(it.index()) + seq![c]);
                lemma_one_character(before, c);
                law_output_in_pieces(start, text@.take(it.index()), seq![c]);
                let one = before.completed(seq![c]);
                assert(before.unfinished + seq![c] =~= before.unfinished.push(c));
                assert(before.unfinished.push(c).drop_last() =~= before.unfinished);
                crate::text::lemma_no_newline(before.unfinished);
                assert(c == '\n' ==> one =~= seq![before.unfinished]);
                assert(c != '\n' ==> one =~= seq![]);
            }
            if c == '\n' {
                let mut line = String::new();
                std::mem::swap(&mut line, &mut self.unfinished);
                if says(line.as_str(), &self.fence) {
                    self.step = TaskStep::Report;
                    proof {
                        assert(self@ =~= before.after_output(seq![c]));
                        assert(before.plain_lines_judged(seq![c]));
                        lemma_judged_in_pieces(start, text@.take(it.index()), seq![c]);
                        lemma_judged_in_pieces(start, done, text@.skip(it.index() + 1));
                        law_output_ends_at_fence(start, done, text@.skip(it.index() + 1));
                        assert(done + text@.skip(it.index() + 1) =~= text@);
                    }
                    return ;
                }
                let ghost earlier = self.stamped();
                self.keep_line(now(), line);
                assert(self.stamped().take(kept.len() as int) =~= earlier.take(kept.len() as int));
                assert(self@ =~= before.after_output(seq![c]));
            } else {
                self.unfinished.push(c);
                assert(self@ =~= before.after_output(seq![c]));
            }
            proof {
                assert(before.plain_lines_judged(seq![c]));
                lemma_judged_in_pieces(start, text@.take(it.index()), seq![c]);
            }
        }
        assert(text@.take(text@.len() as int) =~= text@);
    }

    /// Ends the task with an error.
    fn fail(&mut self, error: String)
        requires
            old(self).wf(),
        ensures
            final(self).wf(),
            final(self)@ == old(self)@.failed(error@),
            final(self).stamped() == old(self).stamped(),
    {
        self.error = Some(error);
        self.step = TaskStep::Reply;
        assert(self@ =~= old(self)@.failed(error@));
    }

    /// Takes what a read from the PTY came to.
    ///
    /// Output is fed to the screen, where there is one, and captured for the result
    /// of the task.
    pub fn on_read(&mut self, read: PtyRead, screen: Option<&mut Screen>)
        requires
            old(self).wf(),
            old(self)@.step == TaskStep::Read,
            screen matches Some(s) ==> s.wf(),
        ensures
            final(self).wf(),
            crate::task_runner::ready::read_is_decoded(read),
            crate::task_runner::ready::read_text(read) matches Some(text) ==> {
                &&& final(self)@ == old(self)@.after_output(text)
                &&& old(self)@.plain_lines_judged(text)
            },
            crate::task_runner::ready::read_text(read) is None ==> exists|error: Seq<char>|
                is_read_failure(read, error) && final(self)@ == #[trigger] old(self)@.failed(error),
            final(self).stamped().take(old(self).stamped().len() as int) == old(self).stamped(),
            crate::task_runner::ready::read_text(read) is None ==> final(self).stamped() == old(
                self,
            ).stamped(),
            screen matches Some(s) ==> {
                &&& final(s).wf()
                &&& final(s).terminal() == crate::screen::vt_shown(
                    s.terminal(),
                    crate::task_runner::ready::read_text(read),
                )
                &&& *final(final(s).vt) == *final(s.vt)
            },
    {
        assert(old(self).stamped().take(old(self).stamped().len() as int) =~= old(self).stamped());
        match read {
            PtyRead::Data(data) => {
                if data.len() == 0 {
                    self.fail("PTY closed unexpectedly".to_owned());
                } else {
                    let chunk = from_utf8_lossy(data.as_slice());
                    feed_shown(screen, chunk.as_str());
                    self.on_output(chunk.as_str());
                }
            },
            PtyRead::Failed(e) => {
                let text = e.to_string();
                let error = "PTY read error: ".to_owned().concat(text.as_str());
                assert(is_read_failure(read, error@));
                self.fail(error);
            },
            PtyRead::NotRun(e) => {
                self.fail("spawn_blocking failed: ".to_owned().concat(e.as_str()));
            },
        }
    }

    /// Takes what a read from the control pipe came to, which holds the exit code
    /// after the fence.
    pub fn on_report(&mut self, msg: Result<Option<ControlMessage>, String>)
        requires
            old(self).wf(),
            old(self)@.step == TaskStep::Report,
        ensures
            final(self).wf(),
            final(self)@ == old(self)@.after_report(msg),
            final(self).stamped() == old(self).stamped(),
    {
        match msg {
            Ok(Some(ControlMessage::TaskEnd { id, exit_code })) if id == self.id => {
                self.exit_code = Some(exit_code);
                self.step = TaskStep::Write;
                assert(self@ =~= old(self)@.after_report(msg));
            },
            Ok(Some(other)) => {
                self.fail(
                    "unexpected control message: ".to_owned().concat(other.show().as_str()),
                );
            },
            Ok(None) => self.fail("control pipe closed".to_owned()),
            Err(e) => self.fail("control pipe error: ".to_owned().concat(e.as_str())),
        }
    }

    /// Takes how the write of the command line ended.
    pub fn on_write(&mut self, outcome: Result<Result<(), String>, String>)
        requires
            old(self).wf(),
            old(self)@.step == TaskStep::Write,
        ensures
            final(self).wf(),
            final(self)@ == old(self)@.after_write(outcome),
            final(self).stamped() == old(self).stamped(),
    {
        match outcome {
            Ok(Ok(())) => {
                self.step = TaskStep::Reply;
                assert(self@ =~= old(self)@.after_write(outcome));
            },
            Ok(Err(e)) => self.fail("Failed to write to PTY: ".to_owned().concat(e.as_str())),
            Err(e) => self.fail("PTY write task panicked: ".to_owned().concat(e.as_str())),
        }
    }

    /// The result of the task.
    pub fn finish(self) -> (res: PtyTaskResult)
        requires
            self.wf(),
            self@.step == TaskStep::Reply,
        ensures
            res.success == (self@.final_error() is None),
            res.error is Some <==> self@.final_error() is Some,
            res.error matches Some(error) ==> Some(error@) == self@.final_error(),
            crate::protocol::line_texts(res.stdout_lines@) == self@.lines,
            res.stdout_lines@ == self.stamped(),
            res.stderr_lines@.len() == 0,
    {
        let TaskRun { lines, exit_code, error, .. } = self;
        let (success, error) = match error {
            Some(error) => (false, Some(error)),
            None => {
                let code: i32 = exit_code.unwrap_or(1);
                if code == 0 {
                    (true, None)
                } else {
                    let mut text = "Task exited with code ".to_owned();
                    push_signed_decimal(&mut text, code);
                    (false, Some(text))
                }
            },
        };
        PtyTaskResult { success, stdout_lines: lines, stderr_lines: Vec::new(), error }
    }
}

} // verus!
