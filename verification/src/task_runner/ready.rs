//! Waiting for the shell to be ready.

use crate::control_pipe::ControlMessage;
use crate::screen::{feed_shown, Screen};
use crate::task_runner::error::TaskRunnerError;
use crate::utf8_accumulator::from_utf8_lossy;
use std::io;
use vstd::prelude::*;
use vstd::string::*;

verus! {

/// What a read from the PTY came to.
pub enum PtyRead {
    /// The bytes that were read; none where the PTY is closed.
    Data(Vec<u8>),
    /// The read failed.
    Failed(io::Error),
    /// The read could not be run, for this reason.
    NotRun(String),
}

/// What happens first while the runner waits for the shell.
pub enum WaitEvent {
    /// A read from the control pipe ended: with a message, at the end of the pipe,
    /// or with an error. The read from the PTY that was under way then came to what
    /// is here, too.
    Control(Result<Option<ControlMessage>, String>, PtyRead),
    /// A read from the PTY ended.
    Pty(PtyRead),
}

/// What to do after an event.
pub enum WaitStep {
    /// Wait for the next event.
    Continue,
    /// The shell is ready.
    Ready,
    /// Give up.
    Fail(TaskRunnerError),
}

/// What an event means to the wait: only the message `Ready` ends it well, any
/// other message and any output are passed over, and the end or an error of either
/// channel ends it. Beside a read from the control pipe, only what that came to counts.
pub open spec fn wait_step(event: WaitEvent) -> WaitStep {
    match event {
        WaitEvent::Control(Ok(Some(ControlMessage::Ready)), _) => WaitStep::Ready,
        WaitEvent::Control(Ok(Some(_)), _) => WaitStep::Continue,
        WaitEvent::Control(Ok(None), _) => WaitStep::Fail(TaskRunnerError::ShellNotReady),
        WaitEvent::Control(Err(e), _) => WaitStep::Fail(TaskRunnerError::ControlPipe(e)),
        WaitEvent::Pty(PtyRead::Data(data)) => if data@.len() > 0 {
            WaitStep::Continue
        } else {
            WaitStep::Fail(TaskRunnerError::ShellNotReady)
        },
        WaitEvent::Pty(PtyRead::Failed(e)) => WaitStep::Fail(TaskRunnerError::Io(e)),
        WaitEvent::Pty(PtyRead::NotRun(e)) => WaitStep::Fail(TaskRunnerError::SpawnBlocking(e)),
    }
}

/// The output that a read gave.
pub open spec fn read_text(read: PtyRead) -> Option<Seq<char>> {
    match read {
        PtyRead::Data(data) => if data@.len() > 0 {
            Some(crate::utf8_accumulator::utf8_lossy(data@))
        } else {
            None
        },
        _ => None,
    }
}

/// The output that a read gave is decoded: as it is where it is valid UTF-8, with
/// U+FFFD in place of the first invalid sequence otherwise.
pub open spec fn read_is_decoded(read: PtyRead) -> bool {
    match read {
        PtyRead::Data(data) => data@.len() > 0 ==> {
            let text = crate::utf8_accumulator::utf8_lossy(data@);
            if vstd::utf8::valid_utf8(data@) {
                text == vstd::utf8::decode_utf8(data@)
            } else {
                crate::utf8_accumulator::replaces_first_invalid(data@, text)
            }
        },
        _ => true,
    }
}

/// The read from the PTY that an event brings.
pub open spec fn event_read(event: WaitEvent) -> PtyRead {
    match event {
        WaitEvent::Control(_, read) => read,
        WaitEvent::Pty(read) => read,
    }
}

/// The text that an event puts on the screen: the output of its read.
pub open spec fn shown_text(event: WaitEvent) -> Option<Seq<char>> {
    read_text(event_read(event))
}

/// Feeds the output of a read to a screen, where there is one, and discards it
/// otherwise.
fn show_read(read: &PtyRead, screen: Option<&mut Screen>)
    requires
        screen matches Some(s) ==> s.wf(),
    ensures
        read_is_decoded(*read),
        screen matches Some(s) ==> {
            &&& final(s).wf()
            &&& final(s).terminal() == crate::screen::vt_shown(s.terminal(), read_text(*read))
            &&& *final(final(s).vt) == *final(s.vt)
        },
{
    if let PtyRead::Data(data) = read {
        if data.len() > 0 {
            let chunk = from_utf8_lossy(data.as_slice());
            feed_shown(screen, chunk.as_str());
        }
    }
}

/// Decide what an event means while waiting for the shell to signal readiness.
///
/// Output of the PTY is fed to the screen, where there is one, and discarded
/// otherwise.
pub fn wait_for_shell_ready(event: WaitEvent, screen: Option<&mut Screen>) -> (res: WaitStep)
    requires
        screen matches Some(s) ==> s.wf(),
    ensures
        res == wait_step(event),
        read_is_decoded(event_read(event)),
        screen matches Some(s) ==> {
            &&& final(s).wf()
            &&& final(s).terminal() == crate::screen::vt_shown(s.terminal(), shown_text(event))
            &&& *final(final(s).vt) == *final(s.vt)
        },
{
    match event {
        WaitEvent::Control(msg, read) => {
            show_read(&read, screen);
            match msg {
                Ok(Some(ControlMessage::Ready)) => WaitStep::Ready,
                Ok(Some(_)) => WaitStep::Continue,
                Ok(None) => WaitStep::Fail(TaskRunnerError::ShellNotReady),
                Err(e) => WaitStep::Fail(TaskRunnerError::ControlPipe(e)),
            }
        },
        WaitEvent::Pty(read) => {
            show_read(&read, screen);
            match read {
                PtyRead::Data(data) => if data.len() > 0 {
                    WaitStep::Continue
                } else {
                    WaitStep::Fail(TaskRunnerError::ShellNotReady)
                },
                PtyRead::Failed(e) => WaitStep::Fail(TaskRunnerError::Io(e)),
                PtyRead::NotRun(e) => WaitStep::Fail(TaskRunnerError::SpawnBlocking(e)),
            }
        },
    }
}

/// What a terminal becomes in the course of a wait, event by event.
pub open spec fn terminal_after(vt: avt::Vt, events: Seq<WaitEvent>) -> avt::Vt
    decreases events.len(),
{
    if events.len() == 0 {
        vt
    } else {
        crate::screen::vt_shown(terminal_after(vt, events.drop_last()), shown_text(events.last()))
    }
}

/// The outputs of the reads that events bring, in order.
pub open spec fn read_texts(events: Seq<WaitEvent>) -> Seq<Seq<char>>
    decreases events.len(),
{
    if events.len() == 0 {
        seq![]
    } else {
        let before = read_texts(events.drop_last());
        match read_text(event_read(events.last())) {
            Some(text) => before.push(text),
            None => before,
        }
    }
}

/// What a terminal becomes when texts are fed to it one after the other.
pub open spec fn vt_after_all(vt: avt::Vt, texts: Seq<Seq<char>>) -> avt::Vt
    decreases texts.len(),
{
    if texts.len() == 0 {
        vt
    } else {
        crate::screen::vt_after(vt_after_all(vt, texts.drop_last()), texts.last())
    }
}

/// The output of every read that is made during a wait is fed to the terminal, in
/// order, and nothing else is, whichever channel the wait heard from.
pub proof fn law_all_output_is_shown(vt: avt::Vt, events: Seq<WaitEvent>)
    ensures
        terminal_after(vt, events) == vt_after_all(vt, read_texts(events)),
    decreases events.len(),
{
    if events.len() > 0 {
        law_all_output_is_shown(vt, events.drop_last());
        let before = read_texts(events.drop_last());
        if let Some(text) = read_text(event_read(events.last())) {
            assert(before.push(text).drop_last() =~= before);
        }
    }
}

/// What a wait comes to: what its first event that does not continue it means.
pub open spec fn wait_outcome(events: Seq<WaitEvent>) -> WaitStep
    decreases events.len(),
{
    if events.len() == 0 {
        WaitStep::Continue
    } else if wait_step(events[0]) is Continue {
        wait_outcome(events.drop_first())
    } else {
        wait_step(events[0])
    }
}

/// The event brings the message `Ready`.
pub open spec fn is_ready_message(event: WaitEvent) -> bool {
    event matches WaitEvent::Control(Ok(Some(message)), _) && message is Ready
}

/// What a wait comes to is what its first event means that does not continue it.
proof fn lemma_wait_outcome(events: Seq<WaitEvent>, i: int)
    requires
        0 <= i < events.len(),
        forall|j: int| 0 <= j < i ==> wait_step(#[trigger] events[j]) is Continue,
        !(wait_step(events[i]) is Continue),
    ensures
        wait_outcome(events) == wait_step(events[i]),
    decreases i,
{
    if i > 0 {
        let rest = events.drop_first();
        assert(wait_step(events[0]) is Continue);
        assert forall|j: int| 0 <= j < i - 1 implies wait_step(#[trigger] rest[j]) is Continue by {
            assert(rest[j] == events[j + 1]);
        }
        lemma_wait_outcome(rest, i - 1);
    }
}

/// A wait that is over has an event that ended it.
proof fn lemma_wait_ended(events: Seq<WaitEvent>) -> (i: int)
    requires
        !(wait_outcome(events) is Continue),
    ensures
        0 <= i < events.len(),
        forall|j: int| 0 <= j < i ==> wait_step(#[trigger] events[j]) is Continue,
        wait_outcome(events) == wait_step(events[i]),
        !(wait_step(events[i]) is Continue),
    decreases events.len(),
{
    if wait_step(events[0]) is Continue {
        let rest = events.drop_first();
        let i = lemma_wait_ended(rest);
        assert forall|j: int| 0 <= j < i + 1 implies wait_step(
            #[trigger] events[j],
        ) is Continue by {
            if j > 0 {
                assert(events[j] == rest[j - 1]);
            }
        }
        i + 1
    } else {
        0
    }
}

/// Whether the wait goes on after an event, and how it ends otherwise: it goes on after
/// output and after any message but `Ready`; it fails at the end or an error of the
/// control pipe, and where a read from the PTY alone gave nothing, failed or was not run.
pub proof fn law_event_of_wait(event: WaitEvent)
    ensures
        wait_step(event) is Continue <==> match event {
            WaitEvent::Control(Ok(Some(message)), _) => message != ControlMessage::Ready,
            WaitEvent::Pty(PtyRead::Data(data)) => data@.len() > 0,
            _ => false,
        },
        wait_step(event) is Ready <==> match event {
            WaitEvent::Control(Ok(Some(message)), _) => message == ControlMessage::Ready,
            _ => false,
        },
        wait_step(event) is Ready <==> is_ready_message(event),
        wait_step(event) matches WaitStep::Fail(error) ==> match event {
            WaitEvent::Control(Ok(None), _) => error is ShellNotReady,
            WaitEvent::Control(Err(e), _) => error matches TaskRunnerError::ControlPipe(text)
                && text == e,
            WaitEvent::Pty(PtyRead::Data(_)) => error is ShellNotReady,
            WaitEvent::Pty(PtyRead::Failed(e)) => error matches TaskRunnerError::Io(inner) && inner
                == e,
            WaitEvent::Pty(PtyRead::NotRun(e)) => error matches TaskRunnerError::SpawnBlocking(text)
                && text == e,
            _ => false,
        },
{
}

/// A wait ends well exactly where the message `Ready` comes and before it only other
/// messages and output came: no end and no error of either channel.
pub proof fn law_ready_message_ends_wait(events: Seq<WaitEvent>)
    ensures
        wait_outcome(events) is Ready <==> exists|i: int|
            {
                &&& 0 <= i < events.len()
                &&& match #[trigger] events[i] {
                    WaitEvent::Control(Ok(Some(message)), _) => message == ControlMessage::Ready,
                    _ => false,
                }
                &&& forall|j: int|
                    0 <= j < i ==> match #[trigger] events[j] {
                        WaitEvent::Control(Ok(Some(_)), _) => true,
                        WaitEvent::Pty(PtyRead::Data(data)) => data@.len() > 0,
                        _ => false,
                    }
            },
{
    assert forall|i: int| 0 <= i < events.len() implies !(wait_step(#[trigger] events[i]) is Fail)
        == match events[i] {
        WaitEvent::Control(Ok(Some(_)), _) => true,
        WaitEvent::Pty(PtyRead::Data(data)) => data@.len() > 0,
        _ => false,
    } by {
        law_event_of_wait(events[i]);
    }
    if wait_outcome(events) is Ready {
        let i = lemma_wait_ended(events);
        law_event_of_wait(events[i]);
        assert forall|j: int| 0 <= j < i implies match #[trigger] events[j] {
            WaitEvent::Control(Ok(Some(_)), _) => true,
            WaitEvent::Pty(PtyRead::Data(data)) => data@.len() > 0,
            _ => false,
        } by {
            assert(wait_step(events[j]) is Continue);
        }
    }
    if exists|i: int|
        {
            &&& 0 <= i < events.len()
            &&& match #[trigger] events[i] {
                WaitEvent::Control(Ok(Some(message)), _) => message == ControlMessage::Ready,
                _ => false,
            }
            &&& forall|j: int|
                0 <= j < i ==> match #[trigger] events[j] {
                    WaitEvent::Control(Ok(Some(_)), _) => true,
                    WaitEvent::Pty(PtyRead::Data(data)) => data@.len() > 0,
                    _ => false,
                }
        } {
        let i = choose|i: int|
            {
                &&& 0 <= i < events.len()
                &&& match #[trigger] events[i] {
                    WaitEvent::Control(Ok(Some(message)), _) => message == ControlMessage::Ready,
                    _ => false,
                }
                &&& forall|j: int|
                    0 <= j < i ==> match #[trigger] events[j] {
                        WaitEvent::Control(Ok(Some(_)), _) => true,
                        WaitEvent::Pty(PtyRead::Data(data)) => data@.len() > 0,
                        _ => false,
                    }
            };
        lemma_ready_before(events, i);
    }
}

/// Where `Ready` came and nothing before it failed, the first `Ready` ended the wait.
proof fn lemma_ready_before(events: Seq<WaitEvent>, i: int)
    requires
        0 <= i < events.len(),
        wait_step(events[i]) is Ready,
        forall|j: int| 0 <= j < i ==> !(wait_step(#[trigger] events[j]) is Fail),
    ensures
        wait_outcome(events) is Ready,
    decreases i,
{
    if wait_step(events[0]) is Continue {
        let rest = events.drop_first();
        assert(i > 0);
        assert(rest[i - 1] == events[i]);
        assert forall|j: int| 0 <= j < i - 1 implies !(wait_step(#[trigger] rest[j]) is Fail) by {
            assert(rest[j] == events[j + 1]);
        }
        lemma_ready_before(rest, i - 1);
    }
}

/// A wait fails exactly where the end or an error of a channel comes, and before it only
/// output and messages other than `Ready` came; it fails then with what that was.
pub proof fn law_channel_failure_ends_wait(events: Seq<WaitEvent>, i: int)
    requires
        0 <= i < events.len(),
        forall|j: int|
            0 <= j < i ==> match #[trigger] events[j] {
                WaitEvent::Control(Ok(Some(message)), _) => message != ControlMessage::Ready,
                WaitEvent::Pty(PtyRead::Data(data)) => data@.len() > 0,
                _ => false,
            },
    ensures
        match events[i] {
            WaitEvent::Control(Ok(None), _) => wait_outcome(events) == WaitStep::Fail(
                TaskRunnerError::ShellNotReady,
            ),
            WaitEvent::Control(Err(e), _) => wait_outcome(events) == WaitStep::Fail(
                TaskRunnerError::ControlPipe(e),
            ),
            WaitEvent::Pty(PtyRead::Data(data)) => data@.len() == 0 ==> wait_outcome(events)
                == WaitStep::Fail(TaskRunnerError::ShellNotReady),
            WaitEvent::Pty(PtyRead::Failed(e)) => wait_outcome(events) == WaitStep::Fail(
                TaskRunnerError::Io(e),
            ),
            WaitEvent::Pty(PtyRead::NotRun(e)) => wait_outcome(events) == WaitStep::Fail(
                TaskRunnerError::SpawnBlocking(e),
            ),
            WaitEvent::Control(Ok(Some(_)), _) => true,
        },
{
    assert forall|j: int| 0 <= j < i implies wait_step(#[trigger] events[j]) is Continue by {
        law_event_of_wait(events[j]);
    }
    law_event_of_wait(events[i]);
    if !(wait_step(events[i]) is Continue) {
        lemma_wait_outcome(events, i);
    }
}

/// What an event shows is the text of the bytes that its read from the PTY gave, be it
/// the event itself or under way beside a message; nothing where it gave none.
pub proof fn law_shown_text(event: WaitEvent)
    ensures
        shown_text(event) == match event {
            WaitEvent::Control(_, PtyRead::Data(data)) | WaitEvent::Pty(PtyRead::Data(data)) => if
            data@.len() > 0 {
                Some(crate::utf8_accumulator::utf8_lossy(data@))
            } else {
                None
            },
            _ => None::<Seq<char>>,
        },
{
}

/// A read gives output exactly where it gave bytes, and then the text of those bytes.
pub proof fn law_read_text(read: PtyRead)
    ensures
        read_text(read) == match read {
            PtyRead::Data(data) => if data@.len() > 0 {
                Some(crate::utf8_accumulator::utf8_lossy(data@))
            } else {
                None
            },
            _ => None::<Seq<char>>,
        },
{
}

} // verus!
