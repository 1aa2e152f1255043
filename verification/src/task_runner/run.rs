//! The task loop: from the first command to the shell to the last.
//!
//! PROMPT_COMMAND is disabled while tasks run, to avoid the overhead of prompt
//! hooks, and restored when control is handed to the user. History is disabled from
//! shell init on and re-enabled at the end.

use crate::task_runner::error::TaskRunnerError;
use vstd::prelude::*;
use vstd::string::*;

verus! {

/// How tasks are run.
#[derive(Debug, Clone, Copy, PartialEq, Eq, Structural)]
pub enum RunMode {
    /// Without a screen, in a shell that is ready.
    Direct,
    /// With their output on a screen, before the terminal is handed to the user.
    Screen,
}

/// A command that is typed into the shell around the tasks.
#[derive(Debug, Clone, Copy, PartialEq, Eq, Structural)]
pub enum PtyCommand {
    /// Save PROMPT_COMMAND and clear it.
    DisablePrompt,
    /// Restore PROMPT_COMMAND.
    RestorePrompt,
    /// Re-enable history.
    EnableHistory,
}

/// The shell variable in which PROMPT_COMMAND is saved.
pub open spec fn saved_prompt_variable() -> Seq<char> {
    "__devenv_saved_pc"@
}

impl PtyCommand {
    /// The line that is typed.
    pub open spec fn line(self) -> Seq<char> {
        match self {
            PtyCommand::DisablePrompt => saved_prompt_variable()
                + "=\"$PROMPT_COMMAND\"; PROMPT_COMMAND=\n"@,
            PtyCommand::RestorePrompt => "PROMPT_COMMAND=\"$"@ + saved_prompt_variable() + "\"\n"@,
            PtyCommand::EnableHistory => " set -o history\n"@,
        }
    }

    /// The line that is typed.
    pub fn text(self) -> (res: &'static str)
        ensures
            res@ == self.line(),
    {
        proof {
            reveal_strlit("__devenv_saved_pc");
            reveal_strlit("=\"$PROMPT_COMMAND\"; PROMPT_COMMAND=\n");
            reveal_strlit("PROMPT_COMMAND=\"$");
            reveal_strlit("\"\n");
            reveal_strlit("__devenv_saved_pc=\"$PROMPT_COMMAND\"; PROMPT_COMMAND=\n");
            reveal_strlit("PROMPT_COMMAND=\"$__devenv_saved_pc\"\n");
        }
        match self {
            PtyCommand::DisablePrompt => {
                let res = "__devenv_saved_pc=\"$PROMPT_COMMAND\"; PROMPT_COMMAND=\n";
                assert(res@ =~= self.line());
                res
            },
            PtyCommand::RestorePrompt => {
                let res = "PROMPT_COMMAND=\"$__devenv_saved_pc\"\n";
                assert(res@ =~= self.line());
                res
            },
            PtyCommand::EnableHistory => " set -o history\n",
        }
    }

    /// What an error of the write of the command starts with.
    pub open spec fn write_failure(self) -> Seq<char> {
        match self {
            PtyCommand::DisablePrompt => "Failed to disable PROMPT_COMMAND: "@,
            PtyCommand::RestorePrompt => "Failed to restore PROMPT_COMMAND: "@,
            PtyCommand::EnableHistory => "Failed to re-enable history: "@,
        }
    }

    /// The error of a write of the command that failed.
    fn write_error(self, e: String) -> (res: TaskRunnerError)
        ensures
            is_pty_error(res, self.write_failure() + e@),
    {
        let start = match self {
            PtyCommand::DisablePrompt => "Failed to disable PROMPT_COMMAND: ",
            PtyCommand::RestorePrompt => "Failed to restore PROMPT_COMMAND: ",
            PtyCommand::EnableHistory => "Failed to re-enable history: ",
        };
        TaskRunnerError::Pty(start.to_owned().concat(e.as_str()))
    }
}

/// `error` is an error of the PTY with this text.
pub open spec fn is_pty_error(error: TaskRunnerError, text: Seq<char>) -> bool {
    error matches TaskRunnerError::Pty(s) && s@ == text
}

/// Where the task loop is.
#[derive(Debug, Clone, Copy, PartialEq, Eq, Structural)]
pub enum RunPhase {
    /// The shell is not ready yet.
    Waiting,
    /// The readiness of the shell is being announced.
    Notifying,
    /// A command is being written.
    Writing(PtyCommand),
    /// A written command is being flushed.
    Flushing(PtyCommand),
    /// The next request is awaited.
    Idle,
    /// A task is running.
    Executing,
    /// Pending output is being drained.
    Draining,
    /// The loop has returned.
    Over,
}

/// What the loop wants done next.
pub enum RunAction {
    /// Wait for the shell to be ready.
    WaitForShell,
    /// Announce that the shell is ready, where somebody waits for that.
    NotifyReady,
    /// Write a command to the PTY.
    Write(PtyCommand),
    /// Flush the PTY.
    Flush,
    /// Take the next request.
    NextRequest,
    /// Run the task of the request.
    Execute,
    /// Drain pending output to the screen.
    Drain,
    /// Return.
    Return(Result<(), TaskRunnerError>),
}

/// What came of the last action.
pub enum RunEvent {
    Shell(Result<(), TaskRunnerError>),
    Notified,
    Written(Result<(), String>),
    Flushed(Result<(), String>),
    /// Whether there is a request; there is none once the channel is closed.
    Request(bool),
    Executed,
    Drained,
}

/// `event` can come of what is going on in `phase`.
pub open spec fn expects(phase: RunPhase, event: RunEvent) -> bool {
    match phase {
        RunPhase::Waiting => event is Shell,
        RunPhase::Notifying => event is Notified,
        RunPhase::Writing(_) => event is Written,
        RunPhase::Flushing(_) => event is Flushed,
        RunPhase::Idle => event is Request,
        RunPhase::Executing => event is Executed,
        RunPhase::Draining => event is Drained,
        RunPhase::Over => false,
    }
}

/// What the loop does behind a command that is in the shell.
pub open spec fn phase_behind(mode: RunMode, command: PtyCommand) -> RunPhase {
    match command {
        PtyCommand::DisablePrompt => RunPhase::Idle,
        PtyCommand::RestorePrompt => match mode {
            RunMode::Direct => RunPhase::Writing(PtyCommand::EnableHistory),
            RunMode::Screen => RunPhase::Draining,
        },
        PtyCommand::EnableHistory => RunPhase::Over,
    }
}

/// The phase in which the loop goes on after `event`.
pub open spec fn next_phase(mode: RunMode, phase: RunPhase, event: RunEvent) -> RunPhase {
    match event {
        RunEvent::Shell(Ok(_)) => RunPhase::Notifying,
        RunEvent::Shell(Err(_)) => RunPhase::Over,
        RunEvent::Notified => RunPhase::Writing(PtyCommand::DisablePrompt),
        RunEvent::Written(Ok(_)) => RunPhase::Flushing(phase->Writing_0),
        RunEvent::Written(Err(_)) => RunPhase::Over,
        RunEvent::Flushed(Ok(_)) => phase_behind(mode, phase->Flushing_0),
        RunEvent::Flushed(Err(_)) => RunPhase::Over,
        RunEvent::Request(true) => RunPhase::Executing,
        RunEvent::Request(false) => RunPhase::Writing(PtyCommand::RestorePrompt),
        RunEvent::Executed => RunPhase::Idle,
        RunEvent::Drained => RunPhase::Over,
    }
}

/// The loop returns `result` after `event`: the error of what failed, or success.
pub open spec fn is_result(
    phase: RunPhase,
    event: RunEvent,
    result: Result<(), TaskRunnerError>,
) -> bool {
    match event {
        RunEvent::Shell(Err(e)) => result matches Err(error) && error == e,
        RunEvent::Written(Err(e)) => result matches Err(error) && is_pty_error(
            error,
            phase->Writing_0.write_failure() + e@,
        ),
        RunEvent::Flushed(Err(e)) => result matches Err(error) && is_pty_error(
            error,
            "Failed to flush PTY: "@ + e@,
        ),
        _ => result is Ok,
    }
}

/// `action` is what is done in `phase`.
pub open spec fn is_action_of(phase: RunPhase, action: RunAction) -> bool {
    match phase {
        RunPhase::Waiting => action is WaitForShell,
        RunPhase::Notifying => action is NotifyReady,
        RunPhase::Writing(command) => action matches RunAction::Write(c) && c == command,
        RunPhase::Flushing(_) => action is Flush,
        RunPhase::Idle => action is NextRequest,
        RunPhase::Executing => action is Execute,
        RunPhase::Draining => action is Drain,
        RunPhase::Over => action is Return,
    }
}

/// The phase in which a loop starts.
pub open spec fn first_phase(mode: RunMode) -> RunPhase {
    match mode {
        RunMode::Direct => RunPhase::Writing(PtyCommand::DisablePrompt),
        RunMode::Screen => RunPhase::Waiting,
    }
}

/// The task loop.
pub struct TaskLoop {
    mode: RunMode,
    phase: RunPhase,
}

impl TaskLoop {
    pub closed spec fn mode(&self) -> RunMode {
        self.mode
    }

    pub closed spec fn phase(&self) -> RunPhase {
        self.phase
    }

    /// Starts a loop; returns it with its first action.
    pub fn start(mode: RunMode) -> (res: (TaskLoop, RunAction))
        ensures
            res.0.mode() == mode,
            res.0.phase() == first_phase(mode),
            is_action_of(first_phase(mode), res.1),
    {
        match mode {
            RunMode::Direct => {
                let first = PtyCommand::DisablePrompt;
                (TaskLoop { mode, phase: RunPhase::Writing(first) }, RunAction::Write(first))
            },
            RunMode::Screen => (
                TaskLoop { mode, phase: RunPhase::Waiting },
                RunAction::WaitForShell,
            ),
        }
    }

    /// Where the loop is.
    pub fn current_phase(&self) -> (res: RunPhase)
        ensures
            res == self.phase(),
    {
        self.phase
    }

    /// Ends the loop.
    fn over(&mut self, result: Result<(), TaskRunnerError>) -> (res: RunAction)
        ensures
            final(self).mode() == old(self).mode(),
            final(self).phase() == RunPhase::Over,
            res == RunAction::Return(result),
    {
        self.phase = RunPhase::Over;
        RunAction::Return(result)
    }

    /// Starts to write a command.
    fn write(&mut self, command: PtyCommand) -> (res: RunAction)
        ensures
            final(self).mode() == old(self).mode(),
            final(self).phase() == RunPhase::Writing(command),
            res == RunAction::Write(command),
    {
        self.phase = RunPhase::Writing(command);
        RunAction::Write(command)
    }

    /// Takes what came of the last action; returns the next one.
    pub fn next(&mut self, event: RunEvent) -> (res: RunAction)
        requires
            expects(old(self).phase(), event),
        ensures
            final(self).mode() == old(self).mode(),
            final(self).phase() == next_phase(old(self).mode(), old(self).phase(), event),
            is_action_of(final(self).phase(), res),
            res matches RunAction::Return(result) ==> is_result(old(self).phase(), event, result),
    {
        match event {
            RunEvent::Shell(Ok(())) => {
                self.phase = RunPhase::Notifying;
                RunAction::NotifyReady
            },
            RunEvent::Shell(Err(e)) => self.over(Err(e)),
            RunEvent::Notified => self.write(PtyCommand::DisablePrompt),
            RunEvent::Written(written) => {
                let command = match self.phase {
                    RunPhase::Writing(command) => command,
                    _ => PtyCommand::DisablePrompt,
                };
                match written {
                    Ok(()) => {
                        self.phase = RunPhase::Flushing(command);
                        RunAction::Flush
                    },
                    Err(e) => self.over(Err(command.write_error(e))),
                }
            },
            RunEvent::Flushed(Err(e)) => {
                let text = "Failed to flush PTY: ".to_owned().concat(e.as_str());
                self.over(Err(TaskRunnerError::Pty(text)))
            },
            RunEvent::Flushed(Ok(())) => match self.phase {
                RunPhase::Flushing(PtyCommand::DisablePrompt) => {
                    self.phase = RunPhase::Idle;
                    RunAction::NextRequest
                },
                RunPhase::Flushing(PtyCommand::RestorePrompt) => match self.mode {
                    RunMode::Direct => self.write(PtyCommand::EnableHistory),
                    RunMode::Screen => {
                        self.phase = RunPhase::Draining;
                        RunAction::Drain
                    },
                },
                _ => self.over(Ok(())),
            },
            RunEvent::Request(true) => {
                self.phase = RunPhase::Executing;
                RunAction::Execute
            },
            RunEvent::Request(false) => self.write(PtyCommand::RestorePrompt),
            RunEvent::Executed => {
                self.phase = RunPhase::Idle;
                RunAction::NextRequest
            },
            RunEvent::Drained => self.over(Ok(())),
        }
    }
}

/// The phase that a loop is in after `events`.
pub open spec fn phase_after(mode: RunMode, events: Seq<RunEvent>) -> RunPhase
    decreases events.len(),
{
    if events.len() == 0 {
        first_phase(mode)
    } else {
        next_phase(mode, phase_after(mode, events.drop_last()), events.last())
    }
}

/// A loop can see `events`: each came of what was going on.
pub open spec fn is_run(mode: RunMode, events: Seq<RunEvent>) -> bool
    decreases events.len(),
{
    events.len() > 0 ==> {
        &&& is_run(mode, events.drop_last())
        &&& expects(phase_after(mode, events.drop_last()), events.last())
    }
}

/// The commands that were typed into the shell and flushed, in order.
pub open spec fn typed_commands(mode: RunMode, events: Seq<RunEvent>) -> Seq<PtyCommand>
    decreases events.len(),
{
    if events.len() == 0 {
        seq![]
    } else {
        let before = typed_commands(mode, events.drop_last());
        match events.last() {
            RunEvent::Flushed(Ok(_)) => before.push(
                phase_after(mode, events.drop_last())->Flushing_0,
            ),
            _ => before,
        }
    }
}

/// The number of requests that were taken.
pub open spec fn requests_taken(events: Seq<RunEvent>) -> nat
    decreases events.len(),
{
    if events.len() == 0 {
        0
    } else {
        requests_taken(events.drop_last()) + if events.last() == RunEvent::Request(true) {
            1nat
        } else {
            0nat
        }
    }
}

/// The number of tasks that were run to their end.
pub open spec fn tasks_run(events: Seq<RunEvent>) -> nat
    decreases events.len(),
{
    if events.len() == 0 {
        0
    } else {
        tasks_run(events.drop_last()) + if events.last() is Executed {
            1nat
        } else {
            0nat
        }
    }
}

/// Every request that was taken was run to its end, but for the one that is running.
pub proof fn law_every_request_is_run(mode: RunMode, events: Seq<RunEvent>)
    requires
        is_run(mode, events),
    ensures
        requests_taken(events) == tasks_run(events) + if phase_after(mode, events)
            == RunPhase::Executing {
            1nat
        } else {
            0nat
        },
    decreases events.len(),
{
    if events.len() > 0 {
        law_every_request_is_run(mode, events.drop_last());
    }
}

/// The event ended a loop well.
pub open spec fn is_success(event: RunEvent) -> bool {
    match event {
        RunEvent::Flushed(Ok(_)) => true,
        RunEvent::Drained => true,
        _ => false,
    }
}

/// What a phase says of the events that led to it: which commands were typed, and
/// whether the channel of requests was closed.
proof fn lemma_phase_history(mode: RunMode, events: Seq<RunEvent>)
    requires
        is_run(mode, events),
    ensures
        ({
            let phase = phase_after(mode, events);
            let typed = typed_commands(mode, events);
            let closed = events.contains(RunEvent::Request(false));
            let disabled = seq![PtyCommand::DisablePrompt];
            let restored = seq![PtyCommand::DisablePrompt, PtyCommand::RestorePrompt];
            match phase {
                RunPhase::Waiting | RunPhase::Notifying => mode == RunMode::Screen && typed
                    == Seq::<PtyCommand>::empty(),
                RunPhase::Writing(PtyCommand::DisablePrompt) | RunPhase::Flushing(
                    PtyCommand::DisablePrompt,
                ) => typed == Seq::<PtyCommand>::empty(),
                RunPhase::Idle | RunPhase::Executing => typed == disabled,
                RunPhase::Writing(PtyCommand::RestorePrompt) | RunPhase::Flushing(
                    PtyCommand::RestorePrompt,
                ) => closed && typed == disabled,
                RunPhase::Writing(PtyCommand::EnableHistory) | RunPhase::Flushing(
                    PtyCommand::EnableHistory,
                ) => mode == RunMode::Direct && closed && typed == restored,
                RunPhase::Draining => mode == RunMode::Screen && closed && typed == restored,
                RunPhase::Over => events.len() > 0 && (is_success(events.last()) ==> closed && typed
                    == match mode {
                    RunMode::Direct => restored.push(PtyCommand::EnableHistory),
                    RunMode::Screen => restored,
                }),
            }
        }),
    decreases events.len(),
{
    if events.len() > 0 {
        let before = events.drop_last();
        lemma_phase_history(mode, before);
        let gone = RunEvent::Request(false);
        assert(before.contains(gone) ==> events.contains(gone)) by {
            if before.contains(gone) {
                let i = choose|i: int| 0 <= i < before.len() && before[i] == gone;
                assert(events[i] == gone);
            }
        }
        assert(events.last() == gone ==> events.contains(gone)) by {
            assert(events[events.len() - 1] == events.last());
        }
    }
}

/// A loop that returns well has run every task, up to the end of the requests, and
/// has typed exactly these commands around them, in this order: PROMPT_COMMAND is
/// disabled and restored, and then history is re-enabled, by a command of its own or,
/// with a screen, by the drain.
pub proof fn law_successful_run(
    mode: RunMode,
    events: Seq<RunEvent>,
    result: Result<(), TaskRunnerError>,
)
    requires
        is_run(mode, events),
        phase_after(mode, events) == RunPhase::Over,
        is_result(phase_after(mode, events.drop_last()), events.last(), result),
        result is Ok,
    ensures
        events.contains(RunEvent::Request(false)),
        requests_taken(events) == tasks_run(events),
        mode == RunMode::Direct ==> typed_commands(mode, events) == seq![
            PtyCommand::DisablePrompt,
            PtyCommand::RestorePrompt,
            PtyCommand::EnableHistory,
        ],
        mode == RunMode::Screen ==> typed_commands(mode, events) == seq![
            PtyCommand::DisablePrompt,
            PtyCommand::RestorePrompt,
        ] && events.last() is Drained,
{
    law_every_request_is_run(mode, events);
    lemma_phase_history(mode, events);
    let before = events.drop_last();
    lemma_phase_history(mode, before);
    if mode == RunMode::Direct {
        assert(typed_commands(mode, events) =~= seq![
            PtyCommand::DisablePrompt,
            PtyCommand::RestorePrompt,
            PtyCommand::EnableHistory,
        ]);
    }
}

/// The commands that were written, in order.
pub open spec fn commands_written(actions: Seq<RunAction>) -> Seq<PtyCommand>
    decreases actions.len(),
{
    if actions.len() == 0 {
        seq![]
    } else {
        let before = commands_written(actions.drop_last());
        match actions.last() {
            RunAction::Write(command) => before.push(command),
            _ => before,
        }
    }
}

/// A loop that is started, and then told of `events` one by one, can ask for `actions`.
pub open spec fn is_trace(
    mode: RunMode,
    actions: Seq<RunAction>,
    events: Seq<RunEvent>,
) -> bool
    decreases events.len(),
{
    &&& actions.len() == events.len() + 1
    &&& is_action_of(phase_after(mode, events), actions.last())
    &&& events.len() > 0 ==> {
        let phase = phase_after(mode, events.drop_last());
        &&& is_trace(mode, actions.drop_last(), events.drop_last())
        &&& expects(phase, events.last())
        &&& actions.last() matches RunAction::Return(result) ==> is_result(
            phase,
            events.last(),
            result,
        )
    }
}

/// `event` tells of a failure.
pub open spec fn is_failure(event: RunEvent) -> bool {
    match event {
        RunEvent::Shell(Err(_)) => true,
        RunEvent::Written(Err(_)) => true,
        RunEvent::Flushed(Err(_)) => true,
        _ => false,
    }
}

/// What a phase says of the actions and events that led to it.
proof fn lemma_trace(mode: RunMode, actions: Seq<RunAction>, events: Seq<RunEvent>)
    requires
        is_trace(mode, actions, events),
    ensures
        ({
            let written = commands_written(actions);
            let disabled = seq![PtyCommand::DisablePrompt];
            let restored = seq![PtyCommand::DisablePrompt, PtyCommand::RestorePrompt];
            let enabled = restored.push(PtyCommand::EnableHistory);
            match phase_after(mode, events) {
                RunPhase::Waiting => mode == RunMode::Screen && events.len() == 0 && written
                    == Seq::<PtyCommand>::empty(),
                RunPhase::Notifying => mode == RunMode::Screen && events.len() == 1 && written
                    == Seq::<PtyCommand>::empty(),
                RunPhase::Writing(PtyCommand::DisablePrompt) => written == disabled && events.len()
                    == if mode == RunMode::Screen {
                    2int
                } else {
                    0int
                },
                RunPhase::Flushing(PtyCommand::DisablePrompt) => written == disabled,
                RunPhase::Idle | RunPhase::Executing => written == disabled,
                RunPhase::Writing(PtyCommand::RestorePrompt) | RunPhase::Flushing(
                    PtyCommand::RestorePrompt,
                ) => written == restored,
                RunPhase::Writing(PtyCommand::EnableHistory) | RunPhase::Flushing(
                    PtyCommand::EnableHistory,
                ) => mode == RunMode::Direct && written == enabled,
                RunPhase::Draining => mode == RunMode::Screen && written == restored,
                RunPhase::Over => events.len() > 0 && (!is_failure(events.last()) ==> written
                    == match mode {
                    RunMode::Direct => enabled,
                    RunMode::Screen => restored,
                }),
            }
        }),
        is_run(mode, events),
    decreases events.len(),
{
    if events.len() > 0 {
        lemma_trace(mode, actions.drop_last(), events.drop_last());
        assert(seq![PtyCommand::DisablePrompt].push(PtyCommand::RestorePrompt) =~= seq![
            PtyCommand::DisablePrompt,
            PtyCommand::RestorePrompt,
        ]);
        assert(Seq::<PtyCommand>::empty().push(PtyCommand::DisablePrompt) =~= seq![
            PtyCommand::DisablePrompt,
        ]);
    } else {
        assert(actions.drop_last() =~= seq![]);
        assert(commands_written(actions.drop_last()) =~= seq![]);
        assert(Seq::<PtyCommand>::empty().push(PtyCommand::DisablePrompt) =~= seq![
            PtyCommand::DisablePrompt,
        ]);
    }
}

/// What the loop asks for first: the first command in a shell that is ready, and to wait
/// for the shell otherwise.
pub proof fn law_first_action(mode: RunMode, actions: Seq<RunAction>)
    requires
        is_trace(mode, actions, seq![]),
    ensures
        mode == RunMode::Direct ==> actions == seq![RunAction::Write(PtyCommand::DisablePrompt)],
        mode == RunMode::Screen ==> actions == seq![RunAction::WaitForShell],
{
    assert(actions =~= seq![actions.last()]);
}

/// Each event tells of what the loop asked for last.
pub proof fn law_event_answers_action(
    mode: RunMode,
    actions: Seq<RunAction>,
    events: Seq<RunEvent>,
)
    requires
        is_trace(mode, actions, events),
        events.len() > 0,
    ensures
        ({
            let asked = actions[actions.len() - 2];
            &&& asked is WaitForShell <==> events.last() is Shell
            &&& asked is NotifyReady <==> events.last() is Notified
            &&& asked is Write <==> events.last() is Written
            &&& asked is Flush <==> events.last() is Flushed
            &&& asked is NextRequest <==> events.last() is Request
            &&& asked is Execute <==> events.last() is Executed
            &&& asked is Drain <==> events.last() is Drained
            &&& !(asked is Return)
        }),
{
    assert(is_trace(mode, actions.drop_last(), events.drop_last()));
    assert(actions.drop_last().last() == actions[actions.len() - 2]);
}

/// When the loop asks for what, in any run:
/// - to announce the shell exactly when that has become ready, and then to disable
///   PROMPT_COMMAND;
/// - to flush exactly what was written;
/// - to run a task exactly when a request came;
/// - for the next request exactly when PROMPT_COMMAND was disabled or a task was run;
/// - to restore PROMPT_COMMAND exactly when the requests have ended, and to drain or to
///   re-enable history exactly after that;
/// - to return well exactly after the last of these, and with an error exactly when
///   something failed.
pub proof fn law_next_action(mode: RunMode, actions: Seq<RunAction>, events: Seq<RunEvent>)
    requires
        is_trace(mode, actions, events),
        events.len() > 0,
    ensures
        ({
            let event = events.last();
            let action = actions.last();
            let flushed = event matches RunEvent::Flushed(result) && result is Ok;
            let written = commands_written(actions.drop_last());
            let disabled = seq![PtyCommand::DisablePrompt];
            let restored = seq![PtyCommand::DisablePrompt, PtyCommand::RestorePrompt];
            let enabled = seq![
                PtyCommand::DisablePrompt,
                PtyCommand::RestorePrompt,
                PtyCommand::EnableHistory,
            ];
            &&& !(action is WaitForShell)
            &&& action is NotifyReady <==> (event matches RunEvent::Shell(result) && result is Ok)
            &&& action == RunAction::Write(PtyCommand::DisablePrompt) <==> event is Notified
            &&& action == RunAction::Write(PtyCommand::RestorePrompt) <==> event
                == RunEvent::Request(false)
            &&& action == RunAction::Write(PtyCommand::EnableHistory) <==> flushed && mode
                == RunMode::Direct && written == restored
            &&& action is Flush <==> (event matches RunEvent::Written(result) && result is Ok)
            &&& action is NextRequest <==> event is Executed || (flushed && written == disabled)
            &&& action is Execute <==> event == RunEvent::Request(true)
            &&& action is Drain <==> flushed && mode == RunMode::Screen && written == restored
            &&& (action matches RunAction::Return(result) && result is Ok) <==> {
                ||| event is Drained
                ||| flushed && written == enabled
            }
            &&& (action matches RunAction::Return(result) && result is Err) <==> is_failure(event)
        }),
{
    let before = actions.drop_last();
    lemma_trace(mode, before, events.drop_last());
    let restored = seq![PtyCommand::DisablePrompt, PtyCommand::RestorePrompt];
    assert(restored.push(PtyCommand::EnableHistory) =~= seq![
        PtyCommand::DisablePrompt,
        PtyCommand::RestorePrompt,
        PtyCommand::EnableHistory,
    ]);
    assert(seq![PtyCommand::DisablePrompt].len() == 1 && restored.len() == 2);
}

/// A loop that returns says truly how it went. Where it returns well, nothing had failed,
/// the requests had ended and each of them was run, the commands were written in their
/// order, and with a screen the drain came last. Where it returns an error, that is the
/// failure which the last event told of.
pub proof fn law_return(
    mode: RunMode,
    actions: Seq<RunAction>,
    events: Seq<RunEvent>,
    result: Result<(), TaskRunnerError>,
)
    requires
        is_trace(mode, actions, events),
        actions.last() == RunAction::Return(result),
    ensures
        events.len() > 0,
        result is Ok ==> {
            &&& forall|i: int| 0 <= i < events.len() ==> !is_failure(#[trigger] events[i])
            &&& events.contains(RunEvent::Request(false))
            &&& requests_taken(events) == tasks_run(events)
            &&& commands_written(actions) == match mode {
                RunMode::Direct => seq![
                    PtyCommand::DisablePrompt,
                    PtyCommand::RestorePrompt,
                    PtyCommand::EnableHistory,
                ],
                RunMode::Screen => seq![PtyCommand::DisablePrompt, PtyCommand::RestorePrompt],
            }
            &&& mode == RunMode::Screen <==> actions[actions.len() - 2] is Drain
        },
        result matches Err(error) ==> match events.last() {
            RunEvent::Shell(Err(e)) => error == e,
            RunEvent::Written(Err(e)) => {
                let start = match actions[actions.len() - 2] {
                    RunAction::Write(PtyCommand::DisablePrompt) =>
                        "Failed to disable PROMPT_COMMAND: "@,
                    RunAction::Write(PtyCommand::RestorePrompt) =>
                        "Failed to restore PROMPT_COMMAND: "@,
                    _ => "Failed to re-enable history: "@,
                };
                error matches TaskRunnerError::Pty(text) && text@ == start + e@
            },
            RunEvent::Flushed(Err(e)) => error matches TaskRunnerError::Pty(text) && text@
                == "Failed to flush PTY: "@ + e@,
            _ => false,
        },
{
    lemma_trace(mode, actions, events);
    let (front, before) = (actions.drop_last(), events.drop_last());
    assert(is_trace(mode, front, before));
    lemma_trace(mode, front, before);
    assert(front.last() == actions[actions.len() - 2]);
    if result is Ok {
        law_every_request_is_run(mode, events);
        lemma_phase_history(mode, events);
        lemma_no_failure_before(mode, events);
        assert forall|i: int| 0 <= i < events.len() implies !is_failure(#[trigger] events[i]) by {
            if i < before.len() {
                assert(before[i] == events[i]);
            }
        }
        let restored = seq![PtyCommand::DisablePrompt, PtyCommand::RestorePrompt];
        assert(restored.push(PtyCommand::EnableHistory) =~= seq![
            PtyCommand::DisablePrompt,
            PtyCommand::RestorePrompt,
            PtyCommand::EnableHistory,
        ]);
    }
}

/// A failure can only be the last event of a run.
proof fn lemma_no_failure_before(mode: RunMode, events: Seq<RunEvent>)
    requires
        is_run(mode, events),
    ensures
        events.len() > 0 ==> forall|i: int|
            0 <= i < events.len() - 1 ==> !is_failure(#[trigger] events[i]),
        phase_after(mode, events) != RunPhase::Over ==> forall|i: int|
            0 <= i < events.len() ==> !is_failure(#[trigger] events[i]),
    decreases events.len(),
{
    if events.len() > 0 {
        let before = events.drop_last();
        lemma_no_failure_before(mode, before);
        assert forall|i: int| 0 <= i < events.len() - 1 implies !is_failure(
            #[trigger] events[i],
        ) by {
            assert(before[i] == events[i]);
        }
        if phase_after(mode, events) != RunPhase::Over {
            assert(!is_failure(events.last()));
        }
    }
}

/// While tasks run, PROMPT_COMMAND is disabled, and nothing else was typed.
pub proof fn law_prompt_disabled_while_running(mode: RunMode, events: Seq<RunEvent>)
    requires
        is_run(mode, events),
        phase_after(mode, events) == RunPhase::Executing,
    ensures
        typed_commands(mode, events) == seq![PtyCommand::DisablePrompt],
{
    lemma_phase_history(mode, events);
}

/// With a screen, no command is typed before the shell is ready.
pub proof fn law_shell_is_ready_first(events: Seq<RunEvent>)
    requires
        is_run(RunMode::Screen, events),
        events.len() > 0,
    ensures
        events[0] is Shell,
        events.len() > 1 ==> (events[0] matches RunEvent::Shell(result) && result is Ok),
    decreases events.len(),
{
    if events.len() > 1 {
        let before = events.drop_last();
        law_shell_is_ready_first(before);
        assert(before[0] == events[0]);
        if events.len() == 2 {
            assert(before.drop_last() =~= seq![]);
            assert(phase_after(RunMode::Screen, before) == next_phase(
                RunMode::Screen,
                RunPhase::Waiting,
                events[0],
            ));
        }
    } else {
        assert(events.drop_last() =~= seq![]);
    }
}

} // verus!
