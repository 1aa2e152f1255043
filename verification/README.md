# devenv-shell

Shell and PTY logic of devenv, verified with Verus.

- `src/utf8_accumulator.rs`: UTF-8 decoding across read boundaries.
- `src/escape/osc.rs`: the parser of OSC query sequences.
- `src/shell.rs`: shell variable names and quoting.
- `src/text.rs`: decimals, lines, whitespace and escape sequences in output.
- `src/screen.rs`: the virtual terminal that shows output.
- `src/control_pipe.rs`: the control pipe and its messages.
- `src/protocol.rs`: requests and results.
- `src/task_runner/`: the decisions of the task runner. `command` builds the line
  that is typed for a task, `ready` waits for the shell, `execute` follows one task,
  `drain` drains pending output, and `run` is the loop around them.
- `tests/`: tests of the library.
- `app/`: the PTY, the FIFO and the async runtime around the library.

The laws of the library are the public proof functions whose names start with
`law_`. What is taken on trust of other crates and of the standard library is
stated at the items marked `external_body` or `assume_specification`.
