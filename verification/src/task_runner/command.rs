//! The shell command line of a task:
//! ```text
//! <command>; __e=$?; echo '{"type":"task_end",...}' >&3; echo __DEVENV_FENCE_<id>__
//! ```

use crate::protocol::PtyTaskRequest;
use crate::shell::{is_valid_shell_var_name, push_escaped};
use crate::text::push_decimal;
use vstd::prelude::*;
use vstd::string::*;

verus! {

/// The line by which the shell marks the end of the output of task `id`.
pub open spec fn fence_text(id: nat) -> Seq<char> {
    "__DEVENV_FENCE_"@ + crate::text::decimal(id) + "__"@
}

/// The fence of a task.
pub fn fence(id: u64) -> (res: String)
    ensures
        res@ == fence_text(id as nat),
{
    let mut res = "__DEVENV_FENCE_".to_owned();
    push_decimal(&mut res, id);
    res.append("__");
    res
}

/// A fence is visible ASCII.
pub proof fn lemma_fence_is_visible(id: nat)
    ensures
        crate::text::is_visible_ascii(fence_text(id)),
{
    reveal_strlit("__DEVENV_FENCE_");
    reveal_strlit("__");
    crate::text::lemma_decimal_digits(id);
    let s = fence_text(id);
    assert forall|i: int| 0 <= i < s.len() implies '!' <= #[trigger] s[i] <= '~' by {
        let n = crate::text::decimal(id).len();
        if 15 <= i < 15 + n {
            assert(s[i] == crate::text::decimal(id)[i - 15]);
        }
    }
}

/// No two tasks share a fence.
pub proof fn law_fences_differ(i: nat, j: nat)
    requires
        fence_text(i) == fence_text(j),
    ensures
        i == j,
{
    let (a, b) = (crate::text::decimal(i), crate::text::decimal(j));
    let (x, y) = (fence_text(i), fence_text(j));
    let (h, t) = ("__DEVENV_FENCE_"@.len() as int, "__"@.len() as int);
    assert(x.subrange(h, x.len() - t) =~= a);
    assert(y.subrange(h, y.len() - t) =~= b);
    crate::text::lemma_decimal_injective(i, j);
}

/// The fence of a task is its number in decimal between fixed words: the digits read
/// back as the number.
pub proof fn law_fence_names_task(id: nat)
    ensures
        ({
            let fence = fence_text(id);
            let (start, end) = ("__DEVENV_FENCE_"@, "__"@);
            let digits = fence.subrange(start.len() as int, fence.len() - end.len());
            &&& fence == start + digits + end
            &&& digits.len() > 0
            &&& forall|i: int| 0 <= i < digits.len() ==> '0' <= #[trigger] digits[i] <= '9'
            &&& digits[0] == '0' ==> digits.len() == 1
            &&& crate::text::digits_value(digits) == id
        }),
{
    let fence = fence_text(id);
    let (start, end) = ("__DEVENV_FENCE_"@, "__"@);
    let digits = fence.subrange(start.len() as int, fence.len() - end.len());
    crate::text::law_decimal_reads_back(id);
    assert(digits =~= crate::text::decimal(id));
}

/// The statement that exports a variable.
pub open spec fn export_statement(name: Seq<char>, value: Seq<char>) -> Seq<char> {
    "export "@ + (name + seq!['='] + crate::shell::shell_escaped(value))
}

/// The statement of a variable is `export` and one word, which the shell reads as the
/// name, an equals sign and the value, whatever characters the value has.
pub proof fn law_export_reads_back(name: Seq<char>, value: Seq<char>)
    requires
        crate::shell::valid_name(name),
    ensures
        ({
            let front = "export "@;
            let statement = export_statement(name, value);
            let word = statement.skip(front.len() as int);
            &&& statement == front + word
            &&& crate::shell::shell_word(word, false) == Some(name + seq!['='] + value)
        }),
{
    let front = "export "@;
    let statement = export_statement(name, value);
    let word = statement.skip(front.len() as int);
    assert(word =~= name + seq!['='] + crate::shell::shell_escaped(value));
    assert(statement =~= front + word);
    crate::shell::law_assignment_reads_back(name, value);
}

/// One statement for each variable with a valid name, in order.
pub open spec fn export_statements(env: Seq<(Seq<char>, Seq<char>)>) -> Seq<Seq<char>> {
    env.filter(|pair: (Seq<char>, Seq<char>)| crate::shell::valid_name(pair.0)).map_values(
        |pair: (Seq<char>, Seq<char>)| export_statement(pair.0, pair.1),
    )
}

/// The argument of the `echo` that reports the end of task `id`, where `status`
/// stands for the exit code.
pub open spec fn end_message_argument(id: nat, status: Seq<char>) -> Seq<char> {
    "'{\"type\":\"task_end\",\"id\":"@ + crate::text::decimal(id) + ",\"exit_code\":'"@ + status
        + "'}'"@
}

/// The statements that end every task: the exit code goes to the control pipe, then
/// the fence to the PTY.
pub open spec fn end_signal(id: nat) -> Seq<char> {
    "__e=$?; echo "@ + end_message_argument(id, "$__e"@) + " >&3; echo '"@ + fence_text(id) + "'"@
}

/// The statements, with a semicolon and a space between them.
pub open spec fn statement_line(statements: Seq<Seq<char>>) -> Seq<char>
    decreases statements.len(),
{
    if statements.len() == 0 {
        seq![]
    } else if statements.len() == 1 {
        statements[0]
    } else {
        statement_line(statements.drop_last()) + "; "@ + statements.last()
    }
}

impl PtyTaskRequest {
    /// What is set up before the command: the variables, then the directory.
    pub open spec fn setup_statements(&self) -> Seq<Seq<char>> {
        let exports = export_statements(crate::protocol::env_texts(self.env@));
        match self.cwd {
            Some(cwd) => exports.push("cd "@ + crate::shell::shell_escaped(cwd@)),
            None => exports,
        }
    }

    /// All statements of the task, in order.
    pub open spec fn statements(&self) -> Seq<Seq<char>> {
        self.setup_statements().push(self.command@).push(end_signal(self.id as nat))
    }

    /// The line that is typed into the shell. A space in front of it, where the
    /// output is shown on a screen, keeps it out of the history.
    pub open spec fn typed_line(&self, on_screen: bool) -> Seq<char> {
        let lead = if on_screen {
            " "@
        } else {
            seq![]
        };
        lead + statement_line(self.statements()) + "\n"@
    }
}

/// Joins statements with a semicolon and a space.
fn join_statements(statements: &Vec<String>) -> (res: String)
    ensures
        res@ == statement_line(statements@.map_values(|s: String| s@)),
{
    let ghost texts = statements@.map_values(|s: String| s@);
    let mut res = String::new();
    let mut i: usize = 0;
    while i < statements.len()
        invariant
            i <= statements@.len(),
            texts == statements@.map_values(|s: String| s@),
            res@ == statement_line(texts.take(i as int)),
        decreases statements@.len() - i,
    {
        if i > 0 {
            res.append("; ");
        }
        res.append(statements[i].as_str());
        proof {
            let next = texts.take(i + 1);
            assert(next.drop_last() =~= texts.take(i as int));
            assert(next.last() == statements@[i as int]@);
            assert(res@ =~= statement_line(next));
        }
        i += 1;
    }
    assert(texts.take(i as int) =~= texts);
    res
}

/// The export statements of the variables whose names are valid. The names are
/// checked to prevent shell injection.
fn export_all(env: &Vec<(String, String)>) -> (res: Vec<String>)
    ensures
        res@.map_values(|s: String| s@) == export_statements(crate::protocol::env_texts(env@)),
{
    let ghost texts = crate::protocol::env_texts(env@);
    let mut res: Vec<String> = Vec::new();
    let mut i: usize = 0;
    proof {
        reveal(Seq::filter);
        assert(export_statements(texts.take(0)) =~= seq![]);
    }
    while i < env.len()
        invariant
            i <= env@.len(),
            texts == crate::protocol::env_texts(env@),
            res@.map_values(|s: String| s@) == export_statements(texts.take(i as int)),
        decreases env@.len() - i,
    {
        let (name, value) = (&env[i].0, &env[i].1);
        let ghost before = res@;
        let ghost next = texts.take(i + 1);
        proof {
            reveal(Seq::filter);
            assert(next.drop_last() =~= texts.take(i as int));
            assert(next.last() == (name@, value@));
        }
        if is_valid_shell_var_name(name.as_str()) {
            let mut statement = "export ".to_owned();
            statement.append(name.as_str());
            statement.push('=');
            push_escaped(&mut statement, value.as_str());
            assert(statement@ =~= export_statement(name@, value@));
            res.push(statement);
            assert(res@.map_values(|s: String| s@) =~= before.map_values(|s: String| s@).push(
                export_statement(name@, value@),
            ));
            assert(export_statements(next) =~= export_statements(texts.take(i as int)).push(
                export_statement(name@, value@),
            ));
        } else {
            assert(export_statements(next) =~= export_statements(texts.take(i as int)));
        }
        i += 1;
    }
    assert(texts.take(i as int) =~= texts);
    res
}

/// The statements that report the exit code of a task and echo its fence.
fn end_signal_statement(id: u64) -> (res: String)
    ensures
        res@ == end_signal(id as nat),
{
    let mut res = "__e=$?; echo ".to_owned();
    res.append("'{\"type\":\"task_end\",\"id\":");
    push_decimal(&mut res, id);
    res.append(",\"exit_code\":'");
    res.append("$__e");
    res.append("'}'");
    res.append(" >&3; echo '");
    res.append(fence(id).as_str());
    res.append("'");
    assert(res@ =~= end_signal(id as nat));
    res
}

/// The line that is typed into the shell to run a task.
///
/// Variables with invalid names are left out. The exit code is written to the
/// control pipe before the fence is echoed.
pub fn task_line(request: &PtyTaskRequest, on_screen: bool) -> (res: String)
    ensures
        res@ == request.typed_line(on_screen),
{
    let mut statements = export_all(&request.env);
    let ghost exports = statements@;
    if let Some(cwd) = &request.cwd {
        let mut statement = "cd ".to_owned();
        push_escaped(&mut statement, cwd.as_str());
        statements.push(statement);
    }
    statements.push(request.command.clone());
    statements.push(end_signal_statement(request.id));
    assert(statements@.map_values(|s: String| s@) =~= request.statements());
    let mut res = String::new();
    if on_screen {
        // A space in front prevents the command from being saved to the history.
        res.append(" ");
    }
    res.append(join_statements(&statements).as_str());
    res.append("\n");
    assert(res@ =~= request.typed_line(on_screen));
    res
}

/// A variable whose name is invalid changes nothing, wherever it stands; one whose
/// name is valid gives its statement between those of its neighbours.
pub proof fn law_only_valid_names_are_exported(
    before: Seq<(Seq<char>, Seq<char>)>,
    name: Seq<char>,
    value: Seq<char>,
    after: Seq<(Seq<char>, Seq<char>)>,
)
    ensures
        !crate::shell::valid_name(name) ==> export_statements(before + seq![(name, value)] + after)
            == export_statements(before + after),
        crate::shell::valid_name(name) ==> export_statements(before + seq![(name, value)] + after)
            == export_statements(before) + seq![export_statement(name, value)] + export_statements(
            after,
        ),
{
    let valid = |pair: (Seq<char>, Seq<char>)| crate::shell::valid_name(pair.0);
    let one = seq![(name, value)];
    Seq::filter_distributes_over_add(before + one, after, valid);
    Seq::filter_distributes_over_add(before, one, valid);
    Seq::filter_distributes_over_add(before, after, valid);
    reveal(Seq::filter);
    assert(one.drop_last() =~= seq![]);
    assert(one.drop_last().filter(valid) =~= seq![]);
    if valid(one[0]) {
        assert(one.filter(valid) =~= one);
        assert(export_statements(before + one + after) =~= export_statements(before) + seq![
            export_statement(name, value),
        ] + export_statements(after));
    } else {
        assert(one.filter(valid) =~= seq![]);
        assert((before + one + after).filter(valid) =~= (before + after).filter(valid));
    }
}

/// The typed line is the setup, the command, the report of the exit code to the
/// control pipe and the echo of the fence, in this order, and nothing else. So the
/// message is in the pipe by the time the fence is seen.
pub proof fn law_report_precedes_fence(request: PtyTaskRequest, on_screen: bool)
    ensures
        ({
            let lead = if on_screen {
                " "@
            } else {
                seq![]
            };
            let setup = if request.setup_statements().len() == 0 {
                seq![]
            } else {
                statement_line(request.setup_statements()) + "; "@
            };
            let id = request.id as nat;
            request.typed_line(on_screen) == lead + setup + request.command@ + "; "@
                + "__e=$?; echo "@ + end_message_argument(id, "$__e"@) + " >&3; echo '"@
                + fence_text(id) + "'"@ + "\n"@
        }),
{
    let setup = request.setup_statements();
    let with_command = setup.push(request.command@);
    let all = request.statements();
    assert(with_command.drop_last() =~= setup);
    assert(all.drop_last() =~= with_command);
    assert(statement_line(all) == statement_line(with_command) + "; "@ + end_signal(
        request.id as nat,
    ));
    let lead: Seq<char> = if on_screen {
        " "@
    } else {
        seq![]
    };
    let front: Seq<char> = if setup.len() == 0 {
        seq![]
    } else {
        statement_line(setup) + "; "@
    };
    assert(statement_line(with_command) =~= front + request.command@);
    let id = request.id as nat;
    assert(request.typed_line(on_screen) =~= lead + front + request.command@ + "; "@
        + "__e=$?; echo "@ + end_message_argument(id, "$__e"@) + " >&3; echo '"@ + fence_text(id)
        + "'"@ + "\n"@);
}

/// A statement in front of others is followed by a semicolon, a space and the others.
proof fn lemma_statement_in_front(first: Seq<char>, rest: Seq<Seq<char>>)
    requires
        rest.len() > 0,
    ensures
        statement_line(seq![first] + rest) == first + "; "@ + statement_line(rest),
    decreases rest.len(),
{
    let all = seq![first] + rest;
    assert(all.last() == rest.last());
    assert(statement_line(all) == statement_line(all.drop_last()) + "; "@ + rest.last());
    if rest.len() == 1 {
        assert(all.drop_last() =~= seq![first]);
        assert(statement_line(seq![first]) == first);
    } else {
        let front = rest.drop_last();
        lemma_statement_in_front(first, front);
        assert(all.drop_last() =~= seq![first] + front);
        assert(statement_line(rest) == statement_line(front) + "; "@ + rest.last());
        assert(first + "; "@ + statement_line(front) + "; "@ + rest.last() =~= first + "; "@
            + statement_line(rest));
    }
}

/// A task without variables and directory is typed as its command, the report of the exit
/// code to the control pipe, and the echo of its fence.
pub proof fn law_bare_line(request: PtyTaskRequest)
    requires
        request.env@.len() == 0,
        request.cwd is None,
    ensures
        request.typed_line(false) == request.command@
            + "; __e=$?; echo '{\"type\":\"task_end\",\"id\":"@ + crate::text::decimal(
            request.id as nat,
        ) + ",\"exit_code\":'$__e'}' >&3; echo '"@ + fence_text(request.id as nat) + "'\n"@,
{
    reveal_strlit("; __e=$?; echo '{\"type\":\"task_end\",\"id\":");
    reveal_strlit(",\"exit_code\":'$__e'}' >&3; echo '");
    reveal_strlit("'\n");
    reveal_strlit("; ");
    reveal_strlit("__e=$?; echo ");
    reveal_strlit("'{\"type\":\"task_end\",\"id\":");
    reveal_strlit(",\"exit_code\":'");
    reveal_strlit("$__e");
    reveal_strlit("'}'");
    reveal_strlit(" >&3; echo '");
    reveal_strlit("'");
    reveal_strlit("\n");
    reveal(Seq::filter);
    law_report_precedes_fence(request, false);
    assert(crate::protocol::env_texts(request.env@) =~= seq![]);
    assert(request.setup_statements().len() == 0);
    let number = crate::text::decimal(request.id as nat);
    let report = "; "@ + "__e=$?; echo "@ + end_message_argument(request.id as nat, "$__e"@)
        + " >&3; echo '"@;
    assert(report =~= "; __e=$?; echo '{\"type\":\"task_end\",\"id\":"@ + number
        + ",\"exit_code\":'$__e'}' >&3; echo '"@);
    assert("'"@ + "\n"@ =~= "'\n"@);
    assert(request.typed_line(false) =~= request.command@ + report + fence_text(request.id as nat)
        + ("'"@ + "\n"@));
}

/// A line that is shown on a screen has one space in front, and is the same otherwise.
pub proof fn law_space_in_front(request: PtyTaskRequest)
    ensures
        request.typed_line(true) == seq![' '] + request.typed_line(false),
{
    reveal_strlit(" ");
    assert(request.typed_line(true) =~= seq![' '] + request.typed_line(false));
}

/// A directory adds one statement in front of a task without variables: `cd` and one
/// word, which the shell reads as the directory.
pub proof fn law_directory_in_front(request: PtyTaskRequest, other: PtyTaskRequest)
    requires
        request.env@.len() == 0,
        other.env@.len() == 0,
        request.cwd is Some,
        other.cwd is None,
        request.id == other.id,
        request.command@ == other.command@,
    ensures
        ({
            let front = "cd "@;
            let line = request.typed_line(false);
            let rest = "; "@ + other.typed_line(false);
            let word = line.subrange(front.len() as int, line.len() - rest.len());
            &&& line == front + word + rest
            &&& crate::shell::shell_word(word, false) == Some(request.cwd->0@)
        }),
{
    reveal(Seq::filter);
    assert(crate::protocol::env_texts(request.env@) =~= seq![]);
    assert(crate::protocol::env_texts(other.env@) =~= seq![]);
    let escaped = crate::shell::shell_escaped(request.cwd->0@);
    let statement = "cd "@ + escaped;
    assert(request.statements() =~= seq![statement] + other.statements());
    lemma_statement_in_front(statement, other.statements());
    crate::shell::law_escaped_reads_back(request.cwd->0@);
    let line = request.typed_line(false);
    let rest = "; "@ + other.typed_line(false);
    assert(line =~= "cd "@ + escaped + rest);
    assert(line.subrange("cd "@.len() as int, line.len() - rest.len()) =~= escaped);
}

/// A variable in front of the others changes nothing where its name is invalid, and adds
/// one statement in front of the line otherwise: `export` and one word, which the shell
/// reads as the name, an equals sign and the value.
pub proof fn law_variable_in_front(
    request: PtyTaskRequest,
    other: PtyTaskRequest,
    name: Seq<char>,
    value: Seq<char>,
)
    requires
        crate::protocol::env_texts(request.env@) == seq![(name, value)]
            + crate::protocol::env_texts(other.env@),
        request.cwd == other.cwd,
        request.id == other.id,
        request.command@ == other.command@,
    ensures
        !crate::shell::valid_name(name) ==> request.typed_line(false) == other.typed_line(false),
        crate::shell::valid_name(name) ==> {
            let front = "export "@;
            let line = request.typed_line(false);
            let rest = "; "@ + other.typed_line(false);
            let word = line.subrange(front.len() as int, line.len() - rest.len());
            &&& line == front + word + rest
            &&& crate::shell::shell_word(word, false) == Some(name + seq!['='] + value)
        },
{
    let nothing: Seq<(Seq<char>, Seq<char>)> = seq![];
    let others = crate::protocol::env_texts(other.env@);
    let env = crate::protocol::env_texts(request.env@);
    law_only_valid_names_are_exported(nothing, name, value, others);
    assert(nothing + seq![(name, value)] + others =~= env);
    assert(nothing + others =~= others);
    reveal(Seq::filter);
    assert(export_statements(nothing) =~= seq![]);
    if crate::shell::valid_name(name) {
        let statement = export_statement(name, value);
        assert(export_statements(env) =~= seq![statement] + export_statements(others));
        assert(request.statements() =~= seq![statement] + other.statements());
        lemma_statement_in_front(statement, other.statements());
        law_export_reads_back(name, value);
        let line = request.typed_line(false);
        let rest = "; "@ + other.typed_line(false);
        let front = "export "@;
        let word = statement.skip(front.len() as int);
        assert(line =~= front + word + rest);
        assert(line.subrange(front.len() as int, line.len() - rest.len()) =~= word);
    } else {
        assert(request.statements() =~= other.statements());
    }
}

/// The shell's echo of the typed line, behind any prompt, is not taken for the fence
/// that the line holds.
pub proof fn law_echoed_command_is_no_fence(
    prompt: Seq<char>,
    request: PtyTaskRequest,
    on_screen: bool,
)
    ensures
        ({
            let line = prompt + request.typed_line(on_screen).drop_last();
            let fence = fence_text(request.id as nat);
            &&& !crate::text::plain_line_says(line, fence)
            &&& !crate::text::plain_line_says(line.push('\r'), fence)
        }),
{
    reveal_strlit("__");
    reveal_strlit("'");
    reveal_strlit("\n");
    law_report_precedes_fence(request, on_screen);
    let line = prompt + request.typed_line(on_screen).drop_last();
    let fence = fence_text(request.id as nat);
    assert(line.last() == '\'');
    assert(line.drop_last().push('\'') =~= line);
    assert(fence.last() == '_');
    if crate::text::plain_line_says(line, fence) || crate::text::plain_line_says(
        line.push('\r'),
        fence,
    ) {
        crate::text::lemma_plain_line_end(line.drop_last(), '\'', fence);
    }
}

/// The message that reports the end of a task.
pub open spec fn end_message(id: nat, exit_code: nat) -> Seq<char> {
    "{\"type\":\"task_end\",\"id\":"@ + crate::text::decimal(id) + ",\"exit_code\":"@
        + crate::text::decimal(exit_code) + "}"@
}

/// Once the shell has put the exit code in place of `$__e`, it reads the argument
/// of the `echo` as one word: the message with the task's number and exit code.
pub proof fn law_end_message(id: nat, exit_code: nat)
    ensures
        crate::shell::shell_word(
            end_message_argument(id, crate::text::decimal(exit_code)),
            false,
        ) == Some(end_message(id, exit_code)),
{
    reveal_strlit("'{\"type\":\"task_end\",\"id\":");
    reveal_strlit("{\"type\":\"task_end\",\"id\":");
    reveal_strlit(",\"exit_code\":'");
    reveal_strlit(",\"exit_code\":");
    reveal_strlit("'}'");
    reveal_strlit("}");
    let number = crate::text::decimal(id);
    let code = crate::text::decimal(exit_code);
    crate::text::lemma_decimal_digits(id);
    crate::text::lemma_decimal_digits(exit_code);
    let first = "{\"type\":\"task_end\",\"id\":"@ + number + ",\"exit_code\":"@;
    let last = "}"@;
    let quote: Seq<char> = seq!['\''];
    let nothing: Seq<char> = seq![];
    assert(!first.contains('\'')) by {
        assert forall|i: int| 0 <= i < first.len() implies first[i] != '\'' by {
            let n = "{\"type\":\"task_end\",\"id\":"@.len();
            if n <= i < n + number.len() {
                assert(first[i] == number[i - n]);
                assert(crate::text::is_digit(number[i - n]));
            }
        }
    }
    assert(!last.contains('\''));
    assert(forall|i: int| 0 <= i < code.len() ==> crate::text::is_digit(#[trigger] code[i]));
    let closing = quote + last + quote + nothing;
    let tail = code + closing;
    assert(end_message_argument(id, code) =~= quote + first + quote + tail);
    crate::shell::lemma_single_quoted(first, tail);
    crate::shell::lemma_literals_read_back(code, closing);
    crate::shell::lemma_single_quoted(last, nothing);
    assert(first + (code + (last + nothing)) =~= end_message(id, exit_code));
}

/// The shell reads the quoted fence as the fence.
pub proof fn law_fence_argument(id: nat)
    ensures
        crate::shell::shell_word("'"@ + fence_text(id) + "'"@, false) == Some(fence_text(id)),
{
    reveal_strlit("'");
    let fence = fence_text(id);
    let nothing: Seq<char> = seq![];
    lemma_fence_is_visible(id);
    reveal_strlit("__DEVENV_FENCE_");
    reveal_strlit("__");
    crate::text::lemma_decimal_digits(id);
    assert forall|i: int| 0 <= i < fence.len() implies fence[i] != '\'' by {
        let n = crate::text::decimal(id).len();
        if 15 <= i < 15 + n {
            assert(fence[i] == crate::text::decimal(id)[i - 15]);
            assert(crate::text::is_digit(fence[i]));
        }
    }
    crate::shell::lemma_single_quoted(fence, nothing);
    assert("'"@ + fence + "'"@ =~= seq!['\''] + fence + seq!['\''] + nothing);
    assert(fence + nothing =~= fence);
}

} // verus!
