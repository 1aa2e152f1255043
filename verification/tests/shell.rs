use devenv_shell::shell::{is_valid_shell_var_name, push_escaped};
use devenv_shell::task_runner::command::{fence, task_line};
use devenv_shell::task_runner::execute::{TaskRun, TaskStep};
use devenv_shell::PtyTaskRequest;

fn escaped(value: &str) -> String {
    let mut out = String::new();
    push_escaped(&mut out, value);
    out
}

fn request(id: u64, command: &str) -> PtyTaskRequest {
    PtyTaskRequest { id, command: command.to_string(), cwd: None, env: Vec::new() }
}

#[test]
fn variable_names() {
    for name in ["a", "Z", "_", "PATH", "_x1", "a_B_9", "__"] {
        assert!(is_valid_shell_var_name(name));
    }
    for name in ["", "1a", "a-b", "a b", "a=", "é", "aé", "$x", "a;rm", "-", "a\n", "9"] {
        assert!(!is_valid_shell_var_name(name));
    }
}

#[test]
fn escaping() {
    assert_eq!(escaped("--aaa=bbb-ccc"), "--aaa=bbb-ccc");
    assert_eq!(escaped("a/b,c.d+e_f"), "a/b,c.d+e_f");
    assert_eq!(escaped(""), "''");
    assert_eq!(escaped("a b"), "'a b'");
    assert_eq!(escaped("$(rm -rf /)"), "'$(rm -rf /)'");
    assert_eq!(escaped("it's"), "'it'\\''s'");
    assert_eq!(escaped("hi!"), "'hi'\\!''");
    assert_eq!(escaped("a\nb"), "'a\nb'");
    assert_eq!(escaped("é"), "'é'");
}

#[test]
fn escaped_text_is_appended() {
    let mut out = String::from("X=");
    push_escaped(&mut out, "1 2");
    assert_eq!(out, "X='1 2'");
}

#[test]
fn fences() {
    assert_eq!(fence(0), "__DEVENV_FENCE_0__");
    assert_eq!(fence(42), "__DEVENV_FENCE_42__");
    assert_eq!(fence(u64::MAX), "__DEVENV_FENCE_18446744073709551615__");
    assert_ne!(fence(1), fence(11));
}

#[test]
fn plain_task_line() {
    assert_eq!(
        task_line(&request(7, "make"), false),
        "make; __e=$?; echo '{\"type\":\"task_end\",\"id\":7,\"exit_code\":'$__e'}' >&3; echo '__DEVENV_FENCE_7__'\n"
    );
}

#[test]
fn task_line_on_screen_starts_with_a_space() {
    let line = task_line(&request(7, "make"), true);
    assert_eq!(line, format!(" {}", task_line(&request(7, "make"), false)));
}

#[test]
fn task_line_with_setup() {
    let mut r = request(3, "make all");
    r.cwd = Some("/my dir".to_string());
    r.env = vec![
        ("A".to_string(), "1".to_string()),
        ("B;rm".to_string(), "2".to_string()),
        ("C".to_string(), "x y".to_string()),
        ("".to_string(), "3".to_string()),
    ];
    let line = task_line(&r, false);
    assert!(line.starts_with("export A=1; export C='x y'; cd '/my dir'; make all; __e=$?; echo "));
    assert!(line.ends_with(" >&3; echo '__DEVENV_FENCE_3__'\n"));
    assert!(!line.contains("rm"));
}

#[test]
fn only_invalid_names_export_nothing() {
    let mut r = request(3, "true");
    r.env = vec![("1".to_string(), "x".to_string())];
    assert_eq!(task_line(&r, false), task_line(&request(3, "true"), false));
}

#[test]
fn end_message_is_json() {
    let line = task_line(&request(42, "true"), false);
    let start = line.find("echo '").unwrap() + "echo ".len();
    let end = line.find(" >&3").unwrap();
    let argument = line[start..end].replace("$__e", "17").replace('\'', "");
    let message: serde_json::Value = serde_json::from_str(&argument).unwrap();
    assert_eq!(message["type"], "task_end");
    assert_eq!(message["id"], 42);
    assert_eq!(message["exit_code"], 17);
    assert_eq!(argument, "{\"type\":\"task_end\",\"id\":42,\"exit_code\":17}");
}

#[test]
fn echo_of_the_typed_line_does_not_end_the_output() {
    let line = task_line(&request(4, "make"), true);
    let mut run = TaskRun::new(4);
    run.on_output(&line);
    run.on_output(&format!("$ {}\r\n", line.trim_end()));
    assert_eq!(run.step(), TaskStep::Read);
    run.on_output("__DEVENV_FENCE_4__\r\n");
    assert_eq!(run.step(), TaskStep::Report);
}
