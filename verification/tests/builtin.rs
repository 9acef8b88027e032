use shell::builtin::{
    Builtin, CdTarget, CompleteCommand, CompletionTable, EchoCommand, TypeCommand, UnknownCommand,
    strip_os_error_suffix, strip_os_error_text,
};

fn strings(parts: &[&str]) -> Vec<String> {
    parts.iter().map(|s| s.to_string()).collect()
}

fn run_complete(table: &mut CompletionTable, args: &[&str]) -> (i32, String) {
    let out = CompleteCommand { args: strings(args) }.execute(table);
    assert_eq!(out.stderr, "");
    (out.code, out.stdout)
}

#[test]
fn test_list_commands() {
    assert_eq!(
        Builtin::builtin_cmds(),
        vec!["cd", "complete", "declare", "echo", "exit", "history", "jobs", "pwd", "type"]
    );
}

#[test]
fn test_strip_os_error_removes_suffix() {
    // errno 2 = ENOENT on Linux; Rust formats it as "No such file or directory (os error 2)"
    let e = std::io::Error::from_raw_os_error(2);
    let msg = strip_os_error_suffix(&e);
    assert_eq!(msg, "No such file or directory");
}

#[test]
fn test_strip_os_error_no_suffix_unchanged() {
    let e = std::io::Error::other("something went wrong");
    assert_eq!(strip_os_error_suffix(&e), "something went wrong");
}

#[test]
fn test_strip_os_error_permission_denied() {
    // errno 13 = EACCES; verify a second OS error is also stripped correctly
    let e = std::io::Error::from_raw_os_error(13);
    let msg = strip_os_error_suffix(&e);
    assert_eq!(msg, "Permission denied");
}

#[test]
fn strip_os_error_text_cuts_at_first_marker() {
    assert_eq!(strip_os_error_text("a (os error 1) b (os error 2)"), "a");
    assert_eq!(strip_os_error_text(" (os error 5)"), "");
    assert_eq!(strip_os_error_text("no marker (os erro"), "no marker (os erro");
    assert_eq!(strip_os_error_text(""), "");
}

#[test]
fn test_echo_no_args_returns_zero() {
    let out = EchoCommand { args: vec![] }.execute();
    assert_eq!(out.code, 0);
    assert_eq!(out.stdout, "\n");
}

#[test]
fn test_echo_with_args_returns_zero() {
    let out = EchoCommand { args: strings(&["hello", "world"]) }.execute();
    assert_eq!(out.code, 0);
    assert_eq!(out.stdout, "hello world\n");
    assert_eq!(out.stderr, "");
}

#[test]
fn test_unknown_returns_zero() {
    let out = UnknownCommand { cmd: "nope".to_string() }.execute();
    assert_eq!(out.code, 0);
}

#[test]
fn test_unknown_command_error_message() {
    let out = UnknownCommand { cmd: "foobar".to_string() }.execute();
    assert_eq!(out.code, 0);
    assert_eq!(out.stderr.trim(), "foobar: command not found");
    assert_eq!(out.stdout, "");
}

#[test]
fn test_check_type_builtin_returns_zero() {
    let out = TypeCommand { args: strings(&["echo"]), paths: vec![] }.execute(|_p: &String| true);
    assert_eq!(out.code, 0);
    assert_eq!(out.stdout, "echo is a shell builtin\n");
}

#[test]
fn test_check_type_with_path_returns_zero() {
    let out = TypeCommand { args: strings(&["ls"]), paths: strings(&["/usr/bin"]) }
        .execute(|p: &String| p == "/usr/bin/ls");
    assert_eq!(out.code, 0);
    assert!(out.stdout.contains("ls is"));
    assert_eq!(out.stdout, "ls is /usr/bin/ls\n");
}

#[test]
fn test_check_type_unknown_returns_zero() {
    let out = TypeCommand { args: strings(&["notabuiltin_xyz"]), paths: vec![] }
        .execute(|_p: &String| true);
    assert_eq!(out.code, 0);
    assert_eq!(out.stdout, "notabuiltin_xyz: not found\n");
}

#[test]
fn test_check_type_builtin_not_classified_as_path() {
    // A builtin must be reported as a builtin even when a matching PATH entry exists.
    let out = TypeCommand { args: strings(&["pwd"]), paths: strings(&["/usr/bin"]) }
        .execute(|_p: &String| true);
    assert_eq!(out.code, 0);
    assert_eq!(out.stdout, "pwd is a shell builtin\n");
}

#[test]
fn type_reports_each_argument_in_order() {
    let out = TypeCommand {
        args: strings(&["cd", "tool", "missing"]),
        paths: strings(&["/a", "/b/"]),
    }
    .execute(|p: &String| p == "/b/tool");
    assert_eq!(out.stdout, "cd is a shell builtin\ntool is /b/tool\nmissing: not found\n");
}

#[test]
fn test_completion_empty_args_outputs_newline() {
    let mut t = CompletionTable::new();
    let (code, output) = run_complete(&mut t, &[]);
    assert_eq!(code, 0);
    assert_eq!(output, "\n");
}

#[test]
fn test_completion_unknown_flag_outputs_newline() {
    let mut t = CompletionTable::new();
    let (code, output) = run_complete(&mut t, &["one_arg"]);
    assert_eq!(code, 0);
    assert_eq!(output, "\n");
}

#[test]
fn test_completion_p_no_spec_returns_message() {
    let mut t = CompletionTable::new();
    let (code, output) = run_complete(&mut t, &["-p", "git"]);
    assert_eq!(code, 0);
    assert_eq!(output, "complete: git: no completion specification\n");
}

#[test]
fn test_completion_set_and_get() {
    let mut t = CompletionTable::new();
    let (set_code, set_out) = run_complete(&mut t, &["-C", "/path/to/git/completer", "git"]);
    assert_eq!(set_code, 0);
    assert_eq!(set_out, "");
    let (get_code, get_out) = run_complete(&mut t, &["-p", "git"]);
    assert_eq!(get_code, 0);
    assert_eq!(get_out, "complete -C '/path/to/git/completer' git\n");
}

#[test]
fn test_completion_set_remove_and_get() {
    let mut t = CompletionTable::new();
    run_complete(&mut t, &["-C", "/path/to/git/completer", "git"]);
    let (_, out) = run_complete(&mut t, &["-p", "git"]);
    assert_eq!(out, "complete -C '/path/to/git/completer' git\n");
    run_complete(&mut t, &["-r", "git"]);
    let (_, out) = run_complete(&mut t, &["-p", "git"]);
    assert_eq!(out, "complete: git: no completion specification\n");
}

#[test]
fn completion_wrong_argument_counts_output_newline() {
    let mut t = CompletionTable::new();
    assert_eq!(run_complete(&mut t, &["-C", "only_program"]).1, "\n");
    assert_eq!(run_complete(&mut t, &["-p"]).1, "\n");
    assert_eq!(run_complete(&mut t, &["-r", "a", "b"]).1, "\n");
    assert!(t.get("only_program").is_none());
}

#[test]
fn completion_register_replaces_and_keeps_others() {
    let mut t = CompletionTable::new();
    run_complete(&mut t, &["-C", "/old", "git"]);
    run_complete(&mut t, &["-C", "/cargo", "cargo"]);
    run_complete(&mut t, &["-C", "/new", "git"]);
    assert_eq!(run_complete(&mut t, &["-p", "git"]).1, "complete -C '/new' git\n");
    assert_eq!(run_complete(&mut t, &["-p", "cargo"]).1, "complete -C '/cargo' cargo\n");
    run_complete(&mut t, &["-r", "git"]);
    assert_eq!(run_complete(&mut t, &["-p", "cargo"]).1, "complete -C '/cargo' cargo\n");
    // removing an absent name changes nothing
    run_complete(&mut t, &["-r", "git"]);
    assert_eq!(t.get("cargo").map(|s| s.as_str()), Some("/cargo"));
}

#[test]
fn builtin_holds_completions() {
    let mut b = Builtin::new();
    assert!(b.completions().get("x").is_none());
    b.completions_mut().insert("x".to_string(), "/x".to_string());
    assert_eq!(b.completions().get("x").map(|s| s.as_str()), Some("/x"));
    let mut table = CompletionTable::new();
    table.insert("y".to_string(), "/y".to_string());
    let b2 = Builtin::with_completions(table);
    assert_eq!(b2.completions().get("y").map(|s| s.as_str()), Some("/y"));
}

#[test]
fn is_builtin_matches_list() {
    for name in Builtin::builtin_cmds() {
        assert!(Builtin::is_builtin(name));
    }
    assert!(!Builtin::is_builtin("ls"));
    assert!(!Builtin::is_builtin("ech"));
    assert!(!Builtin::is_builtin(""));
}

#[test]
fn cd_target_home_for_empty_and_tilde() {
    assert!(matches!(Builtin::cd_target(""), CdTarget::Home));
    assert!(matches!(Builtin::cd_target("~"), CdTarget::Home));
    match Builtin::cd_target("/tmp") {
        CdTarget::Path(p) => assert_eq!(p, "/tmp"),
        CdTarget::Home => panic!("expected a path"),
    }
    assert_eq!(
        Builtin::cd_error_message("/nope", "No such file or directory"),
        "cd: /nope: No such file or directory"
    );
}
