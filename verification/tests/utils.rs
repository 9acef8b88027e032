use shell::commands::{Commands, CommandError, Dispatch};
use shell::utils::{find_in_paths, join_path_string, mode_is_executable, paths_from_var};

#[test]
fn get_paths_returns_strings() {
    let paths = paths_from_var(Some("/usr/local/bin:/usr/bin:/bin"));
    for p in &paths {
        assert!(!p.is_empty());
    }
    assert_eq!(paths, vec!["/usr/local/bin", "/usr/bin", "/bin"]);
}

#[test]
fn paths_from_var_drops_empty_pieces() {
    assert_eq!(paths_from_var(Some("a::b:")), vec!["a", "b"]);
    assert!(paths_from_var(Some("")).is_empty());
    assert_eq!(paths_from_var(Some(":/bin")), vec!["/bin"]);
    assert!(paths_from_var(None).is_empty());
}

#[test]
fn commands_test_new_reads_path_entries() {
    let cmds = Commands::new(Some("/usr/bin:/bin"));
    assert!(cmds.paths.contains(&"/usr/bin".to_string()));
    assert!(cmds.paths.contains(&"/bin".to_string()));
}

#[test]
fn commands_test_new_empty_when_path_unset() {
    let cmds = Commands::new(None);
    assert!(cmds.paths.is_empty());
}

#[test]
fn mode_bits() {
    assert!(mode_is_executable(0o755));
    assert!(mode_is_executable(0o100));
    assert!(mode_is_executable(0o001));
    assert!(!mode_is_executable(0o644));
}

#[test]
fn join_like_path_join() {
    assert_eq!(join_path_string("/usr/bin", "ls"), "/usr/bin/ls");
    assert_eq!(join_path_string("/usr/bin/", "ls"), "/usr/bin/ls");
    assert_eq!(join_path_string("", "ls"), "ls");
    assert_eq!(join_path_string("/usr/bin", "/bin/ls"), "/bin/ls");
    for (d, n) in [("/usr/bin", "ls"), ("/a/", "b"), ("", "x"), ("/x", "/y"), ("rel", "z"), ("/etc", "")] {
        let std_join = std::path::Path::new(d).join(n).to_string_lossy().into_owned();
        assert_eq!(join_path_string(d, n), std_join);
    }
}

#[test]
fn find_in_paths_takes_first_match() {
    let paths = vec!["/a".to_string(), "/b".to_string(), "/c".to_string()];
    let r = find_in_paths("tool", &paths, |p: &String| p == "/b/tool" || p == "/c/tool");
    assert_eq!(r, Some("/b/tool".to_string()));
    assert_eq!(find_in_paths("tool", &paths, |_p: &String| false), None);
}

#[test]
fn test_is_executable_not_found_empty_paths() {
    let cmds = Commands { paths: vec![] };
    assert!(cmds.is_executable_command("ls", |p: &String| std::path::Path::new(p).exists()).is_none());
}

#[test]
fn test_is_executable_not_found_wrong_path() {
    let cmds = Commands { paths: vec!["/nonexistent/path/xyz_shell_test".to_string()] };
    assert!(cmds.is_executable_command("ls", |p: &String| std::path::Path::new(p).exists()).is_none());
}

#[test]
fn dispatch_by_command_word() {
    assert_eq!(Commands::dispatch("cd"), Dispatch::Cd);
    assert_eq!(Commands::dispatch("complete"), Dispatch::Complete);
    assert_eq!(Commands::dispatch("echo"), Dispatch::Echo);
    assert_eq!(Commands::dispatch("exit"), Dispatch::Exit);
    assert_eq!(Commands::dispatch("pwd"), Dispatch::Pwd);
    assert_eq!(Commands::dispatch("type"), Dispatch::Type);
    assert_eq!(Commands::dispatch("ls"), Dispatch::Program);
    assert_eq!(Commands::dispatch("Echo"), Dispatch::Program);
}

#[test]
fn execution_plan_cuts_at_redirect() {
    let args: Vec<String> = ["a", "b", ">", "f", "c"].iter().map(|s| s.to_string()).collect();
    let (rd, prog) = Commands::execution_plan(&args).unwrap();
    assert_eq!(rd.target, "f");
    assert_eq!(prog, vec!["a", "b"]);
    let plain: Vec<String> = ["a", "b"].iter().map(|s| s.to_string()).collect();
    let (_, prog) = Commands::execution_plan(&plain).unwrap();
    assert_eq!(prog, vec!["a", "b"]);
    let bad: Vec<String> = ["a", "2>"].iter().map(|s| s.to_string()).collect();
    assert!(Commands::execution_plan(&bad).is_err());
}

#[test]
fn parse_cmd_error_message() {
    let e = Commands::parse_cmd("  \t ").err().unwrap();
    assert_eq!(e, CommandError::Empty);
    assert_eq!(e.message(), "command is empty");
}
