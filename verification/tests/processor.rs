use rustyline::history::{FileHistory, History};
use shell::jobs::{Job, PollOutcome};
use shell::processor::{Action, HistoryRequest, Processor, parse_usize};

fn make_history(entries: &[&str]) -> FileHistory {
    let mut h = FileHistory::new();
    for e in entries {
        let _ = h.add(e);
    }
    h
}

#[test]
fn test_process_empty_input_no_panic() {
    assert!(matches!(Processor::plan_command(""), Action::Nothing));
    assert!(matches!(Processor::plan_command("   "), Action::Nothing));
}

#[test]
fn test_process_cd_valid_path() {
    match Processor::plan_command("cd /tmp") {
        Action::Cd(p) => assert_eq!(p, "/tmp"),
        _ => panic!("expected cd"),
    }
}

#[test]
fn test_process_cd_invalid_path_no_panic() {
    match Processor::plan_command("cd /this/path/does/not/exist/xyz_shell_test") {
        Action::Cd(p) => assert_eq!(p, "/this/path/does/not/exist/xyz_shell_test"),
        _ => panic!("expected cd"),
    }
}

#[test]
fn plan_cd_without_argument_goes_home() {
    match Processor::plan_command("  cd   ") {
        Action::Cd(p) => assert_eq!(p, ""),
        _ => panic!("expected cd"),
    }
    match Processor::plan_command("cd  my dir ") {
        Action::Cd(p) => assert_eq!(p, "my dir"),
        _ => panic!("expected cd"),
    }
}

#[test]
fn plan_simple_builtins() {
    assert!(matches!(Processor::plan_command("exit"), Action::Exit));
    assert!(matches!(Processor::plan_command(" exit 3"), Action::Exit));
    assert!(matches!(Processor::plan_command("jobs"), Action::Jobs));
    // a word that merely starts like a builtin is a pipeline
    match Processor::plan_command("cdx a") {
        Action::Pipeline(p) => assert_eq!(p, "cdx a"),
        _ => panic!("expected pipeline"),
    }
    match Processor::plan_command("  echo hi | cat  ") {
        Action::Pipeline(p) => assert_eq!(p, "echo hi | cat"),
        _ => panic!("expected pipeline"),
    }
}

#[test]
fn plan_history_requests() {
    assert!(matches!(
        Processor::plan_command("history"),
        Action::History(HistoryRequest::ShowAll)
    ));
    assert!(matches!(
        Processor::plan_command("history 2"),
        Action::History(HistoryRequest::ShowLast(2))
    ));
    assert!(matches!(
        Processor::plan_command("history abc"),
        Action::History(HistoryRequest::ShowLast(0))
    ));
    match Processor::plan_command("history -r /tmp/h") {
        Action::History(HistoryRequest::Read(p)) => assert_eq!(p, "/tmp/h"),
        _ => panic!("expected read"),
    }
    match Processor::plan_command("history\t-a  f") {
        Action::History(HistoryRequest::Append(p)) => assert_eq!(p, "f"),
        _ => panic!("expected append"),
    }
    match Processor::plan_command("history -w f") {
        Action::History(HistoryRequest::Write(p)) => assert_eq!(p, "f"),
        _ => panic!("expected write"),
    }
    assert!(matches!(
        Processor::plan_command("history -r"),
        Action::History(HistoryRequest::Ignore)
    ));
    assert!(matches!(
        Processor::plan_command("history -w a b"),
        Action::History(HistoryRequest::Ignore)
    ));
}

#[test]
fn parse_usize_like_std() {
    for s in ["0", "7", "+7", "0042", "18446744073709551615", "18446744073709551616", "", "+", "-1", "1a", " 1", "12 "] {
        assert_eq!(parse_usize(s), s.parse::<usize>().ok(), "input {:?}", s);
    }
}

#[test]
fn show_history_lists_numbered_entries() {
    let h = make_history(&["ls", "pwd", "echo hi"]);
    assert_eq!(
        Processor::show_history(&h, None),
        vec!["  1 ls", "  2 pwd", "  3 echo hi"]
    );
    assert_eq!(Processor::show_history(&h, Some(2)), vec!["  2 pwd", "  3 echo hi"]);
    assert!(Processor::show_history(&h, Some(0)).is_empty());
    assert_eq!(Processor::show_history(&h, Some(3)).len(), 3);
}

#[test]
fn background_command_text() {
    assert_eq!(Processor::background_command("sleep 10 &"), "sleep 10");
    assert_eq!(Processor::background_command("sleep 10   &  "), "sleep 10");
    assert_eq!(Processor::background_command("sleep 10"), "sleep 10");
    assert_eq!(Processor::background_command("&"), "");
}

#[test]
fn processor_new_reads_path_value() {
    let p = Processor::new(Some("/usr/bin:/bin"));
    assert_eq!(p.paths, vec!["/usr/bin", "/bin"]);
    assert_eq!(p.last_exit_code, 0);
    assert!(p.jobs.jobs.is_empty());
    let q = Processor::new(None);
    assert!(q.paths.is_empty());
    let h = make_history(&[]);
    assert_eq!(h.len(), 0);
}

#[test]
fn try_show_history_checks_count() {
    let h = make_history(&["ls", "pwd"]);
    assert!(Processor::try_show_history(&h, Some(3)).is_none());
    assert_eq!(Processor::try_show_history(&h, Some(1)), Some(vec!["  2 pwd".to_string()]));
    assert_eq!(Processor::try_show_history(&h, None).unwrap().len(), 2);
}

#[test]
fn finish_foreground_records_code_and_reports_done_jobs() {
    let mut p = Processor::new(None);
    p.jobs.jobs.push(Job::new("sleep 1".to_string(), 1));
    p.jobs.jobs.push(Job::new("sleep 2".to_string(), 2));
    let lines = p.finish_foreground(3, &vec![PollOutcome::Exited, PollOutcome::StillRunning]);
    assert_eq!(p.last_exit_code, 3);
    assert_eq!(p.jobs.jobs.len(), 2);
    assert_eq!(lines.len(), 1);
    assert!(lines[0].starts_with("[1]"));
    assert!(lines[0].contains("Done"));
}
