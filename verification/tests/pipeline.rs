use shell::command::{
    ExternalCommand, PipelineCommand, StderrSink, StdinSource, StdioPlan, StdoutSink,
    build_pipeline, foreground_code, plan_stdio,
};
use shell::redirect::RedirectType;

fn std_paths() -> Vec<String> {
    vec!["/bin".to_string(), "/usr/bin".to_string()]
}

/// Treats every candidate path under a `PATH` directory as executable.
fn any_exec(_p: &String) -> bool {
    true
}

fn no_exec(_p: &String) -> bool {
    false
}

#[test]
fn test_background_flag_set_for_trailing_ampersand() {
    let segs = build_pipeline("sleep 1000 &", &std_paths(), any_exec);
    assert!(segs.last().unwrap().background);
}

#[test]
fn test_background_flag_not_set_without_ampersand() {
    let segs = build_pipeline("sleep 1000", &std_paths(), any_exec);
    assert!(!segs.last().unwrap().background);
}

#[test]
fn test_background_only_on_last_pipeline_segment() {
    // "&" in a middle segment is not a background marker
    let segs = build_pipeline("echo & | cat", &std_paths(), any_exec);
    assert!(!segs[0].background);
    assert!(!segs[1].background);
}

#[test]
fn test_background_args_do_not_contain_ampersand() {
    // The "&" must be stripped before the command sees it
    let segs = build_pipeline("sleep 1000 &", &std_paths(), any_exec);
    assert!(segs.last().unwrap().background);
    let fg_segs = build_pipeline("sleep 1000", &std_paths(), any_exec);
    assert_eq!(segs.len(), fg_segs.len());
    match &segs[0].command {
        PipelineCommand::External(x) => {
            assert_eq!(x.cmd, "sleep");
            assert_eq!(x.args, vec!["1000"]);
        }
        _ => panic!("expected an external command"),
    }
}

#[test]
fn pipeline_builds_builtins_and_unknowns() {
    let segs = build_pipeline("echo 'a  b' c | pwd | type ls | complete -p git | nosuch x", &std_paths(), no_exec);
    assert_eq!(segs.len(), 5);
    match &segs[0].command {
        PipelineCommand::Echo(e) => assert_eq!(e.args, vec!["a  b", "c"]),
        _ => panic!("expected echo"),
    }
    assert!(matches!(segs[1].command, PipelineCommand::Pwd));
    match &segs[2].command {
        PipelineCommand::Type(t) => {
            assert_eq!(t.args, vec!["ls"]);
            assert_eq!(t.paths, std_paths());
        }
        _ => panic!("expected type"),
    }
    match &segs[3].command {
        PipelineCommand::Complete(c) => assert_eq!(c.args, vec!["-p", "git"]),
        _ => panic!("expected complete"),
    }
    match &segs[4].command {
        PipelineCommand::Unknown(u) => assert_eq!(u.cmd, "nosuch"),
        _ => panic!("expected unknown"),
    }
}

#[test]
fn pipeline_redirects_are_split_out() {
    let segs = build_pipeline("cat a > out 2>> err | wc -l 2> e2 &", &std_paths(), any_exec);
    let first = &segs[0];
    let so = first.stdout_redirect.as_ref().unwrap();
    assert!(matches!(so.redirect_type, RedirectType::StdOut));
    assert_eq!(so.target, "out");
    // only the first redirect of a stage is used
    assert!(first.stderr_redirect.is_none());
    match &first.command {
        PipelineCommand::External(x) => assert_eq!(x.args, vec!["a"]),
        _ => panic!("expected external"),
    }
    let last = &segs[1];
    assert!(last.background);
    let se = last.stderr_redirect.as_ref().unwrap();
    assert_eq!(se.target, "e2");
    assert!(!se.append);
    match &last.command {
        PipelineCommand::External(x) => assert_eq!(x.args, vec!["-l"]),
        _ => panic!("expected external"),
    }
}

#[test]
fn empty_stages_are_kept() {
    let segs = build_pipeline("", &std_paths(), no_exec);
    assert_eq!(segs.len(), 1);
    let segs = build_pipeline("ls |", &std_paths(), no_exec);
    assert_eq!(segs.len(), 2);
    match &segs[1].command {
        PipelineCommand::Unknown(u) => assert_eq!(u.cmd, ""),
        _ => panic!("expected unknown"),
    }
}

#[test]
fn stdio_plan_wires_pipes() {
    let segs = build_pipeline("cat f | grep x > out | wc &", &std_paths(), any_exec);
    let plans = plan_stdio(&segs);
    assert_eq!(
        plans,
        vec![
            StdioPlan {
                stdin: StdinSource::Inherit,
                stdout: StdoutSink::Pipe(0),
                stderr: StderrSink::Inherit,
                spawn_background: false
            },
            StdioPlan {
                stdin: StdinSource::Pipe(0),
                stdout: StdoutSink::RedirectFile,
                stderr: StderrSink::Inherit,
                spawn_background: false
            },
            StdioPlan {
                stdin: StdinSource::Pipe(1),
                stdout: StdoutSink::Inherit,
                stderr: StderrSink::Inherit,
                spawn_background: true
            },
        ]
    );
}

#[test]
fn builtins_are_not_backgrounded() {
    let segs = build_pipeline("echo hi &", &std_paths(), any_exec);
    assert!(segs[0].background);
    assert!(!segs[0].command.is_backgroundable());
    assert!(!plan_stdio(&segs)[0].spawn_background);
}

#[test]
fn foreground_code_is_last() {
    assert_eq!(foreground_code(&vec![]), 0);
    assert_eq!(foreground_code(&vec![3, 1, 7]), 7);
}

#[test]
fn external_command_new_keeps_parts() {
    let x = ExternalCommand::new("ls".to_string(), vec!["-l".to_string()]);
    assert_eq!(x.cmd, "ls");
    assert_eq!(x.args, vec!["-l"]);
}
