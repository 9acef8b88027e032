use rustyline::history::{FileHistory, History};
use shell::history::Helper;
use shell::processor::Processor;

fn make_history(entries: &[&str]) -> FileHistory {
    let mut h = FileHistory::new();
    for e in entries {
        let _ = h.add(e);
    }
    h
}

#[test]
fn write_file_writes_all_entries() {
    let history = make_history(&["echo hello", "ls -la", "pwd"]);
    let mut helper = Helper::new();
    let lines = helper.lines_to_write(&history);
    assert_eq!(lines, vec!["echo hello", "ls -la", "pwd"]);
}

#[test]
fn write_file_updates_append_pos() {
    let history = make_history(&["a", "b", "c"]);
    let mut helper = Helper::new();
    helper.lines_to_write(&history);
    assert_eq!(helper.append_pos, 3);
}

#[test]
fn append_file_writes_only_new_entries() {
    let mut history = make_history(&["first", "second"]);
    let mut helper = Helper::new();
    // first append — writes both entries
    assert_eq!(helper.lines_to_append(&history), vec!["first", "second"]);
    // add a new entry and append again — only "third" is appended
    let _ = history.add("third");
    assert_eq!(helper.lines_to_append(&history), vec!["third"]);
}

#[test]
fn append_file_updates_append_pos() {
    let mut history = make_history(&["x", "y"]);
    let mut helper = Helper::new();
    helper.lines_to_append(&history);
    assert_eq!(helper.append_pos, 2);
    let _ = history.add("z");
    helper.lines_to_append(&history);
    assert_eq!(helper.append_pos, 3);
}

#[test]
fn append_file_no_op_when_nothing_new() {
    let history = make_history(&["only"]);
    let mut helper = Helper::new();
    assert_eq!(helper.lines_to_append(&history), vec!["only"]);
    // second call — nothing new
    assert!(helper.lines_to_append(&history).is_empty());
}

#[test]
fn read_file_returns_all_lines() {
    let mut helper = Helper::new();
    let result = helper.load_lines("alpha\nbeta\ngamma\n");
    assert_eq!(result, vec!["alpha", "beta", "gamma"]);
}

#[test]
fn read_file_sets_append_pos() {
    let mut helper = Helper::new();
    helper.load_lines("one\ntwo\n");
    assert_eq!(helper.append_pos, 2);
}

#[test]
fn load_lines_trims_and_keeps_blank_lines() {
    let mut helper = Helper::new();
    assert_eq!(helper.load_lines("  a \r\n\nb"), vec!["a", "", "b"]);
    assert_eq!(helper.append_pos, 3);
    assert!(helper.load_lines("").is_empty());
    assert_eq!(helper.append_pos, 0);
}

#[test]
fn append_after_read_skips_loaded_entries() {
    let mut helper = Helper::new();
    let loaded = helper.load_lines("old1\nold2\n");
    let mut history = FileHistory::new();
    Processor::add_history_lines(&mut history, &loaded);
    let _ = history.add("new");
    assert_eq!(helper.lines_to_append(&history), vec!["new"]);
}

#[test]
fn add_history_lines_skips_empty_lines() {
    let mut history = FileHistory::new();
    Processor::add_history_lines(&mut history, &vec!["ls".to_string(), "".to_string(), "pwd".to_string()]);
    assert_eq!(history.len(), 2);
    assert_eq!(history[0], "ls");
    assert_eq!(history[1], "pwd");
}

#[test]
fn add_history_lines_follows_history_settings() {
    let mut history = FileHistory::new();
    history.set_max_len(2).unwrap();
    history.ignore_space(true);
    history.ignore_dups(true).unwrap();
    let lines: Vec<String> = ["a", " hidden", "b", "b", "c"].iter().map(|s| s.to_string()).collect();
    Processor::add_history_lines(&mut history, &lines);
    assert_eq!(history.len(), 2);
    assert_eq!(history[0], "b");
    assert_eq!(history[1], "c");
}

#[test]
fn add_history_lines_keeps_repeats_when_allowed() {
    let mut history = FileHistory::new();
    history.ignore_dups(false).unwrap();
    history.ignore_space(false);
    let lines: Vec<String> = ["x", "x", " y"].iter().map(|s| s.to_string()).collect();
    Processor::add_history_lines(&mut history, &lines);
    assert_eq!(history.len(), 3);
    assert_eq!(history[2], " y");
}
