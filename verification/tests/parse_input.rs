use shell::command::ExternalCommand;
use shell::commands::Commands;

#[test]
fn test_parse_empty() {
    assert!(Commands::parse_cmd("").is_err());
}

#[test]
fn test_cmd_only_parse() {
    let (cmd, args) = Commands::parse_cmd("foo").unwrap();
    assert_eq!(cmd, "foo");
    assert_eq!(args, Vec::<&str>::new());
}

#[test]
fn test_simple_parse() {
    let (cmd, args) = Commands::parse_cmd("foo bar").unwrap();
    assert_eq!(cmd, "foo");
    assert_eq!(args, vec!["bar"]);
}

#[test]
fn test_long_parse() {
    let (cmd, args) = Commands::parse_cmd("foo bar baz bop").unwrap();
    assert_eq!(cmd, "foo");
    assert_eq!(args, vec!["bar", "baz", "bop"]);
}

#[test]
fn test_parse_leading_space() {
    let (cmd, args) = Commands::parse_cmd(" foo").unwrap();
    assert_eq!(cmd, "foo");
    assert_eq!(args, Vec::<&str>::new());
}

#[test]
fn test_parse_cmd_with_single_quotes() {
    let (cmd, args) = Commands::parse_cmd("'my command' arg1").unwrap();
    assert_eq!(cmd, "my command");
    assert_eq!(args, vec!["arg1"]);
}

#[test]
fn test_parse_cmd_with_double_quotes() {
    let (cmd, args) = Commands::parse_cmd(r#""my command" arg1"#).unwrap();
    assert_eq!(cmd, "my command");
    assert_eq!(args, vec!["arg1"]);
}

#[test]
fn test_parse_cmd_containing_single_quotes() {
    let (cmd, args) = Commands::parse_cmd(r#""my 'command'" arg1"#).unwrap();
    assert_eq!(cmd, r#"my 'command'"#);
    assert_eq!(args, vec!["arg1"]);
}

#[test]
fn test_parse_cmd_containing_double_quotes() {
    let (cmd, args) = Commands::parse_cmd(r#"'my "command"' arg1"#).unwrap();
    assert_eq!(cmd, "my \"command\"");
    assert_eq!(args, vec!["arg1"]);
}

#[test]
fn test_parse_single_space_not_error() {
    assert!(Commands::parse_cmd(" ").is_err());
}

#[test]
fn command_test_parse_args() {
    let args = ExternalCommand::parse_input("  arg1   arg2  arg3  ");
    assert_eq!(args, vec!["arg1", "arg2", "arg3"]);
}

#[test]
fn command_test_parse_args_with_single_quotes() {
    let args = ExternalCommand::parse_input("'arg1   arg2'");
    assert_eq!(args, vec!["arg1   arg2"]);
}

#[test]
fn command_test_parse_args_with_multiple_single_quotes() {
    let args = ExternalCommand::parse_input("'arg1''arg2'");
    assert_eq!(args, vec!["arg1arg2"]);
}

#[test]
fn command_test_parse_args_with_empty_single_quotes() {
    let args = ExternalCommand::parse_input("arg1''arg2");
    assert_eq!(args, vec!["arg1arg2"]);
}

#[test]
fn command_test_parse_args_with_double_quotes() {
    let args = ExternalCommand::parse_input("\"arg1   arg2\"");
    assert_eq!(args, vec!["arg1   arg2"]);
}

#[test]
fn command_test_parse_args_with_multiple_double_quotes() {
    let args = ExternalCommand::parse_input("\"arg1\"\"arg2\"");
    assert_eq!(args, vec!["arg1arg2"]);
}

#[test]
fn command_test_parse_args_with_double_quote_and_unquoted() {
    let args = ExternalCommand::parse_input("\"arg1\"arg2");
    assert_eq!(args, vec!["arg1arg2"]);
}

#[test]
fn command_test_parse_args_with_separate_double_quotes() {
    let args = ExternalCommand::parse_input("\"arg1\" \"arg2\"");
    assert_eq!(args, vec!["arg1", "arg2"]);
}

#[test]
fn command_test_parse_args_with_double_quote_and_inner_single_quote() {
    let args = ExternalCommand::parse_input("\"arg1's arg2\"");
    assert_eq!(args, vec!["arg1's arg2"]);
}

#[test]
fn command_test_parse_args_backslash_spaces() {
    let args = ExternalCommand::parse_input(r"arg1\ \ \ arg2");
    assert_eq!(args, vec!["arg1   arg2"]);
}

#[test]
fn command_test_parse_args_backslash_space_collapse_others() {
    let args = ExternalCommand::parse_input(r"arg1\     arg2");
    assert_eq!(args, vec!["arg1 ", "arg2"]);
}

#[test]
fn command_test_parse_args_backslash_char() {
    let args = ExternalCommand::parse_input(r"arg1\narg2");
    assert_eq!(args, vec!["arg1narg2"]);
}

#[test]
fn command_test_parse_args_backslash_backslash() {
    let args = ExternalCommand::parse_input(r"arg1\\arg2");
    assert_eq!(args, vec![r"arg1\arg2"]);
}

#[test]
fn command_test_parse_args_backslash_single_quote() {
    let args = ExternalCommand::parse_input(r"\'arg1 arg2\'");
    assert_eq!(args, vec!["'arg1", "arg2'"]);
}

#[test]
fn command_test_parse_args_single_quote_with_multi_backslash() {
    let args = ExternalCommand::parse_input(r"'arg1\\\arg2'");
    assert_eq!(args, vec![r"arg1\\\arg2"]);
}

#[test]
fn command_test_parse_args_single_quote_with_backslash_double_quote() {
    let args = ExternalCommand::parse_input("'arg1\"arg2'");
    assert_eq!(args, vec![r#"arg1"arg2"#]);
}

#[test]
fn command_test_parse_args_backslash_single_quote_mixed() {
    let args = ExternalCommand::parse_input("'arg1\"arg2\"arg3'");
    assert_eq!(args, vec![r#"arg1"arg2"arg3"#]);
}

#[test]
fn command_test_parse_args_escaped_single_and_double_quotes() {
    let args = ExternalCommand::parse_input(r#"\'\"arg1 arg2\"\'"#);
    assert_eq!(args, vec![r#"'"arg1"#, r#"arg2"'"#]);
}

#[test]
fn commands_test_parse_args() {
    let args = Commands::parse_input("  arg1   arg2  arg3  ");
    assert_eq!(args, vec!["arg1", "arg2", "arg3"]);
}

#[test]
fn commands_test_parse_args_with_single_quotes() {
    let args = Commands::parse_input("'arg1   arg2'");
    assert_eq!(args, vec!["arg1   arg2"]);
}

#[test]
fn commands_test_parse_args_with_multiple_single_quotes() {
    let args = Commands::parse_input("'arg1''arg2'");
    assert_eq!(args, vec!["arg1arg2"]);
}

#[test]
fn commands_test_parse_args_with_empty_single_quotes() {
    let args = Commands::parse_input("arg1''arg2");
    assert_eq!(args, vec!["arg1arg2"]);
}

#[test]
fn commands_test_parse_args_with_double_quotes() {
    let args = Commands::parse_input("\"arg1   arg2\"");
    assert_eq!(args, vec!["arg1   arg2"]);
}

#[test]
fn commands_test_parse_args_with_multiple_double_quotes() {
    let args = Commands::parse_input("\"arg1\"\"arg2\"");
    assert_eq!(args, vec!["arg1arg2"]);
}

#[test]
fn commands_test_parse_args_with_double_quote_and_unquoted() {
    let args = Commands::parse_input("\"arg1\"arg2");
    assert_eq!(args, vec!["arg1arg2"]);
}

#[test]
fn commands_test_parse_args_with_separate_double_quotes() {
    let args = Commands::parse_input("\"arg1\" \"arg2\"");
    assert_eq!(args, vec!["arg1", "arg2"]);
}

#[test]
fn commands_test_parse_args_with_double_quote_and_inner_single_quote() {
    let args = Commands::parse_input("\"arg1's arg2\"");
    assert_eq!(args, vec!["arg1's arg2"]);
}

#[test]
fn commands_test_parse_args_backslash_spaces() {
    let args = Commands::parse_input(r"arg1\ \ \ arg2");
    assert_eq!(args, vec!["arg1   arg2"]);
}

#[test]
fn commands_test_parse_args_backslash_space_collapse_others() {
    let args = Commands::parse_input(r"arg1\     arg2");
    assert_eq!(args, vec!["arg1 ", "arg2"]);
}

#[test]
fn commands_test_parse_args_backslash_char() {
    let args = Commands::parse_input(r"arg1\narg2");
    assert_eq!(args, vec!["arg1narg2"]);
}

#[test]
fn commands_test_parse_args_backslash_backslash() {
    let args = Commands::parse_input(r"arg1\\arg2");
    assert_eq!(args, vec![r"arg1\arg2"]);
}

#[test]
fn commands_test_parse_args_backslash_single_quote() {
    let args = Commands::parse_input(r"\'arg1 arg2\'");
    assert_eq!(args, vec!["'arg1 arg2'"]);
}

#[test]
fn commands_test_parse_args_single_quote_with_multi_backslash() {
    let args = Commands::parse_input(r"'arg1\\\arg2'");
    assert_eq!(args, vec![r"arg1\\\arg2"]);
}

#[test]
fn commands_test_parse_args_single_quote_with_backslash_double_quote() {
    let args = Commands::parse_input("'arg1\"arg2'");
    assert_eq!(args, vec![r#"arg1"arg2"#]);
}

#[test]
fn commands_test_parse_args_backslash_single_quote_mixed() {
    let args = Commands::parse_input("'arg1\"arg2\"arg3'");
    assert_eq!(args, vec![r#"arg1"arg2"arg3"#]);
}

#[test]
fn commands_test_parse_args_escaped_single_and_double_quotes() {
    let args = Commands::parse_input(r#"\'\"arg1 arg2\"\'"#);
    assert_eq!(args, vec![r#"'"arg1 arg2"'"#]);
}
