use shell::redirect::{Redirect, RedirectError, RedirectType};

fn args(parts: &[&str]) -> Vec<String> {
    parts.iter().map(|s| s.to_string()).collect()
}

#[test]
fn test_has_redirect_none() {
    let r = Redirect::has_redirect(&args(&["arg1", "arg2"])).unwrap();
    assert!(matches!(r.redirect_type, RedirectType::NoRedirect));
}

#[test]
fn test_has_redirect_stdout_overwrite() {
    let r = Redirect::has_redirect(&args(&["arg1", ">", "out.txt"])).unwrap();
    assert!(matches!(r.redirect_type, RedirectType::StdOut));
    assert_eq!(r.target, "out.txt");
    assert_eq!(r.position, 1);
    assert!(!r.append);
}

#[test]
fn test_has_redirect_stdout_overwrite_explicit() {
    let r = Redirect::has_redirect(&args(&["arg1", "1>", "out.txt"])).unwrap();
    assert!(matches!(r.redirect_type, RedirectType::StdOut));
    assert_eq!(r.target, "out.txt");
    assert!(!r.append);
}

#[test]
fn test_has_redirect_stdout_append() {
    let r = Redirect::has_redirect(&args(&["arg1", ">>", "out.txt"])).unwrap();
    assert!(matches!(r.redirect_type, RedirectType::StdOut));
    assert_eq!(r.target, "out.txt");
    assert_eq!(r.position, 1);
    assert!(r.append);
}

#[test]
fn test_has_redirect_stdout_append_explicit() {
    let r = Redirect::has_redirect(&args(&["arg1", "1>>", "out.txt"])).unwrap();
    assert!(matches!(r.redirect_type, RedirectType::StdOut));
    assert!(r.append);
}

#[test]
fn test_has_redirect_stderr_overwrite() {
    let r = Redirect::has_redirect(&args(&["arg1", "2>", "err.txt"])).unwrap();
    assert!(matches!(r.redirect_type, RedirectType::StdErr));
    assert_eq!(r.target, "err.txt");
    assert_eq!(r.position, 1);
    assert!(!r.append);
}

#[test]
fn test_has_redirect_stderr_append() {
    let r = Redirect::has_redirect(&args(&["arg1", "2>>", "err.txt"])).unwrap();
    assert!(matches!(r.redirect_type, RedirectType::StdErr));
    assert_eq!(r.target, "err.txt");
    assert!(r.append);
}

#[test]
fn test_has_redirect_position_at_start() {
    let r = Redirect::has_redirect(&args(&[">", "out.txt"])).unwrap();
    assert_eq!(r.position, 0);
}

#[test]
fn test_has_redirect_position_after_multiple_args() {
    let r = Redirect::has_redirect(&args(&["a", "b", "c", ">", "out.txt"])).unwrap();
    assert_eq!(r.position, 3);
}

#[test]
fn test_has_redirect_stdout_missing_target_is_error() {
    assert!(Redirect::has_redirect(&args(&[">"])).is_err());
}

#[test]
fn test_has_redirect_stdout_explicit_missing_target_is_error() {
    assert!(Redirect::has_redirect(&args(&["1>"])).is_err());
}

#[test]
fn test_has_redirect_stdout_append_missing_target_is_error() {
    assert!(Redirect::has_redirect(&args(&[">>"])).is_err());
}

#[test]
fn test_has_redirect_stderr_missing_target_is_error() {
    assert!(Redirect::has_redirect(&args(&["2>"])).is_err());
}

#[test]
fn test_has_redirect_stderr_append_missing_target_is_error() {
    assert!(Redirect::has_redirect(&args(&["2>>"])).is_err());
}

#[test]
fn test_has_redirect_first_operator_wins() {
    let r = Redirect::has_redirect(&args(&[">", "first.txt", "2>", "second.txt"])).unwrap();
    assert!(matches!(r.redirect_type, RedirectType::StdOut));
    assert_eq!(r.target, "first.txt");
}

#[test]
fn has_redirect_none_is_default() {
    let r = Redirect::has_redirect(&args(&["a", "b"])).unwrap();
    assert_eq!(r.position, 0);
    assert_eq!(r.target, "");
    assert!(!r.append);
}

#[test]
fn has_redirect_missing_target_error_message() {
    let e = Redirect::has_redirect(&args(&["a", "2>>"])).err().unwrap();
    assert_eq!(e, RedirectError::MissingTarget);
    assert_eq!(e.message(), "Syntax Error: newline expected");
}

#[test]
fn has_redirect_near_miss_tokens_are_arguments() {
    let r = Redirect::has_redirect(&args(&["3>", "x", ">>>", "y", "1", ">", "z"])).unwrap();
    assert!(matches!(r.redirect_type, RedirectType::StdOut));
    assert_eq!(r.position, 5);
    assert_eq!(r.target, "z");
}

#[test]
fn has_redirect_operator_as_target() {
    // the token after the operator is the file name, whatever it is
    let r = Redirect::has_redirect(&args(&["2>>", ">"])).unwrap();
    assert!(matches!(r.redirect_type, RedirectType::StdErr));
    assert!(r.append);
    assert_eq!(r.target, ">");
}

#[test]
fn get_redirect_none_and_error_give_nothing() {
    assert!(Redirect::get_redirect(&args(&["a"])).is_none());
    assert!(Redirect::get_redirect(&args(&["a", ">"])).is_none());
    let r = Redirect::get_redirect(&args(&["a", "2>", "e"])).unwrap();
    assert!(matches!(r.redirect_type, RedirectType::StdErr));
}

#[test]
fn strip_redirect_tokens_removes_operators_and_targets() {
    let clean = Redirect::strip_redirect_tokens(&args(&["a", ">", "out", "b", "2>>", "err", "c"]));
    assert_eq!(clean, vec!["a", "b", "c"]);
    let clean = Redirect::strip_redirect_tokens(&args(&["a", "1>"]));
    assert_eq!(clean, vec!["a"]);
    let clean = Redirect::strip_redirect_tokens(&args(&["x", "&"]));
    assert_eq!(clean, vec!["x", "&"]);
}

#[test]
fn redirect_new_keeps_parts() {
    let r = Redirect::new(RedirectType::StdErr, 4, "f".to_string(), true);
    assert!(matches!(r.redirect_type, RedirectType::StdErr));
    assert_eq!(r.position, 4);
    assert_eq!(r.target, "f");
    assert!(r.append);
}
