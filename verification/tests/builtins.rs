//! Tests for the pure shell builtins.
use gesh::Environment;
use gesh::builtins::ExitStatus;
use gesh::builtins::exit;
use gesh::builtins::export_vars;
use gesh::builtins::pushd;

fn exported_value(env: &Environment, name: &str) -> Option<String> {
    env.exported_vars()
        .into_iter()
        .find(|(n, _)| n == name)
        .map(|(_, v)| v)
}

#[test]
fn test_exit_returns_exit_with_given_status() {
    let args = vec!["77".to_owned()];

    let result = exit(&args);

    assert_eq!(Ok(ExitStatus::ExitWith(77)), result);
}

#[test]
fn test_exit_returns_zero_exit_status_with_no_arguments() {
    let args = vec![];

    let result = exit(&args);

    assert_eq!(Ok(ExitStatus::ExitWith(0)), result);
}

#[test]
fn test_exit_returns_nonzero_exit_status_with_non_integral_argument() {
    let args = vec!["abc".to_owned()];

    let result = exit(&args);

    assert_eq!(Ok(ExitStatus::ExitWith(255)), result);
}

#[test]
fn test_exit_returns_error_with_too_many_arguments() {
    let args = vec!["a".to_owned(), "b".to_owned()];

    let result = exit(&args);

    assert_eq!(Ok(ExitStatus::Success(1)), result);
}

#[test]
fn test_exit_accepts_a_plus_sign() {
    let args = vec!["+77".to_owned()];

    let result = exit(&args);

    assert_eq!(Ok(ExitStatus::ExitWith(77)), result);
}

#[test]
fn test_exit_treats_an_overflowing_status_as_non_integral() {
    let args = vec!["99999999999999999999".to_owned()];

    let result = exit(&args);

    assert_eq!(Ok(ExitStatus::ExitWith(255)), result);
}

#[test]
fn test_pushd_adds_given_directory_to_stack() {
    let env = &mut Environment::new(Vec::new(), "/".to_owned());
    let args = vec!["./src".to_owned()];

    let result = pushd(env, &args);

    assert_eq!(Ok(ExitStatus::Success(0)), result);
    assert_eq!(Some(&"./src".to_owned()), env.directory_stack().last());
}

#[test]
fn test_pushd_returns_error_with_too_many_arguments() {
    let env = &mut Environment::new(Vec::new(), "/".to_owned());
    let args = vec!["a".to_owned(), "b".to_owned(), "c".to_owned()];

    let result = pushd(env, &args);

    assert_eq!(Ok(ExitStatus::Success(1)), result);
}

#[test]
fn test_export_exports_all_vars_given_as_arguments() {
    let env = &mut Environment::new(Vec::new(), "/".to_owned());
    env.set("FOO".to_owned(), "bar".to_owned());
    env.set("SPAM".to_owned(), "10 eggs".to_owned());
    env.set("DONT_EXPORT_ME".to_owned(), "plz".to_owned());

    let args = vec![
        "FOO".to_owned(),
        "SPAM=11 eggs".to_owned(),
    ];

    let result = export_vars(env, &args);

    assert_eq!(Ok(ExitStatus::Success(0)), result);
    assert_eq!(Some("bar".to_owned()), exported_value(env, "FOO"));
    assert_eq!(Some("11 eggs".to_owned()), exported_value(env, "SPAM"));
    assert_eq!(None, exported_value(env, "DONT_EXPORT_ME"));
}

#[test]
fn test_export_keeps_only_the_second_segment_as_value() {
    let env = &mut Environment::new(Vec::new(), "/".to_owned());

    let args = vec!["A=B=C".to_owned()];
    let result = export_vars(env, &args);

    assert_eq!(Ok(ExitStatus::Success(0)), result);
    assert_eq!(Some("B".to_owned()), env.get(&"A".to_owned()));
    assert_eq!(Some("B".to_owned()), exported_value(env, "A"));
}
