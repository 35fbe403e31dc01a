//! Tests for the environment.
use gesh::Environment;

fn exported_value(env: &Environment, name: &str) -> Option<String> {
    env.exported_vars()
        .into_iter()
        .find(|(n, _)| n == name)
        .map(|(_, v)| v)
}

#[test]
fn test_new_uses_vars_from_given_map() {
    let expected_paths = vec!["/bin", "/usr/bin", "/usr/local/bin"];
    let joined_paths = "/bin:/usr/bin:/usr/local/bin".to_owned();

    let vars = vec![
        ("PATH".to_owned(), joined_paths.clone()),
        ("HOME".to_owned(), "/Users/foo".to_owned()),
    ];

    let env = Environment::new(vars, "/".to_owned());
    assert_eq!(expected_paths, env.paths().iter().map(|v| v.as_str()).collect::<Vec<_>>());
    assert_eq!(Some(joined_paths), env.get(&"PATH".to_owned()));
    assert_eq!(Some("/Users/foo".to_owned()), env.get(&"HOME".to_owned()));
    assert_eq!(None, env.get(&"TMPDIR".to_owned()));
}

#[test]
fn test_push_and_pop() {
    let mut env = Environment::new(Vec::new(), "/".to_owned());
    env.push_directory("/usr".to_owned());
    env.push_directory("/usr/local".to_owned());
    env.push_directory("/usr/local/bin".to_owned());

    assert_eq!(Some("/usr/local/bin".to_owned()), env.pop_directory());

    assert_eq!(
        &vec!["/usr".to_owned(), "/usr/local".to_owned()],
        env.directory_stack()
    );

    assert_eq!(Some("/usr/local".to_owned()), env.pop_directory());
    assert_eq!(Some("/usr".to_owned()), env.pop_directory());
    assert_eq!(None, env.pop_directory());
}

#[test]
fn test_export_moves_variable_to_exported_variables() {
    let mut env = Environment::new(Vec::new(), "/".to_owned());
    env.set("FOO".to_owned(), "fooval".to_owned());
    env.set("BAR".to_owned(), "barval".to_owned());
    env.export("FOO".to_owned());

    assert_eq!(Some("fooval".to_owned()), exported_value(&env, "FOO"));
    assert_eq!(None, exported_value(&env, "BAR"));
}

#[test]
fn test_set_returns_the_replaced_value() {
    let mut env = Environment::new(Vec::new(), "/".to_owned());
    assert_eq!(None, env.set("FOO".to_owned(), "one".to_owned()));
    assert_eq!(Some("one".to_owned()), env.set("FOO".to_owned(), "two".to_owned()));
    assert_eq!(Some("two".to_owned()), env.get(&"FOO".to_owned()));
}

#[test]
fn test_set_working_directory_tracks_pwd() {
    let mut env = Environment::new(Vec::new(), "/".to_owned());
    env.set_working_directory("/tmp".to_owned());
    assert_eq!(&"/tmp".to_owned(), env.working_directory());
    assert_eq!(Some("/tmp".to_owned()), env.get(&"PWD".to_owned()));
}
