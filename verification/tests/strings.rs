//! Tests for the shell string model and the expansion engine.
use gesh::Environment;
use gesh::Piece;
use gesh::ShellString;
use gesh::expand::has_glob;
use gesh::expand::shellstring_to_string;
use gesh::expand::to_string_vec;

#[test]
fn test_has_glob_false_with_no_globs() {
    let string = ShellString::from(vec![
        Piece::from(" is a "),
        Piece::Variable("WHAT".to_owned()),
    ]);

    assert_eq!(false, has_glob(&string));
}

#[test]
fn test_has_glob_false_with_globs() {
    let string = ShellString::from(vec![
        Piece::from(" is a "),
        Piece::Glob("*".to_owned()),
        Piece::Variable("WHAT".to_owned()),
    ]);

    assert_eq!(true, has_glob(&string));
}

#[test]
fn test_to_string_returns_string_when_var_exists() {
    let shell_string = ShellString::from(vec![
        Piece::from("this is a "),
        Piece::Variable("WHAT".to_owned()),
    ]);

    let vars = vec![("WHAT".to_owned(), "test".to_owned())];
    let env = Environment::new(vars, "/".to_owned());

    assert_eq!("this is a test".to_owned(), shellstring_to_string(&shell_string, &env));
}

#[test]
fn test_to_string_returns_empty_string_when_var_doesnt_exist() {
    let shell_string = ShellString::from(vec![
        Piece::from("this is a "),
        Piece::Variable("WHAT".to_owned()),
    ]);

    let env = Environment::new(Vec::new(), "/".to_owned());

    assert_eq!("this is a ".to_owned(), shellstring_to_string(&shell_string, &env));
}

#[test]
fn test_to_string_vec_returns_vec_of_strings() {
    let shell_strings = vec![
        ShellString::from(vec![
            Piece::from("this is a "),
            Piece::Variable("WHAT".to_owned()),
        ]),
        ShellString::from("another"),
    ];

    let vars = vec![("WHAT".to_owned(), "test".to_owned())];
    let env = Environment::new(vars, "/".to_owned());

    assert_eq!(
        vec!["this is a test".to_owned(), "another".to_owned()],
        to_string_vec(shell_strings, &env)
    );
}

#[test]
fn test_to_string_vec_returns_paths_when_globbed() {
    let shell_strings = vec![
        ShellString::from(vec![Piece::from("/"), Piece::Glob("*".to_owned())])
    ];

    let env = Environment::new(Vec::new(), "/".to_owned());

    let actual = to_string_vec(shell_strings, &env);

    assert!(!actual.is_empty());
    assert!(actual.iter().all(|p| p.starts_with('/')));
    assert!(!actual.contains(&"/*".to_owned()));
}

#[test]
fn test_adding_shellstrings_concatenates() {
    let string1 = ShellString::from("this");
    let string2 = ShellString::from(vec![
        Piece::from(" is a "),
        Piece::Variable("WHAT".to_owned()),
    ]);

    let expected = ShellString::from(vec![
        Piece::from("this"),
        Piece::from(" is a "),
        Piece::Variable("WHAT".to_owned()),
    ]);

    assert_eq!(expected, string1.concat(string2));
}
