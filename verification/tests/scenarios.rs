//! Whole-line scenarios through `Parser::parse` and the expansion
//! engine, and the error cases of the grammar.
use gesh::Environment;
use gesh::Piece;
use gesh::RedirectType;
use gesh::ShellString;
use gesh::parser::Command;
use gesh::parser::ParsedLine;
use gesh::parser::Parser;
use gesh::parser::RedirectNode;
use gesh::parser::SetVariable;
use gesh::parser::glob;
use gesh::parser::interpolated_string;
use gesh::parser::path;
use gesh::parser::piece;
use gesh::parser::redirect;
use gesh::expand::shellstring_to_string;
use gesh::expand::to_string_vec;
use gesh::shell::apply_set_variables;
use gesh::shell::candidate_paths;
use gesh::shell::command_env;

fn exported_value(env: &Environment, name: &str) -> Option<String> {
    env.exported_vars()
        .into_iter()
        .find(|(n, _)| n == name)
        .map(|(_, v)| v)
}

#[test]
fn test_parse_empty_line_is_empty() {
    let parser = Parser::new();
    assert!(matches!(parser.parse("".to_owned()), Ok(ParsedLine::Empty)));
}

#[test]
fn test_parse_assignments_line_sets_variables() {
    let parser = Parser::new();
    let parsed = parser.parse("FOO=bar BAR=spam".to_owned()).expect("should parse");
    assert_eq!(
        ParsedLine::SetVariables(vec![
            SetVariable { name: "FOO".to_owned(), value: ShellString::from("bar") },
            SetVariable { name: "BAR".to_owned(), value: ShellString::from("spam") },
        ]),
        parsed
    );
}

#[test]
fn test_parse_export_line_keeps_assignment_as_argument() {
    let parser = Parser::new();
    let parsed = parser.parse("export BAR=baz".to_owned()).expect("should parse");
    assert_eq!(
        ParsedLine::Command(Command {
            vars: vec![],
            args: vec![ShellString::from("export"), ShellString::from("BAR=baz")],
            redirects: vec![],
        }),
        parsed
    );
}

#[test]
fn test_parse_empty_assignment_expands_to_empty_string() {
    let parser = Parser::new();
    let parsed = parser.parse("FOO=".to_owned()).expect("should parse");
    let vars = match parsed {
        ParsedLine::SetVariables(vars) => vars,
        other => panic!("expected assignments, got {:?}", other),
    };
    assert_eq!(1, vars.len());
    assert_eq!("FOO", vars[0].name);
    assert_eq!(ShellString::from(""), vars[0].value);

    let env = Environment::new(Vec::new(), "/".to_owned());
    assert_eq!("".to_owned(), shellstring_to_string(&vars[0].value, &env));
}

#[test]
fn test_missing_variable_expands_to_empty_string() {
    let parser = Parser::new();
    let parsed = parser.parse("echo \"${UNSET}\"".to_owned()).expect("should parse");
    let args = match parsed {
        ParsedLine::Command(c) => c.args,
        other => panic!("expected a command, got {:?}", other),
    };
    let env = Environment::new(Vec::new(), "/".to_owned());
    assert_eq!(
        vec!["echo".to_owned(), "".to_owned()],
        to_string_vec(args, &env)
    );
}

#[test]
fn test_assignment_round_trips_through_expansion() {
    let parser = Parser::new();
    let parsed = parser.parse("NAME=some/value.txt".to_owned()).expect("should parse");
    let vars = match parsed {
        ParsedLine::SetVariables(vars) => vars,
        other => panic!("expected assignments, got {:?}", other),
    };
    assert_eq!(1, vars.len());
    assert_eq!("NAME", vars[0].name);

    let env = Environment::new(Vec::new(), "/".to_owned());
    assert_eq!("some/value.txt".to_owned(), shellstring_to_string(&vars[0].value, &env));
}

#[test]
fn test_piece_fuses_adjacent_fragments() {
    let (rest, value) = piece("foo/'bar'/\"${HOME}\"\n").expect("should parse");
    assert_eq!("\n", rest);
    assert_eq!(
        ShellString::from(vec![
            Piece::from("foo/"),
            Piece::from("bar"),
            Piece::from("/"),
            Piece::Variable("HOME".to_owned()),
        ]),
        value
    );
}

#[test]
fn test_glob_expands_after_variable_substitution() {
    let with_variable = vec![ShellString::from(vec![
        Piece::Variable("ROOT".to_owned()),
        Piece::Glob("*".to_owned()),
    ])];
    let with_fixed_text = vec![ShellString::from(vec![
        Piece::from("/"),
        Piece::Glob("*".to_owned()),
    ])];

    let vars = vec![("ROOT".to_owned(), "/".to_owned())];
    let env = Environment::new(vars, "/".to_owned());

    let mut actual = to_string_vec(with_variable, &env);
    actual.sort_unstable();
    let mut expected = to_string_vec(with_fixed_text, &env);
    expected.sort_unstable();

    assert!(!actual.is_empty());
    assert_eq!(expected, actual);
}

#[test]
fn test_malformed_glob_elides_only_its_position() {
    let values = vec![
        ShellString::from("before"),
        ShellString::from(Piece::Glob("a**b".to_owned())),
        ShellString::from("after"),
    ];
    let env = Environment::new(Vec::new(), "/".to_owned());

    assert_eq!(
        vec!["before".to_owned(), "after".to_owned()],
        to_string_vec(values, &env)
    );
}

#[test]
fn test_glob_handles_a_current_directory_component() {
    let with_dot = vec![ShellString::from(vec![
        Piece::from("/./"),
        Piece::Glob("*".to_owned()),
    ])];
    let plain = vec![ShellString::from(vec![
        Piece::from("/"),
        Piece::Glob("*".to_owned()),
    ])];
    let env = Environment::new(Vec::new(), "/".to_owned());

    let actual = to_string_vec(with_dot, &env);
    let expected = to_string_vec(plain, &env);

    assert!(!actual.is_empty());
    assert_eq!(expected.len(), actual.len());
    assert!(actual.iter().all(|p| p.starts_with("/./")));
}

#[test]
fn test_glob_handles_a_doubled_separator() {
    let doubled = vec![ShellString::from(vec![
        Piece::from("//"),
        Piece::Glob("*".to_owned()),
    ])];
    let plain = vec![ShellString::from(vec![
        Piece::from("/"),
        Piece::Glob("*".to_owned()),
    ])];
    let env = Environment::new(Vec::new(), "/".to_owned());

    let mut actual = to_string_vec(doubled, &env);
    actual.sort_unstable();
    let mut expected = to_string_vec(plain, &env);
    expected.sort_unstable();

    assert!(!actual.is_empty());
    assert_eq!(expected, actual);
}

#[test]
fn test_glob_with_trailing_separator_yields_directories() {
    let trailing = vec![ShellString::from(vec![
        Piece::from("/"),
        Piece::Glob("*".to_owned()),
        Piece::from("/"),
    ])];
    let plain = vec![ShellString::from(vec![
        Piece::from("/"),
        Piece::Glob("*".to_owned()),
    ])];
    let env = Environment::new(Vec::new(), "/".to_owned());

    let dirs = to_string_vec(trailing, &env);
    let everything = to_string_vec(plain, &env);

    assert!(!dirs.is_empty());
    assert!(dirs.iter().all(|d| everything.contains(d)));
}

#[test]
fn test_invalid_escape_in_double_quotes_is_an_error() {
    assert!(interpolated_string("\"a\\qb\"").is_err());
}

#[test]
fn test_digit_leading_variable_name_is_an_error() {
    let parser = Parser::new();
    assert!(parser.parse("echo \"${1BAD}\"".to_owned()).is_err());
}

#[test]
fn test_unterminated_quote_is_an_error() {
    let parser = Parser::new();
    assert!(parser.parse("echo 'oops".to_owned()).is_err());
}

#[test]
fn test_trailing_garbage_is_an_error() {
    let parser = Parser::new();
    assert!(parser.parse("echo hi | grep h".to_owned()).is_err());
}

#[test]
fn test_redirect_append_takes_the_longest_operator() {
    let (rest, parsed) = redirect(">>out.txt\n").expect("should parse");
    assert_eq!("\n", rest);
    assert_eq!(None, parsed.from);
    assert_eq!(Some(RedirectNode::File(ShellString::from("out.txt"))), parsed.to);
    assert_eq!(RedirectType::OutAppend, parsed.typ);
}

#[test]
fn test_redirect_parses_descriptor_target() {
    let (rest, parsed) = redirect(">&8\n").expect("should parse");
    assert_eq!("\n", rest);
    assert_eq!(None, parsed.from);
    assert_eq!(Some(RedirectNode::Descriptor(8)), parsed.to);
    assert_eq!(RedirectType::OutTruncate, parsed.typ);
}

#[test]
fn test_command_with_redirect_parses() {
    let parser = Parser::new();
    let parsed = parser.parse("cat <foo.txt".to_owned()).expect("should parse");
    assert_eq!(
        ParsedLine::Command(Command {
            vars: vec![],
            args: vec![ShellString::from("cat")],
            redirects: vec![gesh::parser::Redirect {
                from: Some(RedirectNode::File(ShellString::from("foo.txt"))),
                to: None,
                typ: RedirectType::In,
            }],
        }),
        parsed
    );
}

#[test]
fn test_apply_set_variables_interpolates_in_order() {
    let parser = Parser::new();
    let parsed = parser.parse("A=one B=\"${A} two\"".to_owned()).expect("should parse");
    let vars = match parsed {
        ParsedLine::SetVariables(vars) => vars,
        other => panic!("expected assignments, got {:?}", other),
    };
    let mut env = Environment::new(Vec::new(), "/".to_owned());
    apply_set_variables(&mut env, &vars);
    assert_eq!(Some("one".to_owned()), env.get(&"A".to_owned()));
    assert_eq!(Some("one two".to_owned()), env.get(&"B".to_owned()));
    assert_eq!(None, exported_value(&env, "A"));
}

#[test]
fn test_command_env_exports_its_prefix() {
    let parser = Parser::new();
    let parsed = parser.parse("FOO=bar env".to_owned()).expect("should parse");
    let vars = match parsed {
        ParsedLine::Command(c) => c.vars,
        other => panic!("expected a command, got {:?}", other),
    };
    let env = Environment::new(Vec::new(), "/".to_owned());
    let temp = command_env(&env, &vars);
    assert_eq!(Some("bar".to_owned()), temp.get(&"FOO".to_owned()));
    assert_eq!(Some("bar".to_owned()), exported_value(&temp, "FOO"));
    assert_eq!(None, env.get(&"FOO".to_owned()));
}

#[test]
fn test_candidate_paths_searches_path_entries_then_working_directory() {
    let paths = vec!["/bin".to_owned(), "/usr/bin/".to_owned()];
    let wd = "/home/me".to_owned();

    assert_eq!(
        vec!["/bin/ls".to_owned(), "/usr/bin/ls".to_owned(), "/home/me/ls".to_owned()],
        candidate_paths(&"ls".to_owned(), &paths, &wd)
    );
    assert_eq!(
        vec!["/bin/ls".to_owned()],
        candidate_paths(&"/bin/ls".to_owned(), &paths, &wd)
    );
    assert_eq!(
        vec!["/home/me/sub/tool".to_owned()],
        candidate_paths(&"sub/tool".to_owned(), &paths, &wd)
    );
}

#[test]
fn test_glob_empty_bracket_class_is_an_error() {
    assert!(glob("[]\n").is_err());
}

#[test]
fn test_glob_unterminated_bracket_class_is_an_error() {
    assert!(glob("[abc\n").is_err());
}

#[test]
fn test_path_of_a_lone_tilde_is_the_home_directory() {
    assert_eq!(
        ("\n".to_string(), ShellString::from(vec![
            Piece::Variable("HOME".to_owned()),
            Piece::from(""),
        ])),
        path("~\n").expect("should parse")
    );
}

#[test]
fn test_leading_redirect_without_a_command_is_an_error() {
    let parser = Parser::new();
    assert!(parser.parse("<foo.txt".to_owned()).is_err());
}

#[test]
fn test_redirect_glued_to_the_command_is_an_error() {
    let parser = Parser::new();
    assert!(parser.parse("cat<foo.txt".to_owned()).is_err());
}

#[test]
fn test_overflowing_descriptor_is_an_error() {
    let parser = Parser::new();
    assert!(parser.parse("cmd >&99999999999".to_owned()).is_err());
}

#[test]
fn test_any_whitespace_but_newlines_separates_words() {
    let parser = Parser::new();
    let parsed = parser.parse("echo\u{000b}a\u{00a0}b\u{2002}c".to_owned()).expect("should parse");
    assert_eq!(
        ParsedLine::Command(Command {
            vars: vec![],
            args: vec![
                ShellString::from("echo"),
                ShellString::from("a"),
                ShellString::from("b"),
                ShellString::from("c"),
            ],
            redirects: vec![],
        }),
        parsed
    );
}

#[test]
fn test_plain_expansion_is_idempotent() {
    let env = Environment::new(Vec::new(), "/".to_owned());
    let first = shellstring_to_string(&ShellString::from("plain/text"), &env);
    let second = shellstring_to_string(&ShellString::from(first.clone()), &env);
    assert_eq!(first, second);
}
