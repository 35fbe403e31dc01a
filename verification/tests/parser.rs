//! Tests for the line parser's productions.
use gesh::Piece;
use gesh::RedirectType;
use gesh::ShellString;
use gesh::parser::Command;
use gesh::parser::ParsedLine;
use gesh::parser::Redirect;
use gesh::parser::RedirectNode;
use gesh::parser::SetVariable;
use gesh::parser::command;
use gesh::parser::glob;
use gesh::parser::interpolated_string;
use gesh::parser::parse_line;
use gesh::parser::path;
use gesh::parser::piece;
use gesh::parser::redirect;
use gesh::parser::set_variable;
use gesh::parser::set_variables;
use gesh::parser::uninterpolated_string;

#[test]
fn parser_test_parse_line_parses_current_directory() {
    assert_eq!(
        ("\n".to_string(), ParsedLine::Command(Command {
            vars: Vec::new(),
            args: vec![ShellString::from("./foo.sh")],
            redirects: vec![],
        })),
        parse_line("./foo.sh\n").expect("should parse")
    );
}

#[test]
fn parser_test_command_parses() {
    assert_eq!(
        ("\n".to_string(), ParsedLine::Command(Command {
            vars: Vec::new(),
            args: vec![
                ShellString::from("/bin/echo"),
                ShellString::from("My"),
                ShellString::from("home"),
                ShellString::from("dir is"),
                ShellString::from(vec![
                    Piece::Variable("HOME".to_owned())
                ])
            ],
            redirects: vec![],
        })),
        command("/bin/echo My home 'dir is' \"${HOME}\"\n").expect("should parse")
    );
}

#[test]
fn parser_test_command_parses_with_env_vars() {
    assert_eq!(
        ("\n".to_string(), ParsedLine::Command(Command {
            vars: vec![
                SetVariable { name: "FOO".to_owned(), value: ShellString::from("bar") }
            ],
            args: vec![
                ShellString::from("export"),
                ShellString::from("BAR=baz"),
            ],
            redirects: vec![],
        })),
        command("FOO=bar export BAR=baz\n").expect("should parse")
    );
}

#[test]
fn parser_test_set_variables_parses_multiple_variables() {
    assert_eq!(
        ("\n".to_string(), vec![
            SetVariable { name: "FOO".to_owned(), value: ShellString::from("bar") },
            SetVariable { name: "BAR".to_owned(), value: ShellString::from("spam") },
        ]),
        set_variables("FOO=bar BAR=spam\n").expect("should parse")
    );
}

#[test]
fn parser_test_set_variable_parses_variable_without_a_value() {
    assert_eq!(
        ("\n".to_string(), SetVariable { name: "FOO".to_owned(), value: ShellString::from("") }),
        set_variable("FOO=\n").expect("should parse")
    );
}

#[test]
fn parser_test_piece_parses_paths() {
    assert_eq!(
        ("\n".to_string(), ShellString::from("/bin/echo")),
        piece("/bin/echo\n").expect("should parse")
    );
}

#[test]
fn parser_test_piece_parses_interpolated_strings() {
    assert_eq!(
        ("\n".to_string(), ShellString::from(vec![
            Piece::from("echo"),
        ])),
        piece("\"echo\"\n").expect("should parse")
    );
}

#[test]
fn parser_test_piece_parses_uninterpolated_strings() {
    assert_eq!(
        ("\n".to_string(), ShellString::from("echo")),
        piece("'echo'\n").expect("should parse")
    );
}

#[test]
fn parser_test_piece_parses_multiple_adjacent_pieces() {
    assert_eq!(
        ("\n".to_string(), ShellString::from(vec![
            Piece::from("foo/"),
            Piece::from("bar"),
            Piece::from("/"),
            Piece::Variable("HOME".to_owned()),
            Piece::from(" x"),
            Piece::from("/"),
            Piece::from("more"),
            Piece::from("stuff"),
        ])),
        piece("foo/'bar'/\"${HOME} x\"/'more'\"stuff\"\n").expect("should parse")
    );
}

#[test]
fn parser_test_piece_parses_glob() {
    assert_eq!(
        ("\n".to_string(), ShellString::from(vec![
            Piece::from("foo/"),
            Piece::from("bar"),
            Piece::from("/"),
            Piece::Variable("HOME".to_owned()),
            Piece::from("/"),
            Piece::Glob("**".to_owned()),
            Piece::from("/"),
            Piece::Glob("*".to_owned()),
            Piece::from(".txt"),
        ])),
        piece("foo/'bar'/\"${HOME}\"/**/*.txt\n").expect("should parse")
    );
}

#[test]
fn parser_test_glob_parses_question_glob() {
    assert_eq!(
        ("\n".to_string(), ShellString::from(Piece::Glob("?".to_owned()))),
        glob("?\n").expect("should parse")
    );
}

#[test]
fn parser_test_glob_parses_star_glob() {
    assert_eq!(
        ("\n".to_string(), ShellString::from(Piece::Glob("*".to_owned()))),
        glob("*\n").expect("should parse")
    );
}

#[test]
fn parser_test_glob_parses_recursive_star_glob() {
    assert_eq!(
        ("\n".to_string(), ShellString::from(Piece::Glob("**".to_owned()))),
        glob("**\n").expect("should parse")
    );
}

#[test]
fn parser_test_glob_parses_character_glob_with_closing_bracket() {
    assert_eq!(
        ("\n".to_string(), ShellString::from(Piece::Glob("[]]".to_owned()))),
        glob("[]]\n").expect("should parse")
    );
}

#[test]
fn parser_test_glob_parses_character_negation_glob_with_closing_bracket() {
    assert_eq!(
        ("\n".to_string(), ShellString::from(Piece::Glob("[!]]".to_owned()))),
        glob("[!]]\n").expect("should parse")
    );
}

#[test]
fn parser_test_glob_parses_character_glob() {
    assert_eq!(
        ("\n".to_string(), ShellString::from(Piece::Glob("[abc]".to_owned()))),
        glob("[abc]\n").expect("should parse")
    );
}

#[test]
fn parser_test_glob_parses_character_negation_glob() {
    assert_eq!(
        ("\n".to_string(), ShellString::from(Piece::Glob("[!0-9]".to_owned()))),
        glob("[!0-9]\n").expect("should parse")
    );
}

#[test]
fn parser_test_path_parses_absolute_paths() {
    assert_eq!(
        ("\n".to_string(), ShellString::from("/bin/echo")),
        path("/bin/echo\n").expect("should parse")
    );
}

#[test]
fn parser_test_path_parses_relative_paths() {
    assert_eq!(
        ("\n".to_string(), ShellString::from("bin/echo")),
        path("bin/echo\n").expect("should parse")
    );
}

#[test]
fn parser_test_path_parses_tilde_paths() {
    assert_eq!(
        ("\n".to_string(), ShellString::from(vec![
            Piece::Variable("HOME".to_owned()),
            Piece::from("/bin/echo")
        ])),
        path("~/bin/echo\n").expect("should parse")
    );
}

#[test]
fn parser_test_path_parses_separator_at_end() {
    assert_eq!(
        ("\n".to_string(), ShellString::from("/bin/echo/")),
        path("/bin/echo/\n").expect("should parse")
    );
}

#[test]
fn parser_test_path_parses_root_dir() {
    assert_eq!(
        ("\n".to_string(), ShellString::from("/")),
        path("/\n").expect("should parse")
    );
}

#[test]
fn parser_test_interpolated_string_parses_simple_string() {
    assert_eq!(
        ("".to_string(), ShellString::from(vec![
            Piece::from("this is a test"),
        ])),
        interpolated_string("\"this is a test\"").expect("should parse")
    );
}

#[test]
fn parser_test_interpolated_string_parses_complex_string() {
    assert_eq!(
        ("".to_string(), ShellString::from(vec![
            Piece::from("home dir:\n\t"),
            Piece::Variable("HOME".to_owned()),
            Piece::from("\n\ncode dir:\n\t"),
            Piece::Variable("CODE_DIR".to_owned()),
        ])),
        interpolated_string("\"home dir:\\n\\t${HOME}\\n\\ncode dir:\\n\\t${CODE_DIR}\"")
            .expect("should parse")
    );
}

#[test]
fn parser_test_interpolated_string_parses_string_escapes() {
    assert_eq!(
        ("".to_string(), ShellString::from(vec![
            Piece::from("\tthis is \n a \"test\"")
        ])),
        interpolated_string("\"\\tthis is \\n a \\\"test\\\"\"").expect("should parse")
    );
}

#[test]
fn parser_test_interpolated_string_parses_string_with_vars() {
    assert_eq!(
        ("".to_string(), ShellString::from(vec![
            Piece::from("\tthis is \n a \"test\"")
        ])),
        interpolated_string("\"\\tthis is \\n a \\\"test\\\"\"").expect("should parse")
    );
}

#[test]
fn parser_test_uninterpolated_string_parses_simple_string() {
    assert_eq!(
        ("".to_string(), ShellString::from("this is a test")),
        uninterpolated_string("'this is a test'").expect("should parse")
    );
}

#[test]
fn parser_test_uninterpolated_string_parses_string_with_escapes() {
    assert_eq!(
        ("".to_string(), ShellString::from("it's \\ a test")),
        uninterpolated_string("'it\\'s \\\\ a test'").expect("should parse")
    );
}

#[test]
fn test_redirect_parses_stdin_redirect_with_file() {
    let from = Some(RedirectNode::File(ShellString::from("foo.txt")));
    let to = None;
    let typ = RedirectType::In;

    assert_eq!(
        ("\n".to_string(), Redirect { from, to, typ }),
        redirect("<foo.txt\n").expect("should parse")
    );
}
